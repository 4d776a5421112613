//! The transfer protocol's messages and their deterministic wire codec.
//!
//! Every message is encoded as a tag byte followed by its fields: integers as
//! eight little-endian bytes, strings as a character count followed by four
//! little-endian bytes per character, byte fields as a length followed by the
//! raw bytes. The codec round-trips: see `lemma_codec_roundtrip`.

use crate::strutil::{char_from_u32, push_char, valid_char, valid_chars, valid_code_point};
use crate::wire::{
    enc_le, le_at, lemma_enc_le_len, lemma_le_at_bound, lemma_le_at_enc, lemma_pow256_values,
    pow256, push_u32_le, push_u64_le, read_u32_le, read_u64_le,
};
use vstd::prelude::*;
use vstd::string::StrSliceExecFns;

verus! {

/// The protocol version announced in `Hello`.
pub const PROTOCOL_VERSION: u8 = 1;

/// Messages exchanged during a transfer.
pub enum Message {
    /// Initial handshake carrying the protocol version; sent unsealed.
    Hello { version: u8 },
    /// Key-exchange payload passed between the two sides; necessarily
    /// unsealed, since it is what establishes the channel key.
    KeyExchange { data: Vec<u8> },
    /// Transfer metadata, sent sealed by the sender.
    Metadata { filename: String, size: u64, is_directory: bool, checksum: String },
    /// One file chunk, sent sealed in strictly increasing index order.
    Chunk { index: u64, data: Vec<u8> },
    /// Request to resume from the first chunk not yet durably written.
    Resume { from_chunk: u64 },
    /// Authoritative end of stream.
    Complete,
    /// Fatal error with a human-readable reason.
    Error { message: String },
    /// The receiver's one-shot gate before chunk transfer starts.
    Ack,
}

/// The mathematical shape of a message: sequences in place of vectors and
/// strings.
pub enum MessageV {
    Hello { version: u8 },
    KeyExchange { data: Seq<u8> },
    Metadata { filename: Seq<char>, size: u64, is_directory: bool, checksum: Seq<char> },
    Chunk { index: u64, data: Seq<u8> },
    Resume { from_chunk: u64 },
    Complete,
    Error { message: Seq<char> },
    Ack,
}

impl View for Message {
    type V = MessageV;

    open spec fn view(&self) -> MessageV {
        match self {
            Message::Hello { version } => MessageV::Hello { version: *version },
            Message::KeyExchange { data } => MessageV::KeyExchange { data: data@ },
            Message::Metadata { filename, size, is_directory, checksum } => (MessageV::Metadata {
                filename: filename@,
                size: *size,
                is_directory: *is_directory,
                checksum: checksum@,
            }),
            Message::Chunk { index, data } => MessageV::Chunk { index: *index, data: data@ },
            Message::Resume { from_chunk } => MessageV::Resume { from_chunk: *from_chunk },
            Message::Complete => MessageV::Complete,
            Message::Error { message } => MessageV::Error { message: message@ },
            Message::Ack => MessageV::Ack,
        }
    }
}

/// Why a byte string failed to decode.
#[derive(Clone, Copy, Debug, PartialEq, Eq, Structural)]
pub enum DecodeError {
    /// The bytes are not the encoding of any message.
    Malformed,
}

/// Eight little-endian bytes of `n`.
pub open spec fn enc_u64(n: u64) -> Seq<u8> {
    enc_le(n as int, 8)
}

/// Four little-endian bytes for each character's code point.
pub open spec fn enc_chars(cs: Seq<char>) -> Seq<u8>
    decreases cs.len(),
{
    if cs.len() == 0 {
        Seq::empty()
    } else {
        enc_le(cs[0] as u32 as int, 4) + enc_chars(cs.drop_first())
    }
}

/// A character count followed by the characters.
pub open spec fn enc_string(cs: Seq<char>) -> Seq<u8> {
    enc_u64(cs.len() as u64) + enc_chars(cs)
}

/// A byte count followed by the raw bytes.
pub open spec fn enc_bytes(bs: Seq<u8>) -> Seq<u8> {
    enc_u64(bs.len() as u64) + bs
}

/// The encoding of a message.
pub open spec fn encode_msg(m: MessageV) -> Seq<u8> {
    match m {
        MessageV::Hello { version } => seq![0u8, version],
        MessageV::KeyExchange { data } => seq![1u8] + enc_bytes(data),
        MessageV::Metadata { filename, size, is_directory, checksum } => seq![2u8] + enc_string(
            filename,
        ) + enc_u64(size) + seq![if is_directory { 1u8 } else { 0u8 }] + enc_string(checksum),
        MessageV::Chunk { index, data } => seq![3u8] + enc_u64(index) + enc_bytes(data),
        MessageV::Resume { from_chunk } => seq![4u8] + enc_u64(from_chunk),
        MessageV::Complete => seq![5u8],
        MessageV::Error { message } => seq![6u8] + enc_string(message),
        MessageV::Ack => seq![7u8],
    }
}

/// A message's field lengths fit the eight-byte counters of the encoding and
/// its strings hold Unicode scalar values, as every real vector and string
/// does.
pub open spec fn wf_message(m: MessageV) -> bool {
    match m {
        MessageV::KeyExchange { data } => data.len() < 0x10000000000000000,
        MessageV::Metadata { filename, checksum, .. } => filename.len() < 0x10000000000000000
            && checksum.len() < 0x10000000000000000 && valid_chars(filename) && valid_chars(
            checksum,
        ),
        MessageV::Chunk { data, .. } => data.len() < 0x10000000000000000,
        MessageV::Error { message } => message.len() < 0x10000000000000000 && valid_chars(message),
        _ => true,
    }
}

/// Parses eight bytes at `pos` as a little-endian integer.
pub open spec fn sp_u64(s: Seq<u8>, pos: int) -> Option<(u64, int)> {
    if 0 <= pos && pos + 8 <= s.len() {
        Some(((le_at(s, pos, 8) as u64), pos + 8))
    } else {
        None
    }
}

/// Parses a length-prefixed byte field at `pos`.
pub open spec fn sp_bytes(s: Seq<u8>, pos: int) -> Option<(Seq<u8>, int)> {
    match sp_u64(s, pos) {
        Some((n, p)) => if p + n <= s.len() {
            Some((s.subrange(p, p + n), p + n))
        } else {
            None
        },
        None => None,
    }
}

/// Parses `count` characters of four bytes each, starting at `pos`.
pub open spec fn sp_chars(s: Seq<u8>, pos: int, count: nat) -> Option<Seq<char>>
    decreases count,
{
    if count == 0 {
        Some(Seq::empty())
    } else {
        let u = le_at(s, pos, 4) as u32;
        if valid_code_point(u) {
            match sp_chars(s, pos + 4, (count - 1) as nat) {
                Some(rest) => Some(seq![u as char] + rest),
                None => None,
            }
        } else {
            None
        }
    }
}

/// Parses a count-prefixed string field at `pos`.
pub open spec fn sp_string(s: Seq<u8>, pos: int) -> Option<(Seq<char>, int)> {
    match sp_u64(s, pos) {
        Some((n, p)) => if p + 4 * n <= s.len() {
            match sp_chars(s, p, n as nat) {
                Some(cs) => Some((cs, p + 4 * n)),
                None => None,
            }
        } else {
            None
        },
        None => None,
    }
}

/// Parses one boolean byte at `pos`.
pub open spec fn sp_bool(s: Seq<u8>, pos: int) -> Option<(bool, int)> {
    if 0 <= pos && pos + 1 <= s.len() {
        if s[pos] == 0 {
            Some((false, pos + 1))
        } else if s[pos] == 1 {
            Some((true, pos + 1))
        } else {
            None
        }
    } else {
        None
    }
}

/// The decoding of a byte string, if it is the encoding of some message.
pub open spec fn decode_msg(s: Seq<u8>) -> Option<MessageV> {
    if s.len() < 1 {
        None
    } else {
        let tag = s[0];
        if tag == 0 {
            if s.len() == 2 {
                Some(MessageV::Hello { version: s[1] })
            } else {
                None
            }
        } else if tag == 1 {
            match sp_bytes(s, 1) {
                Some((data, p)) => if p == s.len() {
                    Some(MessageV::KeyExchange { data })
                } else {
                    None
                },
                None => None,
            }
        } else if tag == 2 {
            match sp_string(s, 1) {
                Some((filename, p1)) => match sp_u64(s, p1) {
                    Some((size, p2)) => match sp_bool(s, p2) {
                        Some((is_directory, p3)) => match sp_string(s, p3) {
                            Some((checksum, p4)) => if p4 == s.len() {
                                Some(
                                    MessageV::Metadata {
                                        filename,
                                        size,
                                        is_directory,
                                        checksum,
                                    },
                                )
                            } else {
                                None
                            },
                            None => None,
                        },
                        None => None,
                    },
                    None => None,
                },
                None => None,
            }
        } else if tag == 3 {
            match sp_u64(s, 1) {
                Some((index, p1)) => match sp_bytes(s, p1) {
                    Some((data, p2)) => if p2 == s.len() {
                        Some(MessageV::Chunk { index, data })
                    } else {
                        None
                    },
                    None => None,
                },
                None => None,
            }
        } else if tag == 4 {
            match sp_u64(s, 1) {
                Some((from_chunk, p1)) => if p1 == s.len() {
                    Some(MessageV::Resume { from_chunk })
                } else {
                    None
                },
                None => None,
            }
        } else if tag == 5 {
            if s.len() == 1 {
                Some(MessageV::Complete)
            } else {
                None
            }
        } else if tag == 6 {
            match sp_string(s, 1) {
                Some((message, p1)) => if p1 == s.len() {
                    Some(MessageV::Error { message })
                } else {
                    None
                },
                None => None,
            }
        } else if tag == 7 {
            if s.len() == 1 {
                Some(MessageV::Ack)
            } else {
                None
            }
        } else {
            None
        }
    }
}

/// The bytes of `b` appear verbatim in `s` starting at `pos`.
pub open spec fn bytes_at(s: Seq<u8>, pos: int, b: Seq<u8>) -> bool {
    forall|i: int| 0 <= i < b.len() ==> s[pos + i] == #[trigger] b[i]
}

pub proof fn lemma_bytes_at_concat(s: Seq<u8>, pos: int, a: Seq<u8>, b: Seq<u8>)
    requires
        bytes_at(s, pos, a + b),
    ensures
        bytes_at(s, pos, a),
        bytes_at(s, pos + a.len(), b),
{
    assert forall|i: int| 0 <= i < a.len() implies s[pos + i] == #[trigger] a[i] by {
        assert((a + b)[i] == a[i]);
        assert(s[pos + i] == (a + b)[i]);
    }
    assert forall|i: int| 0 <= i < b.len() implies s[pos + a.len() + i] == #[trigger] b[i] by {
        assert((a + b)[a.len() + i] == b[i]);
        assert(s[pos + (a.len() + i)] == (a + b)[a.len() + i]);
    }
}

pub proof fn lemma_enc_chars_len(cs: Seq<char>)
    ensures
        enc_chars(cs).len() == 4 * cs.len(),
    decreases cs.len(),
{
    if cs.len() > 0 {
        lemma_enc_le_len(cs[0] as u32 as int, 4);
        lemma_enc_chars_len(cs.drop_first());
    }
}

/// Appending one character extends the encoding by its four bytes.
pub proof fn lemma_enc_chars_push(cs: Seq<char>, c: char)
    ensures
        enc_chars(cs.push(c)) == enc_chars(cs) + enc_le(c as u32 as int, 4),
    decreases cs.len(),
{
    if cs.len() == 0 {
        assert(cs.push(c)[0] == c);
        assert(cs.push(c).drop_first() =~= Seq::<char>::empty());
        assert(enc_chars(Seq::<char>::empty()) =~= Seq::<u8>::empty());
        assert(enc_chars(cs.push(c)) == enc_le(c as u32 as int, 4) + enc_chars(
            Seq::<char>::empty(),
        ));
        assert(enc_chars(cs) =~= Seq::<u8>::empty());
        assert(enc_chars(cs.push(c)) =~= enc_chars(cs) + enc_le(c as u32 as int, 4));
    } else {
        assert(cs.push(c).drop_first() =~= cs.drop_first().push(c));
        lemma_enc_chars_push(cs.drop_first(), c);
        assert(cs.push(c)[0] == cs[0]);
        assert(enc_chars(cs.push(c)) == enc_le(cs[0] as u32 as int, 4) + enc_chars(
            cs.drop_first().push(c),
        ));
        assert(enc_chars(cs.push(c)) =~= enc_chars(cs) + enc_le(c as u32 as int, 4));
    }
}

pub proof fn lemma_sp_u64_at(s: Seq<u8>, pos: int, n: u64)
    requires
        0 <= pos,
        pos + 8 <= s.len(),
        bytes_at(s, pos, enc_u64(n)),
    ensures
        sp_u64(s, pos) == Some((n, pos + 8)),
{
    lemma_pow256_values();
    lemma_enc_le_len(n as int, 8);
    lemma_le_at_enc(s, pos, n as int, 8);
}

pub proof fn lemma_sp_bool_at(s: Seq<u8>, pos: int, b: bool)
    requires
        0 <= pos,
        pos + 1 <= s.len(),
        bytes_at(s, pos, seq![if b { 1u8 } else { 0u8 }]),
    ensures
        sp_bool(s, pos) == Some((b, pos + 1)),
{
    assert(s[pos + 0] == seq![if b { 1u8 } else { 0u8 }][0]);
}

pub proof fn lemma_sp_chars_at(s: Seq<u8>, pos: int, cs: Seq<char>)
    requires
        0 <= pos,
        valid_chars(cs),
        pos + 4 * cs.len() <= s.len(),
        bytes_at(s, pos, enc_chars(cs)),
    ensures
        sp_chars(s, pos, cs.len()) == Some(cs),
    decreases cs.len(),
{
    if cs.len() == 0 {
        assert(sp_chars(s, pos, 0) == Some(Seq::<char>::empty()));
        assert(cs =~= Seq::<char>::empty());
    } else {
        let c = cs[0];
        let u = c as u32;
        lemma_pow256_values();
        lemma_enc_le_len(u as int, 4);
        lemma_enc_chars_len(cs.drop_first());
        lemma_bytes_at_concat(s, pos, enc_le(u as int, 4), enc_chars(cs.drop_first()));
        assert(valid_char(c));
        assert(u as int == c as int);
        lemma_le_at_enc(s, pos, u as int, 4);
        assert(le_at(s, pos, 4) == u as int);
        assert(le_at(s, pos, 4) as u32 == u);
        assert(valid_code_point(u));
        assert(valid_chars(cs.drop_first())) by {
            assert(forall|i: int|
                0 <= i < cs.drop_first().len() ==> #[trigger] cs.drop_first()[i] == cs[i + 1]);
        }
        lemma_sp_chars_at(s, pos + 4, cs.drop_first());
        assert(u as char == c);
        assert(seq![c] + cs.drop_first() =~= cs);
    }
}

pub proof fn lemma_sp_string_at(s: Seq<u8>, pos: int, cs: Seq<char>)
    requires
        0 <= pos,
        valid_chars(cs),
        cs.len() < 0x10000000000000000,
        pos + 8 + 4 * cs.len() <= s.len(),
        bytes_at(s, pos, enc_string(cs)),
    ensures
        sp_string(s, pos) == Some((cs, pos + 8 + 4 * cs.len())),
{
    let n = cs.len() as u64;
    lemma_enc_le_len(n as int, 8);
    lemma_enc_chars_len(cs);
    lemma_bytes_at_concat(s, pos, enc_u64(n), enc_chars(cs));
    lemma_sp_u64_at(s, pos, n);
    lemma_sp_chars_at(s, pos + 8, cs);
}

pub proof fn lemma_sp_bytes_at(s: Seq<u8>, pos: int, bs: Seq<u8>)
    requires
        0 <= pos,
        bs.len() < 0x10000000000000000,
        pos + 8 + bs.len() <= s.len(),
        bytes_at(s, pos, enc_bytes(bs)),
    ensures
        sp_bytes(s, pos) == Some((bs, pos + 8 + bs.len())),
{
    let n = bs.len() as u64;
    lemma_enc_le_len(n as int, 8);
    lemma_bytes_at_concat(s, pos, enc_u64(n), bs);
    lemma_sp_u64_at(s, pos, n);
    assert(s.subrange(pos + 8, pos + 8 + bs.len()) =~= bs);
}

/// Decoding an encoded message yields the message back: the codec round-trips.
#[verifier::rlimit(100)]
pub proof fn lemma_codec_roundtrip(m: MessageV)
    requires
        wf_message(m),
    ensures
        decode_msg(encode_msg(m)) == Some(m),
{
    let e = encode_msg(m);
    assert(bytes_at(e, 0, e));
    match m {
        MessageV::Hello { version } => {
            assert(e.len() == 2);
            assert(e[0] == 0u8);
        },
        MessageV::KeyExchange { data } => {
            lemma_enc_le_len(data.len() as u64 as int, 8);
            lemma_bytes_at_concat(e, 0, seq![1u8], enc_bytes(data));
            assert(e[0] == 1u8);
            lemma_sp_bytes_at(e, 1, data);
        },
        MessageV::Metadata { filename, size, is_directory, checksum } => {
            let a = enc_string(filename);
            let b = enc_u64(size);
            let c = seq![if is_directory { 1u8 } else { 0u8 }];
            let d = enc_string(checksum);
            lemma_enc_le_len(filename.len() as u64 as int, 8);
            lemma_enc_chars_len(filename);
            lemma_enc_le_len(size as int, 8);
            lemma_enc_le_len(checksum.len() as u64 as int, 8);
            lemma_enc_chars_len(checksum);
            assert(e =~= (((seq![2u8] + a) + b) + c) + d);
            lemma_bytes_at_concat(e, 0, ((seq![2u8] + a) + b) + c, d);
            lemma_bytes_at_concat(e, 0, (seq![2u8] + a) + b, c);
            lemma_bytes_at_concat(e, 0, seq![2u8] + a, b);
            lemma_bytes_at_concat(e, 0, seq![2u8], a);
            assert(e[0] == 2u8);
            lemma_sp_string_at(e, 1, filename);
            lemma_sp_u64_at(e, 1 + a.len() as int, size);
            lemma_sp_bool_at(e, 1 + a.len() as int + 8, is_directory);
            lemma_sp_string_at(e, 1 + a.len() as int + 9, checksum);
        },
        MessageV::Chunk { index, data } => {
            let a = enc_u64(index);
            lemma_enc_le_len(index as int, 8);
            lemma_enc_le_len(data.len() as u64 as int, 8);
            assert(e =~= (seq![3u8] + a) + enc_bytes(data));
            lemma_bytes_at_concat(e, 0, seq![3u8] + a, enc_bytes(data));
            lemma_bytes_at_concat(e, 0, seq![3u8], a);
            assert(e[0] == 3u8);
            lemma_sp_u64_at(e, 1, index);
            lemma_sp_bytes_at(e, 9, data);
        },
        MessageV::Resume { from_chunk } => {
            lemma_enc_le_len(from_chunk as int, 8);
            lemma_bytes_at_concat(e, 0, seq![4u8], enc_u64(from_chunk));
            assert(e[0] == 4u8);
            lemma_sp_u64_at(e, 1, from_chunk);
        },
        MessageV::Complete => {
            assert(e[0] == 5u8);
        },
        MessageV::Error { message } => {
            lemma_enc_le_len(message.len() as u64 as int, 8);
            lemma_enc_chars_len(message);
            lemma_bytes_at_concat(e, 0, seq![6u8], enc_string(message));
            assert(e[0] == 6u8);
            lemma_sp_string_at(e, 1, message);
        },
        MessageV::Ack => {
            assert(e[0] == 7u8);
        },
    }
}

/// Appends a length-prefixed byte field.
fn push_bytes_field(out: &mut Vec<u8>, data: &Vec<u8>)
    ensures
        final(out)@ == old(out)@ + enc_bytes(data@),
{
    let n = data.len();
    push_u64_le(out, n as u64);
    let ghost mid = out@;
    let mut i: usize = 0;
    while i < n
        invariant
            n == data@.len(),
            i <= n,
            out@ == mid + data@.take(i as int),
        decreases n - i,
    {
        out.push(data[i]);
        proof {
            assert(mid + data@.take(i as int + 1) =~= (mid + data@.take(i as int)).push(
                data@[i as int],
            ));
        }
        i += 1;
    }
    proof {
        assert(data@.take(n as int) =~= data@);
        assert(out@ =~= old(out)@ + enc_bytes(data@));
    }
}

/// Appends a count-prefixed string field.
fn push_string_field(out: &mut Vec<u8>, s: &String)
    ensures
        final(out)@ == old(out)@ + enc_string(s@),
        valid_chars(s@),
        s@.len() < 0x10000000000000000,
{
    let n = s.as_str().unicode_len();
    push_u64_le(out, n as u64);
    let ghost mid = out@;
    let mut i: usize = 0;
    while i < n
        invariant
            n == s@.len(),
            i <= n,
            out@ == mid + enc_chars(s@.take(i as int)),
            forall|j: int| 0 <= j < i ==> valid_char(#[trigger] s@[j]),
        decreases n - i,
    {
        let c = s.as_str().get_char(i);
        push_u32_le(out, c as u32);
        proof {
            assert(valid_char(c));
            assert(s@.take(i as int + 1) =~= s@.take(i as int).push(s@[i as int]));
            lemma_enc_chars_push(s@.take(i as int), s@[i as int]);
        }
        i += 1;
    }
    proof {
        assert(s@.take(n as int) =~= s@);
        assert(out@ =~= old(out)@ + enc_string(s@));
    }
}

impl Message {
    /// Serializes the message to its wire encoding.
    pub fn to_bytes(&self) -> (r: Vec<u8>)
        ensures
            r@ == encode_msg(self@),
            wf_message(self@),
    {
        let mut out: Vec<u8> = Vec::new();
        match self {
            Message::Hello { version } => {
                out.push(0u8);
                out.push(*version);
                proof {
                    assert(out@ =~= encode_msg(self@));
                }
            },
            Message::KeyExchange { data } => {
                out.push(1u8);
                push_bytes_field(&mut out, data);
                proof {
                    assert(data.len() == data@.len());
                    assert(out@ =~= encode_msg(self@));
                }
            },
            Message::Metadata { filename, size, is_directory, checksum } => {
                out.push(2u8);
                push_string_field(&mut out, filename);
                push_u64_le(&mut out, *size);
                out.push(if *is_directory { 1u8 } else { 0u8 });
                push_string_field(&mut out, checksum);
                proof {
                    assert(out@ =~= encode_msg(self@));
                }
            },
            Message::Chunk { index, data } => {
                out.push(3u8);
                push_u64_le(&mut out, *index);
                push_bytes_field(&mut out, data);
                proof {
                    assert(data.len() == data@.len());
                    assert(out@ =~= encode_msg(self@));
                }
            },
            Message::Resume { from_chunk } => {
                out.push(4u8);
                push_u64_le(&mut out, *from_chunk);
                proof {
                    assert(out@ =~= encode_msg(self@));
                }
            },
            Message::Complete => {
                out.push(5u8);
                proof {
                    assert(out@ =~= encode_msg(self@));
                }
            },
            Message::Error { message } => {
                out.push(6u8);
                push_string_field(&mut out, message);
                proof {
                    assert(out@ =~= encode_msg(self@));
                }
            },
            Message::Ack => {
                out.push(7u8);
                proof {
                    assert(out@ =~= encode_msg(self@));
                }
            },
        }
        out
    }

    /// Deserializes a message from its wire encoding; fails on any byte
    /// string that no message encodes to.
    pub fn from_bytes(data: &[u8]) -> (r: Result<Message, DecodeError>)
        ensures
            match decode_msg(data@) {
                Some(mv) => r matches Ok(m) && m@ == mv,
                None => r is Err,
            },
    {
        let len = data.len();
        if len < 1 {
            return Err(DecodeError::Malformed);
        }
        let tag = data[0];
        if tag == 0 {
            if len == 2 {
                Ok(Message::Hello { version: data[1] })
            } else {
                Err(DecodeError::Malformed)
            }
        } else if tag == 1 {
            match read_bytes_field(data, 1) {
                Some((bytes, p)) => {
                    if p == len {
                        Ok(Message::KeyExchange { data: bytes })
                    } else {
                        Err(DecodeError::Malformed)
                    }
                },
                None => Err(DecodeError::Malformed),
            }
        } else if tag == 2 {
            match read_string_field(data, 1) {
                Some((filename, p1)) => match read_u64_field(data, p1) {
                    Some((size, p2)) => match read_bool_field(data, p2) {
                        Some((is_directory, p3)) => match read_string_field(data, p3) {
                            Some((checksum, p4)) => {
                                if p4 == len {
                                    Ok(
                                        Message::Metadata {
                                            filename,
                                            size,
                                            is_directory,
                                            checksum,
                                        },
                                    )
                                } else {
                                    Err(DecodeError::Malformed)
                                }
                            },
                            None => Err(DecodeError::Malformed),
                        },
                        None => Err(DecodeError::Malformed),
                    },
                    None => Err(DecodeError::Malformed),
                },
                None => Err(DecodeError::Malformed),
            }
        } else if tag == 3 {
            match read_u64_field(data, 1) {
                Some((index, p1)) => match read_bytes_field(data, p1) {
                    Some((bytes, p2)) => {
                        if p2 == len {
                            Ok(Message::Chunk { index, data: bytes })
                        } else {
                            Err(DecodeError::Malformed)
                        }
                    },
                    None => Err(DecodeError::Malformed),
                },
                None => Err(DecodeError::Malformed),
            }
        } else if tag == 4 {
            match read_u64_field(data, 1) {
                Some((from_chunk, p1)) => {
                    if p1 == len {
                        Ok(Message::Resume { from_chunk })
                    } else {
                        Err(DecodeError::Malformed)
                    }
                },
                None => Err(DecodeError::Malformed),
            }
        } else if tag == 5 {
            if len == 1 {
                Ok(Message::Complete)
            } else {
                Err(DecodeError::Malformed)
            }
        } else if tag == 6 {
            match read_string_field(data, 1) {
                Some((message, p1)) => {
                    if p1 == len {
                        Ok(Message::Error { message })
                    } else {
                        Err(DecodeError::Malformed)
                    }
                },
                None => Err(DecodeError::Malformed),
            }
        } else if tag == 7 {
            if len == 1 {
                Ok(Message::Ack)
            } else {
                Err(DecodeError::Malformed)
            }
        } else {
            Err(DecodeError::Malformed)
        }
    }
}

/// Whether a message travels sealed. `Hello` opens the handshake and the
/// key-exchange payload is what establishes the channel key, so those two
/// necessarily go in the clear; every message after the exchange — metadata,
/// the ack or resume gate, chunks, completion and errors — is sealed.
pub fn must_seal(m: &Message) -> (r: bool)
    ensures
        r == (!(m@ is Hello) && !(m@ is KeyExchange)),
{
    match m {
        Message::Hello { .. } => false,
        Message::KeyExchange { .. } => false,
        _ => true,
    }
}

/// Reads an eight-byte little-endian field.
fn read_u64_field(data: &[u8], pos: usize) -> (r: Option<(u64, usize)>)
    requires
        pos <= data@.len(),
    ensures
        match r {
            Some((n, p)) => sp_u64(data@, pos as int) == Some((n, p as int)) && p <= data@.len(),
            None => sp_u64(data@, pos as int) is None,
        },
{
    let len = data.len();
    if len - pos >= 8 {
        let n = read_u64_le(data, pos);
        proof {
            lemma_pow256_values();
            lemma_le_at_bound(data@, pos as int, 8);
        }
        Some((n, pos + 8))
    } else {
        None
    }
}

/// Reads one boolean byte.
fn read_bool_field(data: &[u8], pos: usize) -> (r: Option<(bool, usize)>)
    requires
        pos <= data@.len(),
    ensures
        match r {
            Some((b, p)) => sp_bool(data@, pos as int) == Some((b, p as int)) && p <= data@.len(),
            None => sp_bool(data@, pos as int) is None,
        },
{
    let len = data.len();
    if len - pos >= 1 {
        if data[pos] == 0 {
            Some((false, pos + 1))
        } else if data[pos] == 1 {
            Some((true, pos + 1))
        } else {
            None
        }
    } else {
        None
    }
}

/// Reads a length-prefixed byte field.
fn read_bytes_field(data: &[u8], pos: usize) -> (r: Option<(Vec<u8>, usize)>)
    requires
        pos <= data@.len(),
    ensures
        match r {
            Some((bs, p)) => sp_bytes(data@, pos as int) == Some((bs@, p as int)) && p
                <= data@.len(),
            None => sp_bytes(data@, pos as int) is None,
        },
{
    let len = data.len();
    match read_u64_field(data, pos) {
        Some((n, p)) => {
            if n <= (len - p) as u64 {
                let count = n as usize;
                let mut out: Vec<u8> = Vec::new();
                let mut i: usize = 0;
                while i < count
                    invariant
                        len == data@.len(),
                        p + count <= len,
                        i <= count,
                        out@ == data@.subrange(p as int, p as int + i as int),
                    decreases count - i,
                {
                    out.push(data[p + i]);
                    proof {
                        assert(data@.subrange(p as int, p as int + i as int + 1) =~= data@.subrange(
                            p as int,
                            p as int + i as int,
                        ).push(data@[p as int + i as int]));
                    }
                    i += 1;
                }
                Some((out, p + count))
            } else {
                None
            }
        },
        None => None,
    }
}

/// Reads a count-prefixed string field.
fn read_string_field(data: &[u8], pos: usize) -> (r: Option<(String, usize)>)
    requires
        pos <= data@.len(),
    ensures
        match r {
            Some((cs, p)) => sp_string(data@, pos as int) == Some((cs@, p as int)) && p
                <= data@.len(),
            None => sp_string(data@, pos as int) is None,
        },
{
    let len = data.len();
    match read_u64_field(data, pos) {
        Some((n, p)) => {
            let avail = len - p;
            if n <= (avail / 4) as u64 {
                proof {
                    vstd::arithmetic::div_mod::lemma_fundamental_div_mod(avail as int, 4);
                    assert(4 * (n as int) <= 4 * ((avail as int) / 4)) by (nonlinear_arith)
                        requires
                            n as int <= (avail as int) / 4,
                    ;
                }
                let count = n as usize;
                let mut out = String::new();
                let mut i: usize = 0;
                while i < count
                    invariant
                        len == data@.len(),
                        p + 4 * count <= len,
                        i <= count,
                        n as int == count as int,
                        sp_u64(data@, pos as int) == Some((n, p as int)),
                        sp_chars(data@, p as int, count as nat) == join_parsed(
                            out@,
                            sp_chars(data@, p as int + 4 * i as int, (count - i) as nat),
                        ),
                    decreases count - i,
                {
                    let ghost here = p as int + 4 * i as int;
                    let ghost k = (count - i) as nat;
                    let u = read_u32_le(data, p + 4 * i);
                    proof {
                        lemma_pow256_values();
                        lemma_le_at_bound(data@, here, 4);
                        assert(le_at(data@, here, 4) as u32 == u);
                    }
                    match char_from_u32(u) {
                        Some(c) => {
                            let ghost prev = out@;
                            push_char(&mut out, c);
                            proof {
                                let rest = sp_chars(data@, here + 4, (k - 1) as nat);
                                assert(valid_code_point(u));
                                assert(c as int == u as int);
                                assert(u as char == c);
                                assert(sp_chars(data@, here, k) == join_parsed(seq![c], rest));
                                match rest {
                                    Some(r) => {
                                        assert(prev + (seq![c] + r) =~= out@ + r);
                                    },
                                    None => {},
                                }
                            }
                        },
                        None => {
                            proof {
                                assert(!valid_code_point(u));
                                assert(sp_chars(data@, here, k) is None);
                                assert(join_parsed(out@, sp_chars(data@, here, k)) is None);
                                assert(sp_chars(data@, p as int, count as nat) is None);
                                assert(n as nat == count as nat);
                                assert(sp_chars(data@, p as int, n as nat) is None);
                                assert(p as int + 4 * (n as int) <= data@.len());
                                assert(sp_string(data@, pos as int) is None);
                            }
                            return None;
                        },
                    }
                    i += 1;
                }
                proof {
                    assert(sp_chars(data@, p as int + 4 * count as int, 0) == Some(
                        Seq::<char>::empty(),
                    ));
                    assert(out@ + Seq::<char>::empty() =~= out@);
                }
                Some((out, p + 4 * count))
            } else {
                proof {
                    vstd::arithmetic::div_mod::lemma_fundamental_div_mod(avail as int, 4);
                    assert(4 * (n as int) > avail as int) by (nonlinear_arith)
                        requires
                            n as int > (avail as int) / 4,
                            avail as int >= 0,
                            4 * ((avail as int) / 4) <= avail as int,
                    ;
                }
                None
            }
        },
        None => None,
    }
}

/// Joins an already-parsed prefix with the outcome of parsing the rest.
pub open spec fn join_parsed(a: Seq<char>, rest: Option<Seq<char>>) -> Option<Seq<char>> {
    match rest {
        Some(r) => Some(a + r),
        None => None,
    }
}

} // verus!
