//! The relay's control-plane messages: structured text with an explicit type
//! discriminant, distinct from the binary data-plane frames it forwards.
//!
//! `to_json` prints the one canonical text of each message; `from_json`
//! accepts exactly those texts, so whatever it accepts is the canonical
//! printing of the message it returns.

use crate::crypto::{blake3_digest, blake3_of, hex_digit, hex_encode, hex_of, lemma_hex_of_len};
use crate::strutil::{push_char, str_chars, valid_char, valid_chars};
use vstd::prelude::*;
use vstd::string::StrSliceExecFns;
use vstd::string::StringExecFns;
use vstd::string::StringSliceAdditionalSpecFns;

verus! {

/// Which side of a transfer a registration speaks for.
#[derive(Clone, Copy, Debug, PartialEq, Eq, Structural)]
pub enum Role {
    Sender,
    Receiver,
}

/// Control messages exchanged with the relay during session setup.
pub enum RelayMessage {
    /// A client announces its role under a hash of the transfer code.
    Register { role: Role, code_hash: String },
    /// The relay confirms that both sides are present and paired.
    Matched,
    /// The relay reports a failure of this session.
    Error { message: String },
    /// Keepalive probe.
    Ping,
    /// Keepalive answer.
    Pong,
}

/// The mathematical shape of a relay message.
pub enum RelayMessageV {
    Register { role: Role, code_hash: Seq<char> },
    Matched,
    Error { message: Seq<char> },
    Ping,
    Pong,
}

impl View for RelayMessage {
    type V = RelayMessageV;

    open spec fn view(&self) -> RelayMessageV {
        match self {
            RelayMessage::Register { role, code_hash } => (RelayMessageV::Register {
                role: *role,
                code_hash: code_hash@,
            }),
            RelayMessage::Matched => RelayMessageV::Matched,
            RelayMessage::Error { message } => RelayMessageV::Error { message: message@ },
            RelayMessage::Ping => RelayMessageV::Ping,
            RelayMessage::Pong => RelayMessageV::Pong,
        }
    }
}

/// Why a text failed to parse as a relay message.
#[derive(Clone, Copy, Debug, PartialEq, Eq, Structural)]
pub enum RelayCodecError {
    /// The text is not the canonical printing of any relay message.
    Malformed,
}

/// The escaping of one character inside a JSON string literal: quote and
/// backslash escaped, control characters in the four-digit form, everything
/// else verbatim.
pub open spec fn json_escape_char(c: char) -> Seq<char> {
    if c == '"' {
        seq!['\\', '"']
    } else if c == '\\' {
        seq!['\\', '\\']
    } else if (c as int) < 0x20 {
        seq!['\\', 'u', '0', '0', hex_digit((c as int) / 16), hex_digit((c as int) % 16)]
    } else {
        seq![c]
    }
}

/// The escaping of a whole string.
pub open spec fn json_escape(s: Seq<char>) -> Seq<char>
    decreases s.len(),
{
    if s.len() == 0 {
        Seq::empty()
    } else {
        json_escape_char(s[0]) + json_escape(s.drop_first())
    }
}

/// Appending one character extends the escaping by that character's escape.
pub proof fn lemma_json_escape_push(s: Seq<char>, c: char)
    ensures
        json_escape(s.push(c)) == json_escape(s) + json_escape_char(c),
    decreases s.len(),
{
    if s.len() == 0 {
        assert(s.push(c)[0] == c);
        assert(s.push(c).drop_first() =~= Seq::<char>::empty());
        assert(json_escape(Seq::<char>::empty()) =~= Seq::<char>::empty());
        assert(json_escape(s.push(c)) == json_escape_char(c) + json_escape(Seq::<char>::empty()));
        assert(json_escape(s) =~= Seq::<char>::empty());
        assert(json_escape(s.push(c)) =~= json_escape(s) + json_escape_char(c));
    } else {
        assert(s.push(c).drop_first() =~= s.drop_first().push(c));
        lemma_json_escape_push(s.drop_first(), c);
        assert(s.push(c)[0] == s[0]);
        assert(json_escape(s.push(c)) == json_escape_char(s[0]) + json_escape(
            s.drop_first().push(c),
        ));
        assert(json_escape(s.push(c)) =~= json_escape(s) + json_escape_char(c));
    }
}

/// The word a role prints as.
pub open spec fn role_text(role: Role) -> Seq<char> {
    match role {
        Role::Sender => "sender"@,
        Role::Receiver => "receiver"@,
    }
}

/// The one canonical text of a relay message.
pub open spec fn json_of(m: RelayMessageV) -> Seq<char> {
    match m {
        RelayMessageV::Register { role, code_hash } => "{\"type\":\"register\",\"role\":\""@
            + role_text(role) + "\",\"code_hash\":\""@ + json_escape(code_hash) + "\"}"@,
        RelayMessageV::Matched => "{\"type\":\"matched\"}"@,
        RelayMessageV::Error { message } => "{\"type\":\"error\",\"message\":\""@ + json_escape(
            message,
        ) + "\"}"@,
        RelayMessageV::Ping => "{\"type\":\"ping\"}"@,
        RelayMessageV::Pong => "{\"type\":\"pong\"}"@,
    }
}

/// The value a lowercase hex digit character denotes.
pub open spec fn spec_hex_val(c: char) -> Option<int> {
    if c == '0' {
        Some(0int)
    } else if c == '1' {
        Some(1int)
    } else if c == '2' {
        Some(2int)
    } else if c == '3' {
        Some(3int)
    } else if c == '4' {
        Some(4int)
    } else if c == '5' {
        Some(5int)
    } else if c == '6' {
        Some(6int)
    } else if c == '7' {
        Some(7int)
    } else if c == '8' {
        Some(8int)
    } else if c == '9' {
        Some(9int)
    } else if c == 'a' {
        Some(10int)
    } else if c == 'b' {
        Some(11int)
    } else if c == 'c' {
        Some(12int)
    } else if c == 'd' {
        Some(13int)
    } else if c == 'e' {
        Some(14int)
    } else if c == 'f' {
        Some(15int)
    } else {
        None
    }
}

/// Scans a JSON string body from `pos` up to and over its closing quote,
/// undoing exactly the canonical escaping; the specification every parse of
/// a string field is held to.
pub open spec fn scan_string(cs: Seq<char>, pos: int) -> Option<(Seq<char>, int)>
    decreases cs.len() - pos,
{
    if pos < 0 || pos >= cs.len() {
        None
    } else {
        let c = cs[pos];
        if c == '"' {
            Some((Seq::empty(), pos + 1))
        } else if c == '\\' {
            if pos + 1 >= cs.len() {
                None
            } else {
                let e = cs[pos + 1];
                if e == '"' || e == '\\' {
                    match scan_string(cs, pos + 2) {
                        Some((v, p)) => Some(
                            (
                                seq![
                                    if e == '"' {
                                        '"'
                                    } else {
                                        '\\'
                                    },
                                ] + v,
                                p,
                            ),
                        ),
                        None => None,
                    }
                } else if e == 'u' {
                    if pos + 6 > cs.len() {
                        None
                    } else if cs[pos + 2] != '0' || cs[pos + 3] != '0' {
                        None
                    } else {
                        match (spec_hex_val(cs[pos + 4]), spec_hex_val(cs[pos + 5])) {
                            (Some(h1), Some(h2)) => {
                                let code = 16 * h1 + h2;
                                if code < 0x20 {
                                    match scan_string(cs, pos + 6) {
                                        Some((v, p)) => Some((seq![(code as u32) as char] + v, p)),
                                        None => None,
                                    }
                                } else {
                                    None
                                }
                            },
                            _ => None,
                        }
                    }
                } else {
                    None
                }
            }
        } else if (c as int) < 0x20 {
            None
        } else {
            match scan_string(cs, pos + 1) {
                Some((v, p)) => Some((seq![c] + v, p)),
                None => None,
            }
        }
    }
}

/// Joins an already-unescaped prefix with the outcome of scanning the rest.
pub open spec fn join_scan(a: Seq<char>, rest: Option<(Seq<char>, int)>) -> Option<
    (Seq<char>, int),
> {
    match rest {
        Some((v, p)) => Some((a + v, p)),
        None => None,
    }
}

/// The characters of `lit` stand as a block of `cs` starting at `pos`.
pub open spec fn prefix_at(cs: Seq<char>, pos: int, lit: Seq<char>) -> bool {
    0 <= pos && pos + lit.len() <= cs.len() && cs.subrange(pos, pos + lit.len() as int) == lit
}

/// The tail of a register text after the role: a string body, the closing
/// quote, and the closing brace ending the text.
pub open spec fn finish_register(cs: Seq<char>, role: Role, p2: int) -> Option<RelayMessageV> {
    match scan_string(cs, p2) {
        Some((h, p)) => if p < cs.len() && cs[p] == '}' && p + 1 == cs.len() {
            Some(RelayMessageV::Register { role, code_hash: h })
        } else {
            None
        },
        None => None,
    }
}

/// The tail of an error text after its prefix.
pub open spec fn finish_error(cs: Seq<char>, p1: int) -> Option<RelayMessageV> {
    match scan_string(cs, p1) {
        Some((msg, p)) => if p < cs.len() && cs[p] == '}' && p + 1 == cs.len() {
            Some(RelayMessageV::Error { message: msg })
        } else {
            None
        },
        None => None,
    }
}

/// The total parse of a relay-message text: the message whose canonical
/// printing the text is, if any. `from_json` is held to this function in
/// both directions, and `lemma_relay_codec_roundtrip` shows it undoes
/// `json_of`.
pub open spec fn json_parse(cs: Seq<char>) -> Option<RelayMessageV> {
    if cs == "{\"type\":\"matched\"}"@ {
        Some(RelayMessageV::Matched)
    } else if cs == "{\"type\":\"ping\"}"@ {
        Some(RelayMessageV::Ping)
    } else if cs == "{\"type\":\"pong\"}"@ {
        Some(RelayMessageV::Pong)
    } else if prefix_at(cs, 0, "{\"type\":\"register\",\"role\":\""@) {
        let p1 = "{\"type\":\"register\",\"role\":\""@.len() as int;
        if prefix_at(cs, p1, "sender\",\"code_hash\":\""@) {
            finish_register(cs, Role::Sender, p1 + "sender\",\"code_hash\":\""@.len())
        } else if prefix_at(cs, p1, "receiver\",\"code_hash\":\""@) {
            finish_register(cs, Role::Receiver, p1 + "receiver\",\"code_hash\":\""@.len())
        } else {
            None
        }
    } else if prefix_at(cs, 0, "{\"type\":\"error\",\"message\":\""@) {
        finish_error(cs, "{\"type\":\"error\",\"message\":\""@.len() as int)
    } else {
        None
    }
}

/// A relay message's strings hold Unicode scalar values, as every real
/// string does.
pub open spec fn wf_relay_message(m: RelayMessageV) -> bool {
    match m {
        RelayMessageV::Register { code_hash, .. } => valid_chars(code_hash),
        RelayMessageV::Error { message } => valid_chars(message),
        _ => true,
    }
}

/// The lowercase hex digit character for a value below sixteen.
fn hex_digit_char(n: u8) -> (r: char)
    requires
        n < 16,
    ensures
        r == hex_digit(n as int),
{
    if n == 0 {
        '0'
    } else if n == 1 {
        '1'
    } else if n == 2 {
        '2'
    } else if n == 3 {
        '3'
    } else if n == 4 {
        '4'
    } else if n == 5 {
        '5'
    } else if n == 6 {
        '6'
    } else if n == 7 {
        '7'
    } else if n == 8 {
        '8'
    } else if n == 9 {
        '9'
    } else if n == 10 {
        'a'
    } else if n == 11 {
        'b'
    } else if n == 12 {
        'c'
    } else if n == 13 {
        'd'
    } else if n == 14 {
        'e'
    } else {
        'f'
    }
}

/// The value of a lowercase hex digit character.
fn hex_digit_val(c: char) -> (r: Option<u8>)
    ensures
        r matches Some(v) ==> (v < 16 && hex_digit(v as int) == c),
        match spec_hex_val(c) {
            Some(v) => r matches Some(u) && u as int == v,
            None => r is None,
        },
{
    if c == '0' {
        Some(0)
    } else if c == '1' {
        Some(1)
    } else if c == '2' {
        Some(2)
    } else if c == '3' {
        Some(3)
    } else if c == '4' {
        Some(4)
    } else if c == '5' {
        Some(5)
    } else if c == '6' {
        Some(6)
    } else if c == '7' {
        Some(7)
    } else if c == '8' {
        Some(8)
    } else if c == '9' {
        Some(9)
    } else if c == 'a' {
        Some(10)
    } else if c == 'b' {
        Some(11)
    } else if c == 'c' {
        Some(12)
    } else if c == 'd' {
        Some(13)
    } else if c == 'e' {
        Some(14)
    } else if c == 'f' {
        Some(15)
    } else {
        None
    }
}

/// Appends the escaping of `v` to `out`.
fn push_json_escaped(out: &mut String, v: &String)
    ensures
        final(out)@ == old(out)@ + json_escape(v@),
        valid_chars(v@),
{
    let n = v.as_str().unicode_len();
    let mut i: usize = 0;
    while i < n
        invariant
            n == v@.len(),
            i <= n,
            out@ == old(out)@ + json_escape(v@.take(i as int)),
            forall|j: int| 0 <= j < i ==> valid_char(#[trigger] v@[j]),
        decreases n - i,
    {
        let c = v.as_str().get_char(i);
        proof {
            assert(v@.take(i as int + 1) =~= v@.take(i as int).push(v@[i as int]));
            lemma_json_escape_push(v@.take(i as int), v@[i as int]);
        }
        proof {
            assert(valid_char(c));
            assert(c as int == (c as u32) as int);
        }
        if c == '"' {
            out.append("\\\"");
            proof {
                assert(json_escape_char(c) =~= "\\\""@) by {
                    reveal_strlit("\\\"");
                }
            }
        } else if c == '\\' {
            out.append("\\\\");
            proof {
                assert(json_escape_char(c) =~= "\\\\"@) by {
                    reveal_strlit("\\\\");
                }
            }
        } else if (c as u32) < 0x20 {
            out.append("\\u00");
            let code = c as u32;
            push_char(out, hex_digit_char((code / 16) as u8));
            push_char(out, hex_digit_char((code % 16) as u8));
            proof {
                reveal_strlit("\\u00");
                assert(json_escape_char(c) =~= "\\u00"@ + seq![
                    hex_digit((c as int) / 16),
                    hex_digit((c as int) % 16),
                ]);
            }
        } else {
            push_char(out, c);
            proof {
                assert(json_escape_char(c) =~= seq![c]);
            }
        }
        i += 1;
    }
    proof {
        assert(v@.take(n as int) =~= v@);
    }
}

impl RelayMessage {
    /// Prints the message's one canonical text.
    pub fn to_json(&self) -> (r: String)
        ensures
            r@ == json_of(self@),
            wf_relay_message(self@),
    {
        match self {
            RelayMessage::Register { role, code_hash } => {
                let mut out = String::from_str("{\"type\":\"register\",\"role\":\"");
                match role {
                    Role::Sender => out.append("sender"),
                    Role::Receiver => out.append("receiver"),
                }
                out.append("\",\"code_hash\":\"");
                push_json_escaped(&mut out, code_hash);
                out.append("\"}");
                out
            },
            RelayMessage::Matched => String::from_str("{\"type\":\"matched\"}"),
            RelayMessage::Error { message } => {
                let mut out = String::from_str("{\"type\":\"error\",\"message\":\"");
                push_json_escaped(&mut out, message);
                out.append("\"}");
                out
            },
            RelayMessage::Ping => String::from_str("{\"type\":\"ping\"}"),
            RelayMessage::Pong => String::from_str("{\"type\":\"pong\"}"),
        }
    }
}

/// Whether the characters of `lit` stand verbatim in `chars` at `pos`:
/// exactly when they do, the position after them comes back.
fn match_lit(chars: &Vec<char>, pos: usize, lit: &str) -> (r: Option<usize>)
    requires
        pos <= chars@.len(),
    ensures
        r matches Some(p) ==> (p == pos + lit@.len() && p <= chars@.len() && chars@.subrange(
            pos as int,
            p as int,
        ) == lit@),
        r is None ==> !prefix_at(chars@, pos as int, lit@),
{
    let n = lit.unicode_len();
    let clen = chars.len();
    let avail = clen - pos;
    if avail < n {
        return None;
    }
    let mut i: usize = 0;
    while i < n
        invariant
            n == lit@.len(),
            clen == chars@.len(),
            pos + n <= clen,
            i <= n,
            forall|j: int| 0 <= j < i ==> chars@[pos + j] == lit@[j],
        decreases n - i,
    {
        if chars[pos + i] != lit.get_char(i) {
            proof {
                if prefix_at(chars@, pos as int, lit@) {
                    assert(chars@.subrange(pos as int, pos + lit@.len() as int)[i as int]
                        == lit@[i as int]);
                }
            }
            return None;
        }
        i += 1;
    }
    proof {
        assert(chars@.subrange(pos as int, pos as int + n as int) =~= lit@);
    }
    Some(pos + n)
}

/// Reads a JSON string body starting at `pos` up to and over its closing
/// quote, undoing exactly the canonical escaping; agrees with `scan_string`
/// on every input.
fn parse_json_string(chars: &Vec<char>, pos: usize) -> (r: Option<(String, usize)>)
    requires
        pos <= chars@.len(),
        valid_chars(chars@),
    ensures
        r matches Some((v, p)) ==> (pos < p <= chars@.len() && chars@.subrange(
            pos as int,
            p as int - 1,
        ) == json_escape(v@) && chars@[p as int - 1] == '"'),
        match scan_string(chars@, pos as int) {
            Some((v, p)) => r matches Some((rv, rp)) && rv@ == v && rp as int == p,
            None => r is None,
        },
{
    let len = chars.len();
    let mut out = String::new();
    let mut i: usize = pos;
    while i < len
        invariant
            len == chars@.len(),
            valid_chars(chars@),
            pos <= i <= len,
            chars@.subrange(pos as int, i as int) == json_escape(out@),
            scan_string(chars@, pos as int) == join_scan(out@, scan_string(chars@, i as int)),
        decreases len - i,
    {
        let c = chars[i];
        if c == '"' {
            proof {
                assert(scan_string(chars@, i as int) == Some(
                    (Seq::<char>::empty(), i as int + 1),
                ));
                assert(out@ + Seq::<char>::empty() =~= out@);
            }
            return Some((out, i + 1));
        }
        let ghost prefix = out@;
        if c == '\\' {
            if i + 1 >= len {
                return None;
            }
            let e = chars[i + 1];
            if e == '"' {
                push_char(&mut out, '"');
                proof {
                    lemma_json_escape_push(prefix, '"');
                    assert(chars@.subrange(pos as int, i as int + 2) =~= json_escape(prefix)
                        + json_escape_char('"'));
                    assert(scan_string(chars@, i as int) == join_scan(
                        seq!['"'],
                        scan_string(chars@, i as int + 2),
                    ));
                    match scan_string(chars@, i as int + 2) {
                        Some((v2, p2)) => {
                            assert(prefix + (seq!['"'] + v2) =~= out@ + v2);
                        },
                        None => {},
                    }
                }
                i += 2;
            } else if e == '\\' {
                push_char(&mut out, '\\');
                proof {
                    lemma_json_escape_push(prefix, '\\');
                    assert(chars@.subrange(pos as int, i as int + 2) =~= json_escape(prefix)
                        + json_escape_char('\\'));
                    assert(scan_string(chars@, i as int) == join_scan(
                        seq!['\\'],
                        scan_string(chars@, i as int + 2),
                    ));
                    match scan_string(chars@, i as int + 2) {
                        Some((v2, p2)) => {
                            assert(prefix + (seq!['\\'] + v2) =~= out@ + v2);
                        },
                        None => {},
                    }
                }
                i += 2;
            } else if e == 'u' {
                if len - i < 6 {
                    return None;
                }
                if chars[i + 2] != '0' || chars[i + 3] != '0' {
                    return None;
                }
                let h1 = match hex_digit_val(chars[i + 4]) {
                    Some(v) => v,
                    None => {
                        return None;
                    },
                };
                let h2 = match hex_digit_val(chars[i + 5]) {
                    Some(v) => v,
                    None => {
                        return None;
                    },
                };
                let code: u8 = h1 * 16 + h2;
                if code >= 0x20 {
                    return None;
                }
                let decoded = match crate::strutil::char_from_u32(code as u32) {
                    Some(d) => d,
                    None => {
                        return None;
                    },
                };
                push_char(&mut out, decoded);
                proof {
                    lemma_json_escape_push(prefix, decoded);
                    assert((decoded as int) / 16 == h1 as int && (decoded as int) % 16
                        == h2 as int) by {
                        assert(decoded as int == 16 * (h1 as int) + h2 as int);
                    }
                    assert(json_escape_char(decoded) =~= seq![
                        '\\',
                        'u',
                        '0',
                        '0',
                        hex_digit(h1 as int),
                        hex_digit(h2 as int),
                    ]);
                    assert(chars@.subrange(pos as int, i as int + 6) =~= json_escape(prefix)
                        + json_escape_char(decoded));
                    assert(scan_string(chars@, i as int) == join_scan(
                        seq![decoded],
                        scan_string(chars@, i as int + 6),
                    ));
                    match scan_string(chars@, i as int + 6) {
                        Some((v2, p2)) => {
                            assert(prefix + (seq![decoded] + v2) =~= out@ + v2);
                        },
                        None => {},
                    }
                }
                i += 6;
            } else {
                return None;
            }
        } else if (c as u32) < 0x20 {
            proof {
                assert(valid_char(chars@[i as int]));
                assert(c as int == (c as u32) as int);
                assert(scan_string(chars@, i as int) is None);
            }
            return None;
        } else {
            push_char(&mut out, c);
            proof {
                assert(valid_char(chars@[i as int]));
                assert(c as int == (c as u32) as int);
                lemma_json_escape_push(prefix, c);
                assert(json_escape_char(c) =~= seq![c]);
                assert(chars@.subrange(pos as int, i as int + 1) =~= json_escape(prefix)
                    + json_escape_char(c));
                assert(scan_string(chars@, i as int) == join_scan(
                    seq![c],
                    scan_string(chars@, i as int + 1),
                ));
                match scan_string(chars@, i as int + 1) {
                    Some((v2, p2)) => {
                        assert(prefix + (seq![c] + v2) =~= out@ + v2);
                    },
                    None => {},
                }
            }
            i += 1;
        }
    }
    proof {
        assert(scan_string(chars@, len as int) is None);
    }
    None
}

impl RelayMessage {
    /// Parses a relay-message text, held to `json_parse` in both directions:
    /// whatever it accepts is the canonical printing of the message it
    /// returns, and every text some message prints to is accepted.
    pub fn from_json(s: &str) -> (r: Result<RelayMessage, RelayCodecError>)
        ensures
            r matches Ok(m) ==> s@ == json_of(m@),
            match json_parse(s@) {
                Some(mv) => r matches Ok(m) && m@ == mv,
                None => r is Err,
            },
    {
        let chars = str_chars(s);
        let len = chars.len();
        match match_lit(&chars, 0, "{\"type\":\"matched\"}") {
            Some(p) => {
                if p == len {
                    proof {
                        assert(chars@.subrange(0, len as int) =~= chars@);
                    }
                    return Ok(RelayMessage::Matched);
                }
                proof {
                    assert(chars@ != "{\"type\":\"matched\"}"@);
                }
            },
            None => {
                proof {
                    if chars@ == "{\"type\":\"matched\"}"@ {
                        assert(chars@.subrange(0, len as int) =~= chars@);
                    }
                }
            },
        }
        match match_lit(&chars, 0, "{\"type\":\"ping\"}") {
            Some(p) => {
                if p == len {
                    proof {
                        assert(chars@.subrange(0, len as int) =~= chars@);
                    }
                    return Ok(RelayMessage::Ping);
                }
                proof {
                    assert(chars@ != "{\"type\":\"ping\"}"@);
                }
            },
            None => {
                proof {
                    if chars@ == "{\"type\":\"ping\"}"@ {
                        assert(chars@.subrange(0, len as int) =~= chars@);
                    }
                }
            },
        }
        match match_lit(&chars, 0, "{\"type\":\"pong\"}") {
            Some(p) => {
                if p == len {
                    proof {
                        assert(chars@.subrange(0, len as int) =~= chars@);
                    }
                    return Ok(RelayMessage::Pong);
                }
                proof {
                    assert(chars@ != "{\"type\":\"pong\"}"@);
                }
            },
            None => {
                proof {
                    if chars@ == "{\"type\":\"pong\"}"@ {
                        assert(chars@.subrange(0, len as int) =~= chars@);
                    }
                }
            },
        }
        if let Some(p1) = match_lit(&chars, 0, "{\"type\":\"register\",\"role\":\"") {
            let role_parse = match match_lit(&chars, p1, "sender\",\"code_hash\":\"") {
                Some(p2) => Some((Role::Sender, p2)),
                None => match match_lit(&chars, p1, "receiver\",\"code_hash\":\"") {
                    Some(p2) => Some((Role::Receiver, p2)),
                    None => None,
                },
            };
            if let Some((role, p2)) = role_parse {
                match parse_json_string(&chars, p2) {
                    Some((code_hash, p3)) => {
                        if p3 < len && p3 + 1 == len && chars[p3] == '}' {
                            let m = RelayMessage::Register { role, code_hash };
                            proof {
                                lemma_from_json_register(
                                    chars@,
                                    m@,
                                    p1 as int,
                                    p2 as int,
                                    p3 as int,
                                );
                            }
                            return Ok(m);
                        }
                        return Err(RelayCodecError::Malformed);
                    },
                    None => {
                        return Err(RelayCodecError::Malformed);
                    },
                }
            }
            return Err(RelayCodecError::Malformed);
        }
        if let Some(p1) = match_lit(&chars, 0, "{\"type\":\"error\",\"message\":\"") {
            match parse_json_string(&chars, p1) {
                Some((message, p3)) => {
                    if p3 < len && p3 + 1 == len && chars[p3] == '}' {
                        let m = RelayMessage::Error { message };
                        proof {
                            lemma_from_json_error(chars@, m@, p1 as int, p3 as int);
                        }
                        return Ok(m);
                    }
                    return Err(RelayCodecError::Malformed);
                },
                None => {
                    return Err(RelayCodecError::Malformed);
                },
            }
        }
        Err(RelayCodecError::Malformed)
    }
}

/// Stitches the accepted spans of a register text back into its canonical
/// printing.
proof fn lemma_from_json_register(cs: Seq<char>, m: RelayMessageV, p1: int, p2: int, p3: int)
    requires
        m matches RelayMessageV::Register { role, code_hash } && ({
            &&& 0 <= p1 <= p2 <= p3 - 1
            &&& p3 + 1 == cs.len()
            &&& cs.subrange(0, p1) == "{\"type\":\"register\",\"role\":\""@
            &&& p1 == "{\"type\":\"register\",\"role\":\""@.len() as int
            &&& cs.subrange(p1, p2) == (match role {
                Role::Sender => "sender\",\"code_hash\":\""@,
                Role::Receiver => "receiver\",\"code_hash\":\""@,
            })
            &&& cs.subrange(p2, p3 - 1) == json_escape(code_hash)
            &&& cs[p3 - 1] == '"'
            &&& cs[p3] == '}'
        }),
    ensures
        cs == json_of(m),
{
    let role = m->Register_role;
    let code_hash = m->Register_code_hash;
    reveal_strlit("sender\",\"code_hash\":\"");
    reveal_strlit("receiver\",\"code_hash\":\"");
    reveal_strlit("sender");
    reveal_strlit("receiver");
    reveal_strlit("\",\"code_hash\":\"");
    reveal_strlit("\"}");
    match role {
        Role::Sender => {
            assert("sender\",\"code_hash\":\""@ =~= "sender"@ + "\",\"code_hash\":\""@);
        },
        Role::Receiver => {
            assert("receiver\",\"code_hash\":\""@ =~= "receiver"@ + "\",\"code_hash\":\""@);
        },
    }
    assert(cs.subrange(p1, p2) == role_text(role) + "\",\"code_hash\":\""@);
    let a = "{\"type\":\"register\",\"role\":\""@;
    let b = role_text(role) + "\",\"code_hash\":\""@;
    let c = json_escape(code_hash);
    let d = "\"}"@;
    assert(d.len() == 2 && d[0] == '"' && d[1] == '}');
    assert(json_of(m) == a + b + c + d);
    assert(cs.len() == a.len() + b.len() + c.len() + d.len());
    assert forall|i: int| 0 <= i < cs.len() implies cs[i] == (a + b + c + d)[i] by {
        if i < p1 {
            assert(cs[i] == cs.subrange(0, p1)[i]);
        } else if i < p2 {
            assert(cs[i] == cs.subrange(p1, p2)[i - p1]);
        } else if i < p3 - 1 {
            assert(cs[i] == cs.subrange(p2, p3 - 1)[i - p2]);
        }
    }
    assert(cs =~= a + b + c + d);
}

/// Stitches the accepted spans of an error text back into its canonical
/// printing.
proof fn lemma_from_json_error(cs: Seq<char>, m: RelayMessageV, p1: int, p3: int)
    requires
        m matches RelayMessageV::Error { message } && ({
            &&& 0 <= p1 <= p3 - 1
            &&& p3 + 1 == cs.len()
            &&& cs.subrange(0, p1) == "{\"type\":\"error\",\"message\":\""@
            &&& p1 == "{\"type\":\"error\",\"message\":\""@.len() as int
            &&& cs.subrange(p1, p3 - 1) == json_escape(message)
            &&& cs[p3 - 1] == '"'
            &&& cs[p3] == '}'
        }),
    ensures
        cs == json_of(m),
{
    let message = m->Error_message;
    reveal_strlit("\"}");
    let a = "{\"type\":\"error\",\"message\":\""@;
    let c = json_escape(message);
    let d = "\"}"@;
    assert(d.len() == 2 && d[0] == '"' && d[1] == '}');
    assert(json_of(m) == a + c + d);
    assert(cs.len() == a.len() + c.len() + d.len());
    assert forall|i: int| 0 <= i < cs.len() implies cs[i] == (a + c + d)[i] by {
        if i < p1 {
            assert(cs[i] == cs.subrange(0, p1)[i]);
        } else if i < p3 - 1 {
            assert(cs[i] == cs.subrange(p1, p3 - 1)[i - p1]);
        }
    }
    assert(cs =~= a + c + d);
}

/// The characters of `t` stand verbatim in `s` starting at `pos`.
pub open spec fn text_at(s: Seq<char>, pos: int, t: Seq<char>) -> bool {
    forall|i: int| 0 <= i < t.len() ==> s[pos + i] == #[trigger] t[i]
}

pub proof fn lemma_text_at_concat(s: Seq<char>, pos: int, a: Seq<char>, b: Seq<char>)
    requires
        text_at(s, pos, a + b),
    ensures
        text_at(s, pos, a),
        text_at(s, pos + a.len(), b),
{
    assert forall|i: int| 0 <= i < a.len() implies s[pos + i] == #[trigger] a[i] by {
        assert((a + b)[i] == a[i]);
        assert(s[pos + i] == (a + b)[i]);
    }
    assert forall|i: int| 0 <= i < b.len() implies s[pos + a.len() + i] == #[trigger] b[i] by {
        assert((a + b)[a.len() + i] == b[i]);
        assert(s[pos + (a.len() + i)] == (a + b)[a.len() + i]);
    }
}

/// Reading a digit character back gives the value it was printed from.
proof fn lemma_hex_val_of_digit()
    ensures
        forall|v: int| 0 <= v < 16 ==> #[trigger] spec_hex_val(hex_digit(v)) == Some(v),
{
    assert forall|v: int| 0 <= v < 16 implies #[trigger] spec_hex_val(hex_digit(v)) == Some(
        v,
    ) by {
        assert(spec_hex_val(hex_digit(0)) == Some(0int));
        assert(spec_hex_val(hex_digit(1)) == Some(1int));
        assert(spec_hex_val(hex_digit(2)) == Some(2int));
        assert(spec_hex_val(hex_digit(3)) == Some(3int));
        assert(spec_hex_val(hex_digit(4)) == Some(4int));
        assert(spec_hex_val(hex_digit(5)) == Some(5int));
        assert(spec_hex_val(hex_digit(6)) == Some(6int));
        assert(spec_hex_val(hex_digit(7)) == Some(7int));
        assert(spec_hex_val(hex_digit(8)) == Some(8int));
        assert(spec_hex_val(hex_digit(9)) == Some(9int));
        assert(spec_hex_val(hex_digit(10)) == Some(10int));
        assert(spec_hex_val(hex_digit(11)) == Some(11int));
        assert(spec_hex_val(hex_digit(12)) == Some(12int));
        assert(spec_hex_val(hex_digit(13)) == Some(13int));
        assert(spec_hex_val(hex_digit(14)) == Some(14int));
        assert(spec_hex_val(hex_digit(15)) == Some(15int));
    }
}

/// Scanning a span that holds the escaping of `v` followed by the closing
/// quote yields `v` back: the scanner undoes the canonical escaping.
proof fn lemma_scan_escaped(cs: Seq<char>, pos: int, v: Seq<char>)
    requires
        0 <= pos,
        valid_chars(v),
        pos + json_escape(v).len() + 1 <= cs.len(),
        text_at(cs, pos, json_escape(v)),
        cs[pos + json_escape(v).len()] == '"',
    ensures
        scan_string(cs, pos) == Some((v, pos + json_escape(v).len() + 1)),
    decreases v.len(),
{
    if v.len() == 0 {
        assert(json_escape(v) =~= Seq::<char>::empty());
        assert(cs[pos] == '"');
        assert(v =~= Seq::<char>::empty());
    } else {
        let c = v[0];
        let tail = v.drop_first();
        assert(valid_char(c));
        assert(valid_chars(tail)) by {
            assert(forall|i: int|
                0 <= i < tail.len() ==> #[trigger] tail[i] == v[i + 1]);
        }
        assert(json_escape(v) == json_escape_char(c) + json_escape(tail));
        lemma_text_at_concat(cs, pos, json_escape_char(c), json_escape(tail));
        let ec = json_escape_char(c);
        let k = ec.len();
        assert(cs[pos + k + json_escape(tail).len()] == '"');
        if c == '"' {
            assert(cs[pos + 0] == ec[0] && cs[pos + 1] == ec[1]);
            lemma_scan_escaped(cs, pos + 2, tail);
            assert(seq![c] + tail =~= v);
        } else if c == '\\' {
            assert(cs[pos + 0] == ec[0] && cs[pos + 1] == ec[1]);
            lemma_scan_escaped(cs, pos + 2, tail);
            assert(seq![c] + tail =~= v);
        } else if (c as int) < 0x20 {
            assert(cs[pos + 0] == ec[0] && cs[pos + 1] == ec[1] && cs[pos + 2] == ec[2] && cs[pos
                + 3] == ec[3] && cs[pos + 4] == ec[4] && cs[pos + 5] == ec[5]);
            let hi = (c as int) / 16;
            let lo = (c as int) % 16;
            vstd::arithmetic::div_mod::lemma_fundamental_div_mod(c as int, 16);
            lemma_hex_val_of_digit();
            assert(spec_hex_val(cs[pos + 4]) == Some(hi));
            assert(spec_hex_val(cs[pos + 5]) == Some(lo));
            assert(16 * hi + lo == c as int);
            assert(((16 * hi + lo) as u32) as char == c);
            lemma_scan_escaped(cs, pos + 6, tail);
            assert(seq![c] + tail =~= v);
        } else {
            assert(cs[pos + 0] == ec[0]);
            assert(cs[pos] == c);
            lemma_scan_escaped(cs, pos + 1, tail);
            assert(seq![c] + tail =~= v);
        }
    }
}

/// Parsing the canonical printing of a message yields the message back: the
/// relay codec round-trips.
pub proof fn lemma_relay_codec_roundtrip(m: RelayMessageV)
    requires
        wf_relay_message(m),
    ensures
        json_parse(json_of(m)) == Some(m),
{
    let cs = json_of(m);
    match m {
        RelayMessageV::Matched => {
        },
        RelayMessageV::Ping => {
            reveal_strlit("{\"type\":\"matched\"}");
            reveal_strlit("{\"type\":\"ping\"}");
            assert("{\"type\":\"matched\"}"@.len() == 18);
            assert("{\"type\":\"ping\"}"@.len() == 15);
            assert(cs != "{\"type\":\"matched\"}"@);
        },
        RelayMessageV::Pong => {
            reveal_strlit("{\"type\":\"matched\"}");
            reveal_strlit("{\"type\":\"ping\"}");
            reveal_strlit("{\"type\":\"pong\"}");
            assert("{\"type\":\"matched\"}"@.len() == 18);
            assert(cs != "{\"type\":\"matched\"}"@);
            assert(cs != "{\"type\":\"ping\"}"@) by {
                assert("{\"type\":\"ping\"}"@[10] == 'i' && "{\"type\":\"pong\"}"@[10]
                    == 'o');
            }
        },
        RelayMessageV::Register { role, code_hash } => {
            lemma_roundtrip_register(role, code_hash);
        },
        RelayMessageV::Error { message } => {
            lemma_roundtrip_error(message);
        },
    }
}

#[verifier::rlimit(100)]
proof fn lemma_roundtrip_register(role: Role, code_hash: Seq<char>)
    requires
        valid_chars(code_hash),
    ensures
        json_parse(json_of((RelayMessageV::Register { role, code_hash }))) == Some(
            (RelayMessageV::Register { role, code_hash }),
        ),
{
    let m = RelayMessageV::Register { role, code_hash };
    let cs = json_of(m);
    reveal_strlit("{\"type\":\"matched\"}");
    reveal_strlit("{\"type\":\"ping\"}");
    reveal_strlit("{\"type\":\"pong\"}");
    reveal_strlit("{\"type\":\"register\",\"role\":\"");
    reveal_strlit("sender\",\"code_hash\":\"");
    reveal_strlit("receiver\",\"code_hash\":\"");
    reveal_strlit("sender");
    reveal_strlit("receiver");
    reveal_strlit("\",\"code_hash\":\"");
    reveal_strlit("\"}");
    {
            let a = "{\"type\":\"register\",\"role\":\""@;
            let b = "\",\"code_hash\":\""@;
            let e = json_escape(code_hash);
            let d = "\"}"@;
            let mid = match role {
                Role::Sender => "sender\",\"code_hash\":\""@,
                Role::Receiver => "receiver\",\"code_hash\":\""@,
            };
            assert(mid =~= role_text(role) + b);
            assert(cs == a + role_text(role) + b + e + d);
            assert(cs =~= (a + mid) + (e + d)) by {
                assert(a + role_text(role) + b + e + d =~= (a + (role_text(role) + b)) + (e
                    + d));
                assert(a + (role_text(role) + b) =~= a + mid);
            }
            let p2 = a.len() + mid.len();
            assert(d.len() == 2);
            assert(cs.len() == p2 + e.len() + 2);
            assert(a.len() == 27);
            assert(mid.len() >= 21);
            assert(cs.len() >= 50);
            assert("{\"type\":\"matched\"}"@.len() == 18);
            assert("{\"type\":\"ping\"}"@.len() == 15);
            assert("{\"type\":\"pong\"}"@.len() == 15);
            assert(cs != "{\"type\":\"matched\"}"@);
            assert(cs != "{\"type\":\"ping\"}"@);
            assert(cs != "{\"type\":\"pong\"}"@);
            assert(prefix_at(cs, 0, a)) by {
                assert(cs.subrange(0, a.len() as int) =~= a);
            }
            assert(prefix_at(cs, a.len() as int, mid)) by {
                assert(cs.subrange(a.len() as int, p2 as int) =~= mid);
            }
            if role is Receiver {
                let sl = "sender\",\"code_hash\":\""@;
                assert(!prefix_at(cs, a.len() as int, sl)) by {
                    if prefix_at(cs, a.len() as int, sl) {
                        assert(cs.subrange(a.len() as int, a.len() + sl.len() as int)[0]
                            == sl[0]);
                        assert(cs[a.len() as int] == mid[0]);
                    }
                }
            }
            assert(text_at(cs, 0, cs));
            lemma_text_at_concat(cs, 0, a + mid, e + d);
            lemma_text_at_concat(cs, p2 as int, e, d);
            assert(cs[p2 as int + e.len() as int] == '"');
            lemma_scan_escaped(cs, p2 as int, code_hash);
            assert(cs[p2 as int + e.len() as int + 1] == '}');
    }
}

#[verifier::rlimit(100)]
proof fn lemma_roundtrip_error(message: Seq<char>)
    requires
        valid_chars(message),
    ensures
        json_parse(json_of((RelayMessageV::Error { message }))) == Some(
            (RelayMessageV::Error { message }),
        ),
{
    let m = RelayMessageV::Error { message };
    let cs = json_of(m);
    reveal_strlit("{\"type\":\"matched\"}");
    reveal_strlit("{\"type\":\"ping\"}");
    reveal_strlit("{\"type\":\"pong\"}");
    reveal_strlit("{\"type\":\"register\",\"role\":\"");
    reveal_strlit("{\"type\":\"error\",\"message\":\"");
    reveal_strlit("\"}");
    {
            let a = "{\"type\":\"error\",\"message\":\""@;
            let e = json_escape(message);
            let d = "\"}"@;
            assert(cs == a + e + d);
            assert(cs =~= a + (e + d));
            assert(d.len() == 2);
            assert(cs.len() == a.len() + e.len() + 2);
            assert(a.len() == 27);
            assert(cs.len() >= 29);
            assert("{\"type\":\"matched\"}"@.len() == 18);
            assert("{\"type\":\"ping\"}"@.len() == 15);
            assert("{\"type\":\"pong\"}"@.len() == 15);
            assert(cs != "{\"type\":\"matched\"}"@);
            assert(cs != "{\"type\":\"ping\"}"@);
            assert(cs != "{\"type\":\"pong\"}"@);
            let reg = "{\"type\":\"register\",\"role\":\""@;
            assert(!prefix_at(cs, 0, reg)) by {
                if prefix_at(cs, 0, reg) {
                    assert(cs.subrange(0, reg.len() as int)[9] == reg[9]);
                    assert(cs[9] == a[9]);
                }
            }
            assert(prefix_at(cs, 0, a)) by {
                assert(cs.subrange(0, a.len() as int) =~= a);
            }
            assert(text_at(cs, 0, cs));
            lemma_text_at_concat(cs, 0, a, e + d);
            lemma_text_at_concat(cs, a.len() as int, e, d);
            assert(cs[a.len() as int + e.len() as int] == '"');
            lemma_scan_escaped(cs, a.len() as int, message);
            assert(cs[a.len() as int + e.len() as int + 1] == '}');
    }
}

/// A text the parse refuses is the canonical printing of no message: with
/// the round trip above, refusal and unparseability coincide.
pub proof fn lemma_refusal_prints_nothing(cs: Seq<char>, m: RelayMessageV)
    requires
        wf_relay_message(m),
        json_parse(cs) is None,
    ensures
        cs != json_of(m),
{
    if cs == json_of(m) {
        lemma_relay_codec_roundtrip(m);
    }
}

/// The fixed-length hex digest of a transfer code, computed identically by
/// both peers before registration, so the relay can match them without
/// learning the code.
pub fn hash_code(code: &str) -> (r: String)
    ensures
        r@ == hex_of(blake3_of(code.spec_bytes())),
        r@.len() == 64,
{
    let digest = blake3_digest(code.as_bytes());
    let r = hex_encode(digest.as_slice());
    proof {
        lemma_hex_of_len(blake3_of(code.spec_bytes()));
    }
    r
}

} // verus!
