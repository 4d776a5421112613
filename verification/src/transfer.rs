//! The transfer state machine: handshake, metadata exchange, one-shot ack
//! gate, strictly ordered chunk transfer, resume, and completion, with every
//! failure terminal to the session.

use crate::protocol::{Message, MessageV, PROTOCOL_VERSION};
use vstd::prelude::*;
use vstd::string::StringExecFns;

verus! {

/// Metadata announced by the sender before the transfer.
pub struct FileMetadata {
    pub name: String,
    pub size: u64,
    pub is_directory: bool,
    pub checksum: String,
}

/// Why a transfer ended. Every kind is terminal to the current session; the
/// only sanctioned recovery is a fresh connection carrying `Resume`.
#[derive(Debug)]
pub enum TransferError {
    /// The two sides speak incompatible wire formats; not retriable.
    ProtocolVersionMismatch { ours: u8, theirs: u8 },
    /// The key exchange payload was malformed.
    KeyExchangeFailed,
    /// A sealed frame failed to open: tampering and a code mismatch are
    /// indistinguishable by design.
    AuthFailure,
    /// A frame announced a payload above the transport bound.
    FrameTooLarge,
    /// Bytes written disagree with the announced size.
    TransferIncomplete { expected: u64, written: u64 },
    /// The relay failed this session.
    RelayError { message: String },
    /// A file or socket operation failed.
    IOError { message: String },
    /// The peer reported a fatal error.
    PeerError { message: String },
    /// A message arrived that the current state does not admit.
    UnexpectedMessage,
}

/// How many chunks a stream of `size` bytes yields at chunk size `csize`.
pub open spec fn num_chunks(size: nat, csize: nat) -> nat
    recommends
        csize > 0,
{
    if size == 0 {
        0
    } else {
        (((size - 1) / (csize as int)) + 1) as nat
    }
}

/// The exact length of chunk `i`: full, except a shorter final chunk.
pub open spec fn chunk_len_spec(size: nat, csize: nat, i: nat) -> int
    recommends
        csize > 0,
        i < num_chunks(size, csize),
{
    if (i + 1) * csize <= size {
        csize as int
    } else {
        size - i * csize
    }
}

/// Which step of the exchange a sender session has reached.
#[derive(Clone, Copy, Debug, PartialEq, Eq, Structural)]
pub enum SenderPhase {
    Init,
    HandshakeSent,
    HandshakeConfirmed,
    KeyExchangeSent,
    KeyExchanged,
    MetadataSent,
    Transferring,
    Completed,
    Failed,
}

/// The sender's session: what it announced and how far the chunk stream has
/// advanced.
pub struct SenderSession {
    pub phase: SenderPhase,
    pub meta: FileMetadata,
    pub chunk_size: u64,
    pub next_index: u64,
    pub total_chunks: u64,
}

impl SenderSession {
    /// The session's counters stay consistent with the announced size.
    pub open spec fn wf(self) -> bool {
        &&& self.chunk_size > 0
        &&& self.total_chunks == num_chunks(self.meta.size as nat, self.chunk_size as nat)
        &&& self.next_index <= self.total_chunks
    }

    /// A fresh sender session for one file.
    pub fn new(meta: FileMetadata, chunk_size: u64) -> (s: SenderSession)
        requires
            chunk_size > 0,
        ensures
            s.wf(),
            s.phase == SenderPhase::Init,
            s.meta == meta,
            s.chunk_size == chunk_size,
            s.next_index == 0,
    {
        let total_chunks = if meta.size == 0 {
            0u64
        } else {
            (meta.size - 1) / chunk_size + 1
        };
        SenderSession { phase: SenderPhase::Init, meta, chunk_size, next_index: 0, total_chunks }
    }

    /// Opens the handshake with the unsealed `Hello` carrying the version.
    pub fn start(&mut self) -> (m: Message)
        requires
            old(self).phase == SenderPhase::Init,
        ensures
            final(self).phase == SenderPhase::HandshakeSent,
            final(self).meta == old(self).meta,
            final(self).chunk_size == old(self).chunk_size,
            final(self).next_index == old(self).next_index,
            final(self).total_chunks == old(self).total_chunks,
            m@ == (MessageV::Hello { version: PROTOCOL_VERSION }),
    {
        self.phase = SenderPhase::HandshakeSent;
        Message::Hello { version: PROTOCOL_VERSION }
    }

    /// Consumes the peer's `Hello`: a version mismatch is fatal and not
    /// retriable, and no data moves after it.
    pub fn on_hello_message(&mut self, m: Message) -> (r: Result<(), TransferError>)
        requires
            old(self).phase == SenderPhase::HandshakeSent,
        ensures
            final(self).meta == old(self).meta,
            final(self).chunk_size == old(self).chunk_size,
            final(self).next_index == old(self).next_index,
            final(self).total_chunks == old(self).total_chunks,
            m@ == (MessageV::Hello { version: PROTOCOL_VERSION }) <==> r is Ok,
            r is Ok ==> final(self).phase == SenderPhase::HandshakeConfirmed,
            r is Err ==> final(self).phase == SenderPhase::Failed,
            m@ matches MessageV::Hello { version } ==> (version != PROTOCOL_VERSION ==> r == Err::<
                (),
                TransferError,
            >(
                (TransferError::ProtocolVersionMismatch {
                    ours: PROTOCOL_VERSION,
                    theirs: version,
                }),
            )),
            !(m@ is Hello) ==> r == Err::<(), TransferError>(TransferError::UnexpectedMessage),
    {
        match m {
            Message::Hello { version } => {
                if version == PROTOCOL_VERSION {
                    self.phase = SenderPhase::HandshakeConfirmed;
                    Ok(())
                } else {
                    self.phase = SenderPhase::Failed;
                    Err(
                        TransferError::ProtocolVersionMismatch {
                            ours: PROTOCOL_VERSION,
                            theirs: version,
                        },
                    )
                }
            },
            _ => {
                self.phase = SenderPhase::Failed;
                Err(TransferError::UnexpectedMessage)
            },
        }
    }

    /// Emits this side's key-exchange payload. The exchange runs exactly
    /// once, bound to the confirmed handshake; like `Hello` it necessarily
    /// travels unsealed, since it is what establishes the channel key.
    pub fn key_exchange_message(&mut self, payload: Vec<u8>) -> (m: Message)
        requires
            old(self).phase == SenderPhase::HandshakeConfirmed,
        ensures
            final(self).phase == SenderPhase::KeyExchangeSent,
            final(self).meta == old(self).meta,
            final(self).chunk_size == old(self).chunk_size,
            final(self).next_index == old(self).next_index,
            final(self).total_chunks == old(self).total_chunks,
            m@ == (MessageV::KeyExchange { data: payload@ }),
    {
        self.phase = SenderPhase::KeyExchangeSent;
        Message::KeyExchange { data: payload }
    }

    /// Consumes the peer's key-exchange payload, handing its bytes back so
    /// the exchange can be completed and the channel key derived; anything
    /// else at this point fails the exchange.
    pub fn on_key_exchange_message(&mut self, m: Message) -> (r: Result<Vec<u8>, TransferError>)
        requires
            old(self).phase == SenderPhase::KeyExchangeSent,
        ensures
            final(self).meta == old(self).meta,
            final(self).chunk_size == old(self).chunk_size,
            final(self).next_index == old(self).next_index,
            final(self).total_chunks == old(self).total_chunks,
            m@ matches MessageV::KeyExchange { data } ==> (r matches Ok(d) && d@ == data && final(self).phase == SenderPhase::KeyExchanged),
            !(m@ is KeyExchange) ==> (r == Err::<Vec<u8>, TransferError>(
                TransferError::KeyExchangeFailed,
            ) && final(self).phase == SenderPhase::Failed),
    {
        match m {
            Message::KeyExchange { data } => {
                self.phase = SenderPhase::KeyExchanged;
                Ok(data)
            },
            _ => {
                self.phase = SenderPhase::Failed;
                Err(TransferError::KeyExchangeFailed)
            },
        }
    }

    /// Announces the file: name, size, directory flag and checksum.
    pub fn metadata_message(&mut self) -> (m: Message)
        requires
            old(self).phase == SenderPhase::KeyExchanged,
        ensures
            final(self).phase == SenderPhase::MetadataSent,
            final(self).meta == old(self).meta,
            final(self).chunk_size == old(self).chunk_size,
            final(self).next_index == old(self).next_index,
            final(self).total_chunks == old(self).total_chunks,
            m@ == (MessageV::Metadata {
                filename: old(self).meta.name@,
                size: old(self).meta.size,
                is_directory: old(self).meta.is_directory,
                checksum: old(self).meta.checksum@,
            }),
    {
        self.phase = SenderPhase::MetadataSent;
        Message::Metadata {
            filename: self.meta.name.clone(),
            size: self.meta.size,
            is_directory: self.meta.is_directory,
            checksum: self.meta.checksum.clone(),
        }
    }

    /// Waits out the one-shot gate: an `Ack` starts the stream at chunk zero;
    /// a `Resume` starts it at the first chunk the receiver still lacks;
    /// anything else is fatal. No chunk is ever sent before this returns.
    pub fn on_ack_message(&mut self, m: Message) -> (r: Result<(), TransferError>)
        requires
            old(self).phase == SenderPhase::MetadataSent,
            old(self).wf(),
        ensures
            final(self).wf(),
            final(self).meta == old(self).meta,
            final(self).chunk_size == old(self).chunk_size,
            final(self).total_chunks == old(self).total_chunks,
            m@ is Ack ==> (r is Ok && final(self).phase == SenderPhase::Transferring && final(self).next_index == 0),
            m@ matches MessageV::Resume { from_chunk } ==> ((from_chunk <= old(self).total_chunks
                ==> (r is Ok && final(self).phase == SenderPhase::Transferring && final(self).next_index
                == from_chunk)) && (from_chunk > old(self).total_chunks ==> (r == Err::<
                (),
                TransferError,
            >(TransferError::UnexpectedMessage) && final(self).phase == SenderPhase::Failed))),
            m@ matches MessageV::Error { message } ==> (r matches Err(e) && e matches
                TransferError::PeerError { message: pm } && pm@ == message && final(self).phase
                == SenderPhase::Failed),
            !(m@ is Ack) && !(m@ is Resume) && !(m@ is Error) ==> (r == Err::<
                (),
                TransferError,
            >(TransferError::UnexpectedMessage) && final(self).phase == SenderPhase::Failed),
    {
        match m {
            Message::Ack => {
                self.phase = SenderPhase::Transferring;
                self.next_index = 0;
                Ok(())
            },
            Message::Resume { from_chunk } => {
                if from_chunk <= self.total_chunks {
                    self.phase = SenderPhase::Transferring;
                    self.next_index = from_chunk;
                    Ok(())
                } else {
                    self.phase = SenderPhase::Failed;
                    Err(TransferError::UnexpectedMessage)
                }
            },
            Message::Error { message } => {
                self.phase = SenderPhase::Failed;
                Err(TransferError::PeerError { message })
            },
            _ => {
                self.phase = SenderPhase::Failed;
                Err(TransferError::UnexpectedMessage)
            },
        }
    }

    /// The byte offset the next chunk starts at; what a resumed sender seeks
    /// to before reading again.
    pub fn resume_offset(&self) -> (r: u64)
        requires
            self.wf(),
            self.next_index < self.total_chunks,
        ensures
            r == self.next_index * self.chunk_size,
            r < self.meta.size,
    {
        proof {
            let i = self.next_index as int;
            let csize = self.chunk_size as int;
            let size = self.meta.size as int;
            let q = (size - 1) / csize;
            assert(i <= q);
            assert(i * csize <= q * csize) by (nonlinear_arith)
                requires
                    i <= q,
                    csize > 0,
                    i >= 0,
            ;
            vstd::arithmetic::div_mod::lemma_fundamental_div_mod(size - 1, csize);
            assert(q * csize <= size - 1) by (nonlinear_arith)
                requires
                    size - 1 == csize * q + (size - 1) % csize,
                    (size - 1) % csize >= 0,
            ;
        }
        self.next_index * self.chunk_size
    }

    /// Wraps the next chunk: indices go out strictly increasing and gap-free,
    /// one in flight at a time.
    pub fn chunk_message(&mut self, data: Vec<u8>) -> (m: Message)
        requires
            old(self).phase == SenderPhase::Transferring,
            old(self).wf(),
            old(self).next_index < old(self).total_chunks,
            data@.len() == chunk_len_spec(
                old(self).meta.size as nat,
                old(self).chunk_size as nat,
                old(self).next_index as nat,
            ),
        ensures
            final(self).wf(),
            final(self).phase == SenderPhase::Transferring,
            final(self).meta == old(self).meta,
            final(self).chunk_size == old(self).chunk_size,
            final(self).total_chunks == old(self).total_chunks,
            final(self).next_index == old(self).next_index + 1,
            m@ == (MessageV::Chunk { index: old(self).next_index, data: data@ }),
    {
        let index = self.next_index;
        self.next_index = self.next_index + 1;
        Message::Chunk { index, data }
    }

    /// Ends the stream: `Complete` goes out only after every chunk implied by
    /// the announced size has been sent.
    pub fn complete_message(&mut self) -> (m: Message)
        requires
            old(self).phase == SenderPhase::Transferring,
            old(self).wf(),
            old(self).next_index == old(self).total_chunks,
        ensures
            final(self).phase == SenderPhase::Completed,
            m@ == MessageV::Complete,
    {
        self.phase = SenderPhase::Completed;
        Message::Complete
    }
}

/// Which step of the exchange a receiver session has reached.
#[derive(Clone, Copy, Debug, PartialEq, Eq, Structural)]
pub enum ReceiverPhase {
    Init,
    HandshakeSent,
    HandshakeConfirmed,
    KeyExchangeSent,
    KeyExchanged,
    MetadataReceived,
    Transferring,
    Completed,
    Failed,
}

/// What the caller must do with an accepted transfer message.
#[derive(Debug)]
pub enum ReceiverAction {
    /// Append these bytes to the sink.
    Write(Vec<u8>),
    /// Authoritative end of stream: finalize the sink.
    Finished,
}

/// The receiver's session: the announced size against what has been written.
pub struct ReceiverSession {
    pub phase: ReceiverPhase,
    pub filename: String,
    pub size: u64,
    pub bytes_written: u64,
    pub next_index: u64,
}

impl ReceiverSession {
    /// What has been written never exceeds what was announced.
    pub open spec fn wf(self) -> bool {
        self.bytes_written <= self.size
    }

    /// A fresh receiver session.
    pub fn new() -> (s: ReceiverSession)
        ensures
            s.wf(),
            s.phase == ReceiverPhase::Init,
            s.size == 0,
            s.bytes_written == 0,
            s.next_index == 0,
    {
        ReceiverSession {
            phase: ReceiverPhase::Init,
            filename: String::new(),
            size: 0,
            bytes_written: 0,
            next_index: 0,
        }
    }

    /// Opens the handshake with the unsealed `Hello` carrying the version.
    pub fn start(&mut self) -> (m: Message)
        requires
            old(self).phase == ReceiverPhase::Init,
        ensures
            final(self).phase == ReceiverPhase::HandshakeSent,
            final(self).size == old(self).size,
            final(self).bytes_written == old(self).bytes_written,
            final(self).next_index == old(self).next_index,
            m@ == (MessageV::Hello { version: PROTOCOL_VERSION }),
    {
        self.phase = ReceiverPhase::HandshakeSent;
        Message::Hello { version: PROTOCOL_VERSION }
    }

    /// Consumes the peer's `Hello`: a version mismatch is fatal before any
    /// data moves.
    pub fn on_hello_message(&mut self, m: Message) -> (r: Result<(), TransferError>)
        requires
            old(self).phase == ReceiverPhase::HandshakeSent,
        ensures
            final(self).size == old(self).size,
            final(self).bytes_written == old(self).bytes_written,
            final(self).next_index == old(self).next_index,
            m@ == (MessageV::Hello { version: PROTOCOL_VERSION }) <==> r is Ok,
            r is Ok ==> final(self).phase == ReceiverPhase::HandshakeConfirmed,
            r is Err ==> final(self).phase == ReceiverPhase::Failed,
            m@ matches MessageV::Hello { version } ==> (version != PROTOCOL_VERSION ==> r == Err::<
                (),
                TransferError,
            >(
                (TransferError::ProtocolVersionMismatch {
                    ours: PROTOCOL_VERSION,
                    theirs: version,
                }),
            )),
            !(m@ is Hello) ==> r == Err::<(), TransferError>(TransferError::UnexpectedMessage),
    {
        match m {
            Message::Hello { version } => {
                if version == PROTOCOL_VERSION {
                    self.phase = ReceiverPhase::HandshakeConfirmed;
                    Ok(())
                } else {
                    self.phase = ReceiverPhase::Failed;
                    Err(
                        TransferError::ProtocolVersionMismatch {
                            ours: PROTOCOL_VERSION,
                            theirs: version,
                        },
                    )
                }
            },
            _ => {
                self.phase = ReceiverPhase::Failed;
                Err(TransferError::UnexpectedMessage)
            },
        }
    }

    /// Emits this side's key-exchange payload. The exchange runs exactly
    /// once, bound to the confirmed handshake; like `Hello` it necessarily
    /// travels unsealed, since it is what establishes the channel key.
    pub fn key_exchange_message(&mut self, payload: Vec<u8>) -> (m: Message)
        requires
            old(self).phase == ReceiverPhase::HandshakeConfirmed,
        ensures
            final(self).phase == ReceiverPhase::KeyExchangeSent,
            final(self).size == old(self).size,
            final(self).bytes_written == old(self).bytes_written,
            final(self).next_index == old(self).next_index,
            m@ == (MessageV::KeyExchange { data: payload@ }),
    {
        self.phase = ReceiverPhase::KeyExchangeSent;
        Message::KeyExchange { data: payload }
    }

    /// Consumes the peer's key-exchange payload, handing its bytes back so
    /// the exchange can be completed and the channel key derived; anything
    /// else at this point fails the exchange.
    pub fn on_key_exchange_message(&mut self, m: Message) -> (r: Result<Vec<u8>, TransferError>)
        requires
            old(self).phase == ReceiverPhase::KeyExchangeSent,
        ensures
            final(self).size == old(self).size,
            final(self).bytes_written == old(self).bytes_written,
            final(self).next_index == old(self).next_index,
            m@ matches MessageV::KeyExchange { data } ==> (r matches Ok(d) && d@ == data && final(self).phase == ReceiverPhase::KeyExchanged),
            !(m@ is KeyExchange) ==> (r == Err::<Vec<u8>, TransferError>(
                TransferError::KeyExchangeFailed,
            ) && final(self).phase == ReceiverPhase::Failed),
    {
        match m {
            Message::KeyExchange { data } => {
                self.phase = ReceiverPhase::KeyExchanged;
                Ok(data)
            },
            _ => {
                self.phase = ReceiverPhase::Failed;
                Err(TransferError::KeyExchangeFailed)
            },
        }
    }

    /// Takes the sender's metadata: the announced size becomes the measure
    /// every later accounting check is held against.
    pub fn on_metadata_message(&mut self, m: Message) -> (r: Result<(), TransferError>)
        requires
            old(self).phase == ReceiverPhase::KeyExchanged,
        ensures
            final(self).wf(),
            final(self).bytes_written == 0,
            m@ matches MessageV::Metadata { filename, size, .. } ==> (r is Ok && final(self).phase
                == ReceiverPhase::MetadataReceived && final(self).size == size && final(self).filename@ == filename),
            !(m@ is Metadata) ==> (r == Err::<(), TransferError>(TransferError::UnexpectedMessage)
                && final(self).phase == ReceiverPhase::Failed),
    {
        match m {
            Message::Metadata { filename, size, is_directory: _, checksum: _ } => {
                self.filename = filename;
                self.size = size;
                self.bytes_written = 0;
                self.next_index = 0;
                self.phase = ReceiverPhase::MetadataReceived;
                Ok(())
            },
            _ => {
                self.bytes_written = 0;
                self.phase = ReceiverPhase::Failed;
                Err(TransferError::UnexpectedMessage)
            },
        }
    }

    /// Releases the one-shot gate: exactly one `Ack`, after which chunks may
    /// flow, starting at index zero.
    pub fn ack_message(&mut self) -> (m: Message)
        requires
            old(self).phase == ReceiverPhase::MetadataReceived,
            old(self).wf(),
        ensures
            final(self).wf(),
            final(self).phase == ReceiverPhase::Transferring,
            final(self).size == old(self).size,
            final(self).bytes_written == 0,
            final(self).next_index == 0,
            m@ == MessageV::Ack,
    {
        self.bytes_written = 0;
        self.next_index = 0;
        self.phase = ReceiverPhase::Transferring;
        Message::Ack
    }

    /// Asks the sender to resume at the first chunk not yet durably written;
    /// every earlier chunk was full, so the bytes on disk are exactly
    /// `from_chunk * chunk_size`.
    pub fn resume_message(&mut self, from_chunk: u64, chunk_size: u64) -> (m: Message)
        requires
            old(self).phase == ReceiverPhase::MetadataReceived,
            chunk_size > 0,
            from_chunk * chunk_size <= old(self).size,
        ensures
            final(self).wf(),
            final(self).phase == ReceiverPhase::Transferring,
            final(self).size == old(self).size,
            final(self).bytes_written == from_chunk * chunk_size,
            final(self).next_index == from_chunk,
            m@ == (MessageV::Resume { from_chunk }),
    {
        proof {
            assert(from_chunk * chunk_size >= 0) by (nonlinear_arith);
        }
        self.bytes_written = from_chunk * chunk_size;
        self.next_index = from_chunk;
        self.phase = ReceiverPhase::Transferring;
        Message::Resume { from_chunk }
    }

    /// Consumes one sealed transfer message: a chunk in order is written and
    /// counted; `Complete` is authoritative end-of-stream and the written
    /// bytes must then equal the announced size, else the transfer is
    /// incomplete — never silently accepted; a peer error aborts with its
    /// reason; anything else is a protocol violation.
    pub fn on_transfer_message(&mut self, m: Message) -> (r: Result<
        ReceiverAction,
        TransferError,
    >)
        requires
            old(self).phase == ReceiverPhase::Transferring,
            old(self).wf(),
        ensures
            final(self).wf(),
            final(self).size == old(self).size,
            m@ matches MessageV::Chunk { index, data } ==> ((index == old(self).next_index
                && old(self).next_index < u64::MAX && data.len() <= old(self).size - old(self).bytes_written ==> (r matches Ok(a)
                && a matches ReceiverAction::Write(w) && w@ == data && final(self).phase
                == ReceiverPhase::Transferring && final(self).bytes_written == old(self).bytes_written + data.len() && final(self).next_index == old(self).next_index + 1)) && (
            index != old(self).next_index ==> (r == Err::<ReceiverAction, TransferError>(
                TransferError::UnexpectedMessage,
            ) && final(self).phase == ReceiverPhase::Failed)) && (index == old(self).next_index
                && old(self).next_index == u64::MAX ==> (r == Err::<ReceiverAction, TransferError>(
                TransferError::UnexpectedMessage,
            ) && final(self).phase == ReceiverPhase::Failed)) && (index == old(self).next_index
                && old(self).next_index < u64::MAX && data.len() > old(self).size - old(self).bytes_written ==> (r == Err::<
                ReceiverAction,
                TransferError,
            >(
                (TransferError::TransferIncomplete {
                    expected: old(self).size,
                    written: old(self).bytes_written,
                }),
            ) && final(self).phase == ReceiverPhase::Failed))),
            m@ is Complete && old(self).bytes_written == old(self).size ==> (r matches Ok(a) && a
                is Finished && final(self).phase == ReceiverPhase::Completed),
            m@ is Complete && old(self).bytes_written != old(self).size ==> (r == Err::<
                ReceiverAction,
                TransferError,
            >(
                (TransferError::TransferIncomplete {
                    expected: old(self).size,
                    written: old(self).bytes_written,
                }),
            ) && final(self).phase == ReceiverPhase::Failed),
            m@ matches MessageV::Error { message } ==> (r matches Err(e) && e matches
                TransferError::PeerError { message: pm } && pm@ == message && final(self).phase
                == ReceiverPhase::Failed),
            !(m@ is Chunk) && !(m@ is Complete) && !(m@ is Error) ==> (r == Err::<
                ReceiverAction,
                TransferError,
            >(TransferError::UnexpectedMessage) && final(self).phase == ReceiverPhase::Failed),
    {
        match m {
            Message::Chunk { index, data } => {
                if index != self.next_index || self.next_index == u64::MAX {
                    self.phase = ReceiverPhase::Failed;
                    return Err(TransferError::UnexpectedMessage);
                }
                let len = data.len() as u64;
                if len > self.size - self.bytes_written {
                    self.phase = ReceiverPhase::Failed;
                    return Err(
                        TransferError::TransferIncomplete {
                            expected: self.size,
                            written: self.bytes_written,
                        },
                    );
                }
                self.bytes_written = self.bytes_written + len;
                self.next_index = self.next_index + 1;
                Ok(ReceiverAction::Write(data))
            },
            Message::Complete => {
                if self.bytes_written == self.size {
                    self.phase = ReceiverPhase::Completed;
                    Ok(ReceiverAction::Finished)
                } else {
                    self.phase = ReceiverPhase::Failed;
                    Err(
                        TransferError::TransferIncomplete {
                            expected: self.size,
                            written: self.bytes_written,
                        },
                    )
                }
            },
            Message::Error { message } => {
                self.phase = ReceiverPhase::Failed;
                Err(TransferError::PeerError { message })
            },
            _ => {
                self.phase = ReceiverPhase::Failed;
                Err(TransferError::UnexpectedMessage)
            },
        }
    }
}

impl TransferError {
    /// A human-readable reason, since every error surfaces with one.
    pub fn describe(&self) -> (r: String)
        ensures
            match self {
                TransferError::ProtocolVersionMismatch { .. } => r@ == "protocol version mismatch"@,
                TransferError::KeyExchangeFailed => r@ == "key exchange failed"@,
                TransferError::AuthFailure => r@ == "authentication failure"@,
                TransferError::FrameTooLarge => r@ == "frame too large"@,
                TransferError::TransferIncomplete { .. } => r@ == "transfer incomplete"@,
                TransferError::RelayError { message } => r@ == "relay error: "@ + message@,
                TransferError::IOError { message } => r@ == "input or output failed: "@ + message@,
                TransferError::PeerError { message } => r@ == "peer error: "@ + message@,
                TransferError::UnexpectedMessage => r@ == "unexpected message"@,
            },
    {
        match self {
            TransferError::ProtocolVersionMismatch { .. } => String::from_str(
                "protocol version mismatch",
            ),
            TransferError::KeyExchangeFailed => String::from_str("key exchange failed"),
            TransferError::AuthFailure => String::from_str("authentication failure"),
            TransferError::FrameTooLarge => String::from_str("frame too large"),
            TransferError::TransferIncomplete { .. } => String::from_str("transfer incomplete"),
            TransferError::RelayError { message } => String::from_str("relay error: ").concat(
                message.as_str(),
            ),
            TransferError::IOError { message } => String::from_str(
                "input or output failed: ",
            ).concat(message.as_str()),
            TransferError::PeerError { message } => String::from_str("peer error: ").concat(
                message.as_str(),
            ),
            TransferError::UnexpectedMessage => String::from_str("unexpected message"),
        }
    }
}

} // verus!
