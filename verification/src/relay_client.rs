//! The relay client's decision rules: what a connection sends to register,
//! what each control message means while awaiting the match, and what each
//! incoming item means once the pairing is fixed.

use crate::crypto::{blake3_of, hex_of};
use crate::relay_protocol::{hash_code, json_of, json_parse, RelayMessage, RelayMessageV, Role};
use crate::transfer::TransferError;
use vstd::prelude::*;
use vstd::string::StringExecFns;
use vstd::string::StringSliceAdditionalSpecFns;

verus! {

/// The registration a client sends upon connecting: its role under the hash
/// of the transfer code, never the code itself.
pub fn registration_message(code: &str, role: Role) -> (r: RelayMessage)
    ensures
        r@ == (RelayMessageV::Register {
            role,
            code_hash: hex_of(blake3_of(code.spec_bytes())),
        }),
{
    RelayMessage::Register { role, code_hash: hash_code(code) }
}

/// What one control message means while the client awaits its match.
pub enum HandshakeOutcome {
    /// The relay paired this session; the data plane is open.
    Matched,
    /// The relay failed this session, with its reason.
    Refused { message: String },
    /// Anything else during the handshake is ignored.
    KeepWaiting,
}

/// Interprets one control message during the client's registration wait:
/// `Matched` completes the handshake, an error is fatal with the relay's
/// reason, and any other control message is ignored.
pub fn client_handshake_step(m: RelayMessage) -> (r: HandshakeOutcome)
    ensures
        m@ is Matched <==> r is Matched,
        m@ is Error <==> r is Refused,
        m@ matches RelayMessageV::Error { message } ==> (r matches HandshakeOutcome::Refused {
            message: rm,
        } && rm@ == message),
        (!(m@ is Matched) && !(m@ is Error)) <==> r is KeepWaiting,
{
    match m {
        RelayMessage::Matched => HandshakeOutcome::Matched,
        RelayMessage::Error { message } => HandshakeOutcome::Refused { message },
        _ => HandshakeOutcome::KeepWaiting,
    }
}

/// One item a matched client's connection produced.
pub enum ClientEvent {
    /// An opaque data-plane frame.
    Binary(Vec<u8>),
    /// A control-plane text.
    Text(String),
    /// The connection ended.
    Closed,
}

/// The mathematical shape of a client event.
pub enum ClientEventV {
    Binary(Seq<u8>),
    Text(Seq<char>),
    Closed,
}

impl View for ClientEvent {
    type V = ClientEventV;

    open spec fn view(&self) -> ClientEventV {
        match self {
            ClientEvent::Binary(d) => ClientEventV::Binary(d@),
            ClientEvent::Text(t) => ClientEventV::Text(t@),
            ClientEvent::Closed => ClientEventV::Closed,
        }
    }
}

/// What a matched client does with one incoming item.
pub enum ClientRecvOutcome {
    /// A data frame: hand its bytes to the caller, verbatim.
    Deliver(Vec<u8>),
    /// A keepalive probe: answer it and keep receiving.
    Reply(RelayMessage),
    /// The session is over, with the reason.
    Fail(TransferError),
    /// An ignorable control message: keep receiving.
    KeepReceiving,
}

/// Interprets one incoming item on a matched client connection: binary
/// frames are delivered verbatim, a relayed error is fatal with its reason,
/// a keepalive probe is answered with `Pong`, a close is fatal, and every
/// other control text is ignored.
pub fn client_receive_step(e: ClientEvent) -> (r: ClientRecvOutcome)
    ensures
        e@ is Binary <==> r is Deliver,
        e@ matches ClientEventV::Binary(d) ==> (r matches ClientRecvOutcome::Deliver(rd) && rd@
            == d),
        e@ matches ClientEventV::Text(t) ==> ({
            match json_parse(t) {
                Some(mv) => match mv {
                    RelayMessageV::Error { message } => (r matches ClientRecvOutcome::Fail(err)
                        && (err matches TransferError::RelayError { message: rm } && rm@
                        == message)),
                    RelayMessageV::Ping => (r matches ClientRecvOutcome::Reply(p) && p@ is Pong),
                    _ => r is KeepReceiving,
                },
                None => r is KeepReceiving,
            }
        }),
        r matches ClientRecvOutcome::Reply(p) ==> (p@ is Pong && (e@ matches ClientEventV::Text(t)
            && t == json_of(RelayMessageV::Ping))),
        r matches ClientRecvOutcome::Fail(err) ==> ((e@ is Closed && (err matches
            TransferError::RelayError { message } && message@ == "relay connection closed"@)) || (
        e@ matches ClientEventV::Text(t) && (err matches TransferError::RelayError { message } && t
            == json_of((RelayMessageV::Error { message: message@ }))))),
        e@ is Closed ==> r is Fail,
{
    match e {
        ClientEvent::Binary(d) => ClientRecvOutcome::Deliver(d),
        ClientEvent::Text(t) => {
            match RelayMessage::from_json(t.as_str()) {
                Ok(RelayMessage::Error { message }) => ClientRecvOutcome::Fail(
                    TransferError::RelayError { message },
                ),
                Ok(RelayMessage::Ping) => ClientRecvOutcome::Reply(RelayMessage::Pong),
                _ => ClientRecvOutcome::KeepReceiving,
            }
        },
        ClientEvent::Closed => ClientRecvOutcome::Fail(
            TransferError::RelayError { message: String::from_str("relay connection closed") },
        ),
    }
}

} // verus!
