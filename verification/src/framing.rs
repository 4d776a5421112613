//! Length-prefixed framing for the direct stream transport: four big-endian
//! bytes of payload length, then the payload, with a hard upper bound that
//! keeps a corrupt or hostile prefix from forcing an unbounded allocation.

use vstd::prelude::*;

verus! {

/// The largest payload a frame may announce.
pub const MAX_FRAME_LEN: u32 = 100 * 1024 * 1024;

/// Why a frame header was rejected.
#[derive(Clone, Copy, Debug, PartialEq, Eq, Structural)]
pub enum FrameError {
    /// The header announces a payload above `MAX_FRAME_LEN`.
    TooLarge,
}

/// The four big-endian bytes of `n`.
pub open spec fn be32(n: u32) -> Seq<u8> {
    seq![
        (n / 0x1000000) as u8,
        ((n / 0x10000) % 256) as u8,
        ((n / 256) % 256) as u8,
        (n % 256) as u8,
    ]
}

/// The value of four bytes read big-endian.
pub open spec fn be_val(s: Seq<u8>) -> int {
    s[0] * 0x1000000 + s[1] * 0x10000 + s[2] * 256 + s[3]
}

/// Reading back the four big-endian bytes of `n` recovers `n`.
pub proof fn lemma_be32_roundtrip(n: u32)
    ensures
        be_val(be32(n)) == n,
{
    let m = n as int;
    let q1 = m / 256;
    let q2 = m / 0x10000;
    let q3 = m / 0x1000000;
    vstd::arithmetic::div_mod::lemma_fundamental_div_mod(m, 256);
    vstd::arithmetic::div_mod::lemma_fundamental_div_mod(q1, 256);
    vstd::arithmetic::div_mod::lemma_fundamental_div_mod(q2, 256);
    assert(q1 / 256 == q2) by (nonlinear_arith)
        requires
            m >= 0,
            q1 == m / 256,
            q2 == m / 0x10000,
    ;
    assert(q2 / 256 == q3) by (nonlinear_arith)
        requires
            m >= 0,
            q2 == m / 0x10000,
            q3 == m / 0x1000000,
    ;
}

/// Builds the header for a payload of `len` bytes; a length above what four
/// bytes can carry yields nothing.
pub fn frame_header(len: usize) -> (r: Option<Vec<u8>>)
    ensures
        len <= u32::MAX ==> (r matches Some(h) && h@ == be32(len as u32)),
        len > u32::MAX ==> r is None,
{
    if len > u32::MAX as usize {
        return None;
    }
    let n = len as u32;
    let mut h: Vec<u8> = Vec::new();
    h.push((n / 0x1000000) as u8);
    h.push(((n / 0x10000) % 256) as u8);
    h.push(((n / 256) % 256) as u8);
    h.push((n % 256) as u8);
    proof {
        assert(h@ =~= be32(n));
    }
    Some(h)
}

/// Reads the four header bytes as a big-endian payload length.
pub fn parse_frame_len(h: &[u8]) -> (r: u32)
    requires
        h@.len() == 4,
    ensures
        r as int == be_val(h@),
{
    let b0 = h[0] as u32;
    let b1 = h[1] as u32;
    let b2 = h[2] as u32;
    let b3 = h[3] as u32;
    b0 * 0x1000000 + b1 * 0x10000 + b2 * 256 + b3
}

/// Accepts a parsed length only up to the frame bound; an oversized prefix
/// is fatal so that no unbounded buffer is ever allocated.
pub fn check_frame_len(n: u32) -> (r: Result<usize, FrameError>)
    ensures
        n <= MAX_FRAME_LEN <==> (r matches Ok(m) && m == n as usize),
        n > MAX_FRAME_LEN <==> (r matches Err(e) && e == FrameError::TooLarge),
{
    if n <= MAX_FRAME_LEN {
        Ok(n as usize)
    } else {
        Err(FrameError::TooLarge)
    }
}

} // verus!
