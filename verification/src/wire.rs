//! Little-endian base-256 byte encoding of fixed-width integers, the shared
//! foundation of the message codec.

use vstd::prelude::*;

verus! {

/// 256 raised to the power `k`: the number of values a `k`-byte field can hold.
pub open spec fn pow256(k: nat) -> int
    decreases k,
{
    if k == 0 {
        1
    } else {
        256 * pow256((k - 1) as nat)
    }
}

/// The `k`-byte little-endian encoding of the non-negative value `n`.
pub open spec fn enc_le(n: int, k: nat) -> Seq<u8>
    decreases k,
{
    if k == 0 {
        Seq::empty()
    } else {
        seq![(n % 256) as u8] + enc_le(n / 256, (k - 1) as nat)
    }
}

/// The value of the `k` bytes of `s` starting at `pos`, read little-endian.
pub open spec fn le_at(s: Seq<u8>, pos: int, k: nat) -> int
    decreases k,
{
    if k == 0 {
        0
    } else {
        s[pos] + 256 * le_at(s, pos + 1, (k - 1) as nat)
    }
}

pub proof fn lemma_pow256_values()
    ensures
        pow256(0) == 1,
        pow256(1) == 0x100,
        pow256(2) == 0x10000,
        pow256(3) == 0x1000000,
        pow256(4) == 0x100000000,
        pow256(5) == 0x10000000000,
        pow256(6) == 0x1000000000000,
        pow256(7) == 0x100000000000000,
        pow256(8) == 0x10000000000000000,
{
    assert(pow256(0) == 1);
    assert(pow256(1) == 0x100);
    assert(pow256(2) == 0x10000);
    assert(pow256(3) == 0x1000000);
    assert(pow256(4) == 0x100000000);
    assert(pow256(5) == 0x10000000000);
    assert(pow256(6) == 0x1000000000000);
    assert(pow256(7) == 0x100000000000000);
    assert(pow256(8) == 0x10000000000000000);
}

pub proof fn lemma_enc_le_len(n: int, k: nat)
    ensures
        enc_le(n, k).len() == k,
    decreases k,
{
    if k > 0 {
        lemma_enc_le_len(n / 256, (k - 1) as nat);
    }
}

/// Any `k` bytes read little-endian fall below `pow256(k)`.
pub proof fn lemma_le_at_bound(s: Seq<u8>, pos: int, k: nat)
    ensures
        0 <= le_at(s, pos, k) < pow256(k),
    decreases k,
{
    if k > 0 {
        lemma_le_at_bound(s, pos + 1, (k - 1) as nat);
    }
}

/// Dividing by 256 steps a value down one level of `pow256`.
proof fn lemma_div_step(n: int, k: nat)
    requires
        k >= 1,
        0 <= n < pow256(k),
    ensures
        0 <= n / 256 < pow256((k - 1) as nat),
{
    vstd::arithmetic::div_mod::lemma_fundamental_div_mod(n, 256);
    if n / 256 < 0 {
        assert(n == 256 * (n / 256) + n % 256);
        assert(256 * (n / 256) <= 256 * (-1)) by (nonlinear_arith)
            requires
                n / 256 <= -1,
        ;
        assert(false);
    }
    if n / 256 >= pow256((k - 1) as nat) {
        assert(256 * (n / 256) >= 256 * pow256((k - 1) as nat)) by (nonlinear_arith)
            requires
                n / 256 >= pow256((k - 1) as nat),
        ;
        assert(n >= pow256(k));
        assert(false);
    }
}

/// Reading back `k` bytes that hold the little-endian encoding of `n`
/// recovers `n` exactly.
pub proof fn lemma_le_at_enc(s: Seq<u8>, pos: int, n: int, k: nat)
    requires
        0 <= n < pow256(k),
        forall|i: int| 0 <= i < k ==> s[pos + i] == enc_le(n, k)[i],
    ensures
        le_at(s, pos, k) == n,
    decreases k,
{
    if k == 0 {
    } else {
        lemma_enc_le_len(n / 256, (k - 1) as nat);
        assert(s[pos + 0] == enc_le(n, k)[0]);
        assert(enc_le(n, k)[0] == (n % 256) as u8);
        assert forall|i: int| 0 <= i < k - 1 implies s[pos + 1 + i] == #[trigger] enc_le(
            n / 256,
            (k - 1) as nat,
        )[i] by {
            assert(s[pos + (1 + i)] == enc_le(n, k)[1 + i]);
            assert(enc_le(n, k)[1 + i] == enc_le(n / 256, (k - 1) as nat)[i]);
        }
        lemma_div_step(n, k);
        lemma_le_at_enc(s, pos + 1, n / 256, (k - 1) as nat);
        vstd::arithmetic::div_mod::lemma_fundamental_div_mod(n, 256);
    }
}

/// The full expansion of an eight-byte little-endian encoding.
pub proof fn lemma_enc_le_u64_unfold(n: u64)
    ensures
        enc_le(n as int, 8) =~= seq![
            (n % 256) as u8,
            ((n / 256) % 256) as u8,
            ((n / 0x10000) % 256) as u8,
            ((n / 0x1000000) % 256) as u8,
            ((n / 0x100000000) % 256) as u8,
            ((n / 0x10000000000) % 256) as u8,
            ((n / 0x1000000000000) % 256) as u8,
            (n / 0x100000000000000) as u8,
        ],
{
    let m = n as int;
    assert(enc_le(m, 8) == seq![(m % 256) as u8] + enc_le(m / 256, 7));
    assert(enc_le(m / 256, 7) == seq![((m / 256) % 256) as u8] + enc_le(m / 256 / 256, 6));
    assert(m / 256 / 256 == m / 0x10000) by (nonlinear_arith)
        requires
            m >= 0,
    ;
    assert(enc_le(m / 0x10000, 6) == seq![((m / 0x10000) % 256) as u8] + enc_le(
        m / 0x10000 / 256,
        5,
    ));
    assert(m / 0x10000 / 256 == m / 0x1000000) by (nonlinear_arith)
        requires
            m >= 0,
    ;
    assert(enc_le(m / 0x1000000, 5) == seq![((m / 0x1000000) % 256) as u8] + enc_le(
        m / 0x1000000 / 256,
        4,
    ));
    assert(m / 0x1000000 / 256 == m / 0x100000000) by (nonlinear_arith)
        requires
            m >= 0,
    ;
    assert(enc_le(m / 0x100000000, 4) == seq![((m / 0x100000000) % 256) as u8] + enc_le(
        m / 0x100000000 / 256,
        3,
    ));
    assert(m / 0x100000000 / 256 == m / 0x10000000000) by (nonlinear_arith)
        requires
            m >= 0,
    ;
    assert(enc_le(m / 0x10000000000, 3) == seq![((m / 0x10000000000) % 256) as u8] + enc_le(
        m / 0x10000000000 / 256,
        2,
    ));
    assert(m / 0x10000000000 / 256 == m / 0x1000000000000) by (nonlinear_arith)
        requires
            m >= 0,
    ;
    assert(enc_le(m / 0x1000000000000, 2) == seq![((m / 0x1000000000000) % 256) as u8] + enc_le(
        m / 0x1000000000000 / 256,
        1,
    ));
    assert(m / 0x1000000000000 / 256 == m / 0x100000000000000) by (nonlinear_arith)
        requires
            m >= 0,
    ;
    assert(enc_le(m / 0x100000000000000, 1) == seq![((m / 0x100000000000000) % 256) as u8]
        + enc_le(m / 0x100000000000000 / 256, 0));
    assert(m / 0x100000000000000 < 256);
    assert((m / 0x100000000000000) % 256 == m / 0x100000000000000) by {
        vstd::arithmetic::div_mod::lemma_small_mod(
            (m / 0x100000000000000) as nat,
            256,
        );
    }
}

/// The full expansion of a four-byte little-endian encoding.
pub proof fn lemma_enc_le_u32_unfold(n: u32)
    ensures
        enc_le(n as int, 4) =~= seq![
            (n % 256) as u8,
            ((n / 256) % 256) as u8,
            ((n / 0x10000) % 256) as u8,
            (n / 0x1000000) as u8,
        ],
{
    let m = n as int;
    assert(enc_le(m, 4) == seq![(m % 256) as u8] + enc_le(m / 256, 3));
    assert(enc_le(m / 256, 3) == seq![((m / 256) % 256) as u8] + enc_le(m / 256 / 256, 2));
    assert(m / 256 / 256 == m / 0x10000) by (nonlinear_arith)
        requires
            m >= 0,
    ;
    assert(enc_le(m / 0x10000, 2) == seq![((m / 0x10000) % 256) as u8] + enc_le(
        m / 0x10000 / 256,
        1,
    ));
    assert(m / 0x10000 / 256 == m / 0x1000000) by (nonlinear_arith)
        requires
            m >= 0,
    ;
    assert(enc_le(m / 0x1000000, 1) == seq![((m / 0x1000000) % 256) as u8] + enc_le(
        m / 0x1000000 / 256,
        0,
    ));
    assert(m / 0x1000000 < 256);
    assert((m / 0x1000000) % 256 == m / 0x1000000) by {
        vstd::arithmetic::div_mod::lemma_small_mod((m / 0x1000000) as nat, 256);
    }
}

/// Appends the eight-byte little-endian encoding of `n` to `out`.
pub fn push_u64_le(out: &mut Vec<u8>, n: u64)
    ensures
        final(out)@ == old(out)@ + enc_le(n as int, 8),
{
    let b0: u8 = (n % 256) as u8;
    let b1: u8 = ((n / 256) % 256) as u8;
    let b2: u8 = ((n / 0x10000) % 256) as u8;
    let b3: u8 = ((n / 0x1000000) % 256) as u8;
    let b4: u8 = ((n / 0x100000000) % 256) as u8;
    let b5: u8 = ((n / 0x10000000000) % 256) as u8;
    let b6: u8 = ((n / 0x1000000000000) % 256) as u8;
    let b7: u8 = (n / 0x100000000000000) as u8;
    out.push(b0);
    out.push(b1);
    out.push(b2);
    out.push(b3);
    out.push(b4);
    out.push(b5);
    out.push(b6);
    out.push(b7);
    proof {
        lemma_enc_le_u64_unfold(n);
        assert(out@ =~= old(out)@ + enc_le(n as int, 8));
    }
}

/// Appends the four-byte little-endian encoding of `n` to `out`.
pub fn push_u32_le(out: &mut Vec<u8>, n: u32)
    ensures
        final(out)@ == old(out)@ + enc_le(n as int, 4),
{
    let b0: u8 = (n % 256) as u8;
    let b1: u8 = ((n / 256) % 256) as u8;
    let b2: u8 = ((n / 0x10000) % 256) as u8;
    let b3: u8 = (n / 0x1000000) as u8;
    out.push(b0);
    out.push(b1);
    out.push(b2);
    out.push(b3);
    proof {
        lemma_enc_le_u32_unfold(n);
        assert(out@ =~= old(out)@ + enc_le(n as int, 4));
    }
}

/// Reads the eight bytes at `pos` as a little-endian value.
pub fn read_u64_le(data: &[u8], pos: usize) -> (r: u64)
    requires
        pos + 8 <= data@.len(),
    ensures
        r as int == le_at(data@, pos as int, 8),
{
    proof {
        lemma_pow256_values();
        lemma_le_at_bound(data@, pos as int, 8);
        lemma_le_at_bound(data@, pos as int + 1, 7);
        lemma_le_at_bound(data@, pos as int + 2, 6);
        lemma_le_at_bound(data@, pos as int + 3, 5);
        lemma_le_at_bound(data@, pos as int + 4, 4);
        lemma_le_at_bound(data@, pos as int + 5, 3);
        lemma_le_at_bound(data@, pos as int + 6, 2);
        lemma_le_at_bound(data@, pos as int + 7, 1);
    }
    let n = data.len();
    let mut acc: u64 = data[pos + 7] as u64;
    assert(acc as int == le_at(data@, pos as int + 7, 1));
    acc = acc * 256 + data[pos + 6] as u64;
    assert(acc as int == le_at(data@, pos as int + 6, 2));
    acc = acc * 256 + data[pos + 5] as u64;
    assert(acc as int == le_at(data@, pos as int + 5, 3));
    acc = acc * 256 + data[pos + 4] as u64;
    assert(acc as int == le_at(data@, pos as int + 4, 4));
    acc = acc * 256 + data[pos + 3] as u64;
    assert(acc as int == le_at(data@, pos as int + 3, 5));
    acc = acc * 256 + data[pos + 2] as u64;
    assert(acc as int == le_at(data@, pos as int + 2, 6));
    acc = acc * 256 + data[pos + 1] as u64;
    assert(acc as int == le_at(data@, pos as int + 1, 7));
    acc = acc * 256 + data[pos] as u64;
    assert(acc as int == le_at(data@, pos as int, 8));
    acc
}

/// Reads the four bytes at `pos` as a little-endian value.
pub fn read_u32_le(data: &[u8], pos: usize) -> (r: u32)
    requires
        pos + 4 <= data@.len(),
    ensures
        r as int == le_at(data@, pos as int, 4),
{
    proof {
        lemma_pow256_values();
        lemma_le_at_bound(data@, pos as int, 4);
        lemma_le_at_bound(data@, pos as int + 1, 3);
        lemma_le_at_bound(data@, pos as int + 2, 2);
        lemma_le_at_bound(data@, pos as int + 3, 1);
    }
    let n = data.len();
    let mut acc: u32 = data[pos + 3] as u32;
    assert(acc as int == le_at(data@, pos as int + 3, 1));
    acc = acc * 256 + data[pos + 2] as u32;
    assert(acc as int == le_at(data@, pos as int + 2, 2));
    acc = acc * 256 + data[pos + 1] as u32;
    assert(acc as int == le_at(data@, pos as int + 1, 3));
    acc = acc * 256 + data[pos] as u32;
    assert(acc as int == le_at(data@, pos as int, 4));
    acc
}

} // verus!
