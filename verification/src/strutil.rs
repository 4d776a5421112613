//! Small verified helpers over strings and characters.

use vstd::prelude::*;
use vstd::string::StrSliceExecFns;

verus! {

/// A Unicode scalar value: exactly the integers a `char` may hold.
pub open spec fn valid_code_point(u: u32) -> bool {
    u < 0xD800 || (0xE000 <= u && u <= 0x10FFFF)
}

/// The character's value is a Unicode scalar value; true of every character
/// an executable program can hold.
pub open spec fn valid_char(c: char) -> bool {
    0 <= (c as int) && ((c as int) < 0xD800 || (0xE000 <= (c as int) && (c as int)
        <= 0x10FFFF))
}

/// Every character of the sequence is a Unicode scalar value; true of the
/// view of every real string.
pub open spec fn valid_chars(cs: Seq<char>) -> bool {
    forall|i: int| 0 <= i < cs.len() ==> valid_char(#[trigger] cs[i])
}

/// Relies on char::from_u32: yields the character for a valid Unicode scalar
/// value, and nothing for surrogates and out-of-range values.
#[verifier::external_body]
pub fn char_from_u32(u: u32) -> (r: Option<char>)
    ensures
        r is Some <==> valid_code_point(u),
        r matches Some(c) ==> c as int == u as int,
{
    char::from_u32(u)
}

/// Relies on String::push: appends one character at the end.
#[verifier::external_body]
pub fn push_char(s: &mut String, c: char)
    ensures
        final(s)@ == old(s)@.push(c),
{
    s.push(c);
}

/// Compares two string slices character by character.
pub fn str_eq(a: &str, b: &str) -> (r: bool)
    ensures
        r == (a@ == b@),
{
    let an = a.unicode_len();
    let bn = b.unicode_len();
    if an != bn {
        assert(a@.len() != b@.len());
        return false;
    }
    let mut i: usize = 0;
    while i < an
        invariant
            an == a@.len(),
            bn == b@.len(),
            an == bn,
            i <= an,
            forall|j: int| 0 <= j < i ==> a@[j] == b@[j],
        decreases an - i,
    {
        if a.get_char(i) != b.get_char(i) {
            assert(a@[i as int] != b@[i as int]);
            return false;
        }
        i += 1;
    }
    proof {
        assert(a@ =~= b@);
    }
    true
}

/// Collects the characters of a string slice into a vector; in passing it
/// witnesses that every character of a real string is a Unicode scalar.
pub fn str_chars(s: &str) -> (r: Vec<char>)
    ensures
        r@ == s@,
        valid_chars(s@),
{
    let n = s.unicode_len();
    let mut out: Vec<char> = Vec::new();
    let mut i: usize = 0;
    while i < n
        invariant
            n == s@.len(),
            i <= n,
            out@ == s@.take(i as int),
            forall|j: int| 0 <= j < i ==> valid_char(#[trigger] s@[j]),
        decreases n - i,
    {
        let c = s.get_char(i);
        proof {
            assert(valid_char(c));
        }
        out.push(c);
        proof {
            assert(out@ =~= s@.take(i as int + 1));
        }
        i += 1;
    }
    proof {
        assert(s@.take(n as int) =~= s@);
    }
    out
}

} // verus!
