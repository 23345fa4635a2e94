//! Small helpers for building and slicing the strings the crate renders and
//! parses.

use vstd::prelude::*;
use vstd::string::StrSliceExecFns;

verus! {

/// Relies on `String::push`: appends exactly the given character at the end.
#[verifier::external_body]
pub(crate) fn push_char(s: &mut String, c: char)
    ensures
        final(s)@ == old(s)@.push(c),
{
    s.push(c);
}

/// Copy one character range of `cs` into a fresh string.
pub(crate) fn string_of_range(cs: &Vec<char>, lo: usize, hi: usize) -> (r: String)
    requires
        lo <= hi <= cs@.len(),
    ensures
        r@ == cs@.subrange(lo as int, hi as int),
{
    let mut out = String::new();
    let mut j: usize = lo;
    while j < hi
        invariant
            lo <= j <= hi <= cs@.len(),
            out@ == cs@.subrange(lo as int, j as int),
        decreases hi - j,
    {
        push_char(&mut out, cs[j]);
        proof {
            assert(cs@.subrange(lo as int, j + 1) == cs@.subrange(lo as int, j as int).push(
                cs@[j as int],
            ));
        }
        j = j + 1;
    }
    out
}

/// Collect the characters of a string into a vector, in order.
pub(crate) fn chars_of(s: &str) -> (r: Vec<char>)
    ensures
        r@ == s@,
{
    let n = s.unicode_len();
    let mut out: Vec<char> = Vec::new();
    let mut j: usize = 0;
    while j < n
        invariant
            j <= n == s@.len(),
            out@ == s@.subrange(0, j as int),
        decreases n - j,
    {
        out.push(s.get_char(j));
        proof {
            assert(s@.subrange(0, j + 1) == s@.subrange(0, j as int).push(s@[j as int]));
        }
        j = j + 1;
    }
    proof {
        assert(s@.subrange(0, n as int) == s@);
    }
    out
}

} // verus!
