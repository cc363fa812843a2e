//! Two questions about text that the store asks often.

use vstd::prelude::*;
use vstd::std_specs::iter::IteratorSpec;

verus! {

/// The first character of `s`, if it has one.
pub fn first_char(s: &str) -> (r: Option<char>)
    ensures
        s@.len() == 0 ==> r is None,
        s@.len() > 0 ==> r == Some(s@[0]),
{
    broadcast use vstd::string::group_string_axioms;

    let mut it = s.chars();
    it.next()
}

/// Whether `a` and `b` hold the same characters.
pub fn same_text(a: &str, b: &str) -> (r: bool)
    ensures
        r == (a@ == b@),
{
    broadcast use vstd::string::group_string_axioms;

    let mut left = a.chars();
    let mut right = b.chars();
    let ghost mut k: int = 0;
    loop
        invariant
            0 <= k <= a@.len(),
            k <= b@.len(),
            left.remaining() == a@.subrange(k, a@.len() as int),
            right.remaining() == b@.subrange(k, b@.len() as int),
            a@.subrange(0, k) == b@.subrange(0, k),
            left.obeys_prophetic_iter_laws(),
            right.obeys_prophetic_iter_laws(),
        decreases a@.len() - k,
    {
        let x = left.next();
        let y = right.next();
        match (x, y) {
            (Some(c), Some(d)) => {
                if c != d {
                    assert(a@[k] != b@[k]);
                    return false;
                }
                proof {
                    assert(a@.subrange(0, k + 1) =~= a@.subrange(0, k).push(c));
                    assert(b@.subrange(0, k + 1) =~= b@.subrange(0, k).push(d));
                    assert(a@.subrange(k, a@.len() as int).drop_first() =~= a@.subrange(
                        k + 1,
                        a@.len() as int,
                    ));
                    assert(b@.subrange(k, b@.len() as int).drop_first() =~= b@.subrange(
                        k + 1,
                        b@.len() as int,
                    ));
                    k = k + 1;
                }
            },
            (None, None) => {
                assert(a@ =~= a@.subrange(0, k));
                assert(b@ =~= b@.subrange(0, k));
                return true;
            },
            _ => {
                assert(a@.len() != b@.len());
                return false;
            },
        }
    }
}

} // verus!
