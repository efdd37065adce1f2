//! Comparison of texts.
use vstd::prelude::*;
use vstd::std_specs::iter::IteratorSpec;

verus! {

/// Whether `a` and `b` hold the same text. Nothing is trimmed or folded: the
/// texts are equal where they hold the same characters in the same order.
pub fn text_eq(a: &str, b: &str) -> (r: bool)
    ensures
        r == (a@ == b@),
{
    let mut rest = b.chars();
    for c in it: a.chars()
        invariant
            it.seq() == a@,
            it.index() <= b@.len(),
            rest.remaining() == b@.skip(it.index() as int),
            rest.obeys_prophetic_iter_laws(),
            forall|j: int| 0 <= j < it.index() ==> a@[j] == b@[j],
    {
        let ghost i = it.index() as int;
        match rest.next() {
            Some(d) => {
                if c != d {
                    assert(a@[i] != b@[i]);
                    return false;
                }
                assert(b@.skip(i).drop_first() =~= b@.skip(i + 1));
            },
            None => {
                assert(a@.len() > b@.len());
                return false;
            },
        }
    }
    let last = rest.next();
    proof {
        if last is None {
            assert(a@ =~= b@);
        } else {
            assert(b@.len() > a@.len());
        }
    }
    last.is_none()
}

} // verus!
