//! Lists that name each thing once, in the order in which it first came.

use vstd::prelude::*;

verus! {

/// The list `seen`, followed by the items of `more` that are new, each
/// where it first comes.
pub open spec fn joined<T>(seen: Seq<T>, more: Seq<T>) -> Seq<T>
    decreases more.len(),
{
    if more.len() == 0 {
        seen
    } else {
        let j = joined(seen, more.drop_last());
        if j.contains(more.last()) {
            j
        } else {
            j.push(more.last())
        }
    }
}

/// The items of a list, each once, in the order in which they first come.
pub open spec fn each_once<T>(items: Seq<T>) -> Seq<T> {
    joined(Seq::empty(), items)
}

/// Joining two lists one after the other is joining them in one go.
pub proof fn lemma_joined_concat<T>(seen: Seq<T>, a: Seq<T>, b: Seq<T>)
    ensures
        joined(seen, a + b) == joined(joined(seen, a), b),
    decreases b.len(),
{
    if b.len() == 0 {
        assert(a + b =~= a);
    } else {
        lemma_joined_concat(seen, a, b.drop_last());
        assert((a + b).drop_last() =~= a + b.drop_last());
        assert((a + b).last() == b.last());
    }
}

/// A joined list holds what the two lists hold and nothing else, and
/// holds nothing twice where the first list did not.
pub proof fn lemma_joined_holds<T>(seen: Seq<T>, more: Seq<T>)
    ensures
        forall|x: T| joined(seen, more).contains(x) <==> seen.contains(x) || more.contains(x),
        seen.no_duplicates() ==> joined(seen, more).no_duplicates(),
    decreases more.len(),
{
    if more.len() > 0 {
        let init = more.drop_last();
        let last = more.last();
        lemma_joined_holds(seen, init);
        let j = joined(seen, init);
        let out = joined(seen, more);
        assert forall|x: T| out.contains(x) <==> seen.contains(x) || more.contains(x) by {
            if more.contains(x) {
                let i = choose|i: int| 0 <= i < more.len() && more[i] == x;
                if i < init.len() {
                    assert(init[i] == x);
                    assert(init.contains(x));
                }
            }
            if init.contains(x) {
                let i = choose|i: int| 0 <= i < init.len() && init[i] == x;
                assert(more[i] == x);
            }
            assert(more[more.len() - 1] == last);
            if !j.contains(last) {
                assert(out == j.push(last));
                if j.contains(x) {
                    let i = choose|i: int| 0 <= i < j.len() && j[i] == x;
                    assert(out[i] == x);
                }
                assert(out[j.len() as int] == last);
                if out.contains(x) {
                    let i = choose|i: int| 0 <= i < out.len() && out[i] == x;
                    if i < j.len() {
                        assert(j[i] == x);
                    }
                }
            }
        }
        if seen.no_duplicates() && !j.contains(last) {
            assert forall|a: int, b: int| 0 <= a < out.len() && 0 <= b < out.len() && a != b implies out[a]
                != out[b] by {
                if a < j.len() && b < j.len() {
                    assert(j[a] != j[b]);
                } else if a < j.len() {
                    assert(j[a] == out[a]);
                } else {
                    assert(j[b] == out[b]);
                }
            }
        }
    }
}

} // verus!
