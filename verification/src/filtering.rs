//! Two facts about `Seq::filter_map` that the library's loops rest on.

use vstd::prelude::*;

verus! {

/// What the selector picks from an element of the list is in the result.
pub proof fn lemma_filter_map_keeps<A, B>(s: Seq<A>, f: spec_fn(A) -> Option<B>, t: A, elt: B)
    requires
        s.contains(t),
        f(t) == Some(elt),
    ensures
        s.filter_map(f).contains(elt),
    decreases s.len(),
{
    let i = choose|i: int| 0 <= i < s.len() && s[i] == t;
    let rest = s.drop_last();
    if i == s.len() - 1 {
        let out = rest.filter_map(f) + seq![elt];
        assert(out[out.len() - 1] == elt);
    } else {
        assert(rest[i] == t);
        lemma_filter_map_keeps(rest, f, t, elt);
        let k = choose|k: int| 0 <= k < rest.filter_map(f).len() && rest.filter_map(f)[k] == elt;
        assert(s.filter_map(f)[k] == elt);
    }
}

/// If the list repeats nothing and the selector picks different values from
/// different elements, the result repeats nothing.
pub proof fn lemma_filter_map_distinct<A, B>(s: Seq<A>, f: spec_fn(A) -> Option<B>)
    requires
        s.no_duplicates(),
        forall|x: A, y: A| #[trigger] f(x) == #[trigger] f(y) && f(x) is Some ==> x == y,
    ensures
        s.filter_map(f).no_duplicates(),
    decreases s.len(),
{
    if s.len() > 0 {
        let rest = s.drop_last();
        lemma_filter_map_distinct(rest, f);
        if let Some(elt) = f(s.last()) {
            let kept = rest.filter_map(f);
            if kept.contains(elt) {
                rest.lemma_filter_map_contains(f, elt);
                let t = choose|t: A| #[trigger] rest.contains(t) && f(t) == Some(elt);
                let i = choose|i: int| 0 <= i < rest.len() && rest[i] == t;
                assert(s[i] == s.last());
            }
            assert forall|i: int, j: int|
                0 <= i < kept.len() + 1 && 0 <= j < kept.len() + 1 && i != j implies (kept
                + seq![elt])[i] != (kept + seq![elt])[j] by {
                if i < kept.len() {
                    assert(kept.contains(kept[i]));
                }
                if j < kept.len() {
                    assert(kept.contains(kept[j]));
                }
            }
        }
    }
}

} // verus!
