//! Why saturation ends: every fact that the rules can ever conclude is built
//! from the names of the starting facts, and there are finitely many such
//! facts.

use crate::fact::{FactView, Name};
use crate::laws::{lemma_consequences_monotonic, lemma_saturation_least};
use crate::model::{
    consequences, cousin, father, grandson, mother, nibling, parent, pass, saturation, sibling,
    uncle,
};
use vstd::prelude::*;
use vstd::set_lib::{lemma_int_range, lemma_set_subset_finite, set_int_range};

verus! {

/// The first name that a fact mentions.
pub open spec fn first_name(f: FactView) -> Name {
    match f {
        FactView::Person { name, .. } => name,
        FactView::Parent { parent, .. } => parent,
        FactView::Father { father, .. } => father,
        FactView::Mother { mother, .. } => mother,
        FactView::Sibling { a, .. } => a,
        FactView::Uncle { uncle, .. } => uncle,
        FactView::Cousin { a, .. } => a,
        FactView::Nibling { nibling, .. } => nibling,
        FactView::Grandson { grandson, .. } => grandson,
    }
}

/// The second name that a fact mentions; for a person, the only one.
pub open spec fn second_name(f: FactView) -> Name {
    match f {
        FactView::Person { name, .. } => name,
        FactView::Parent { child, .. } => child,
        FactView::Father { child, .. } => child,
        FactView::Mother { child, .. } => child,
        FactView::Sibling { b, .. } => b,
        FactView::Uncle { nibling, .. } => nibling,
        FactView::Cousin { b, .. } => b,
        FactView::Nibling { relative, .. } => relative,
        FactView::Grandson { grandparent, .. } => grandparent,
    }
}

/// Whether a fact is of a kind that only the rules produce.
pub open spec fn is_derived(f: FactView) -> bool {
    !(f is Person) && !(f is Parent)
}

/// The names that the facts of `s` mention.
pub open spec fn names(s: Set<FactView>) -> Set<Name> {
    Set::new(
        |n: Name|
            exists|f: FactView| #[trigger]
                s.contains(f) && (first_name(f) == n || second_name(f) == n),
    )
}

/// The facts of `s` and every derived kind of fact over the names of `s`.
pub open spec fn universe(s: Set<FactView>) -> Set<FactView> {
    Set::new(
        |f: FactView|
            s.contains(f) || (is_derived(f) && names(s).contains(first_name(f)) && names(
                s,
            ).contains(second_name(f))),
    )
}

spec fn first_selector() -> spec_fn(FactView) -> Name {
    |f: FactView| first_name(f)
}

spec fn second_selector() -> spec_fn(FactView) -> Name {
    |f: FactView| second_name(f)
}

proof fn lemma_names_finite(s: Set<FactView>)
    requires
        s.finite(),
    ensures
        names(s).finite(),
{
    s.lemma_map_finite(first_selector());
    s.lemma_map_finite(second_selector());
    let both = s.map(first_selector()).union(s.map(second_selector()));
    assert forall|n: Name| names(s).contains(n) implies both.contains(n) by {
        let f = choose|f: FactView| #[trigger]
            s.contains(f) && (first_name(f) == n || second_name(f) == n);
        if first_name(f) == n {
            assert(s.contains(f) && n == first_selector()(f));
        } else {
            assert(s.contains(f) && n == second_selector()(f));
        }
    }
    lemma_set_subset_finite(both, names(s));
}

spec fn product<A, B>(x: Set<A>, y: Set<B>) -> Set<(A, B)> {
    Set::new(|p: (A, B)| x.contains(p.0) && y.contains(p.1))
}

proof fn lemma_product_finite<A, B>(x: Set<A>, y: Set<B>)
    requires
        x.finite(),
        y.finite(),
    ensures
        product(x, y).finite(),
    decreases x.len(),
{
    if x.len() == 0 {
        assert(x =~= Set::<A>::empty());
        assert(product(x, y) =~= Set::<(A, B)>::empty());
    } else {
        let a = x.choose();
        let rest = x.remove(a);
        lemma_product_finite(rest, y);
        let beside = |b: B| (a, b);
        y.lemma_map_finite(beside);
        let joined = product(rest, y).union(y.map(beside));
        assert forall|p: (A, B)| product(x, y).contains(p) implies joined.contains(p) by {
            if p.0 == a {
                assert(y.contains(p.1) && p == beside(p.1));
            } else {
                assert(rest.contains(p.0));
            }
        }
        lemma_set_subset_finite(joined, product(x, y));
    }
}

spec fn kind(f: FactView) -> int {
    match f {
        FactView::Person { .. } => 7,
        FactView::Parent { .. } => 8,
        FactView::Father { .. } => 0,
        FactView::Mother { .. } => 1,
        FactView::Sibling { .. } => 2,
        FactView::Uncle { .. } => 3,
        FactView::Cousin { .. } => 4,
        FactView::Nibling { .. } => 5,
        FactView::Grandson { .. } => 6,
    }
}

spec fn build(k: int, a: Name, b: Name) -> FactView {
    if k == 0 {
        father(a, b)
    } else if k == 1 {
        mother(a, b)
    } else if k == 2 {
        sibling(a, b)
    } else if k == 3 {
        uncle(a, b)
    } else if k == 4 {
        cousin(a, b)
    } else if k == 5 {
        nibling(a, b)
    } else {
        grandson(a, b)
    }
}

spec fn builder() -> spec_fn((int, (Name, Name))) -> FactView {
    |p: (int, (Name, Name))| build(p.0, p.1.0, p.1.1)
}

/// There are finitely many facts over the names of finitely many facts.
pub proof fn lemma_universe_finite(s: Set<FactView>)
    requires
        s.finite(),
    ensures
        universe(s).finite(),
{
    let n = names(s);
    lemma_names_finite(s);
    lemma_product_finite(n, n);
    lemma_int_range(0, 7);
    lemma_product_finite(set_int_range(0, 7), product(n, n));
    let shapes = product(set_int_range(0, 7), product(n, n));
    shapes.lemma_map_finite(builder());
    let all = s.union(shapes.map(builder()));
    assert forall|f: FactView| universe(s).contains(f) implies all.contains(f) by {
        if !s.contains(f) {
            let p = (kind(f), (first_name(f), second_name(f)));
            assert(set_int_range(0, 7).contains(p.0));
            assert(product(n, n).contains(p.1));
            assert(shapes.contains(p) && f == builder()(p));
        }
    }
    lemma_set_subset_finite(all, universe(s));
}

/// Every fact of the universe mentions only names of the starting facts.
proof fn lemma_universe_names(s: Set<FactView>, f: FactView)
    requires
        universe(s).contains(f),
    ensures
        names(s).contains(first_name(f)),
        names(s).contains(second_name(f)),
{
}

/// A pass over a part of the universe stays within the universe.
pub proof fn lemma_pass_within_universe(s: Set<FactView>, part: Set<FactView>)
    requires
        part.subset_of(universe(s)),
    ensures
        pass(part).subset_of(universe(s)),
{
    let u = universe(s);
    lemma_consequences_monotonic(part, u);
    assert forall|f: FactView| consequences(u).contains(f) implies u.contains(f) by {
        match f {
            FactView::Father { father: p, child: c } => {
                lemma_universe_names(s, parent(p, c));
            },
            FactView::Mother { mother: p, child: c } => {
                lemma_universe_names(s, parent(p, c));
            },
            FactView::Sibling { a, b } => {
                let p = choose|p: Name| u.contains(parent(p, a)) && u.contains(parent(p, b));
                lemma_universe_names(s, parent(p, a));
                lemma_universe_names(s, parent(p, b));
            },
            FactView::Uncle { uncle: x, nibling: c } => {
                let p = choose|p: Name| u.contains(sibling(x, p)) && u.contains(parent(p, c));
                lemma_universe_names(s, sibling(x, p));
                lemma_universe_names(s, parent(p, c));
            },
            FactView::Cousin { a, b } => {
                let (p, q) = choose|p: Name, q: Name|
                    u.contains(sibling(p, q)) && ((u.contains(parent(p, a)) && u.contains(
                        parent(q, b),
                    )) || (u.contains(parent(p, b)) && u.contains(parent(q, a))));
                if u.contains(parent(p, a)) && u.contains(parent(q, b)) {
                    lemma_universe_names(s, parent(p, a));
                    lemma_universe_names(s, parent(q, b));
                } else {
                    lemma_universe_names(s, parent(p, b));
                    lemma_universe_names(s, parent(q, a));
                }
            },
            FactView::Nibling { nibling: c, relative: r } => {
                let p = choose|p: Name| u.contains(sibling(r, p)) && u.contains(parent(p, c));
                lemma_universe_names(s, sibling(r, p));
                lemma_universe_names(s, parent(p, c));
            },
            FactView::Grandson { grandson: c, grandparent: g } => {
                let p = choose|p: Name| u.contains(parent(g, p)) && u.contains(parent(p, c));
                lemma_universe_names(s, parent(g, p));
                lemma_universe_names(s, parent(p, c));
            },
            _ => {},
        }
    }
}

/// Saturation invents no name: the saturation of `s` lies within the
/// universe of `s`.
pub proof fn lemma_saturation_within_universe(s: Set<FactView>)
    ensures
        saturation(s).subset_of(universe(s)),
{
    lemma_pass_within_universe(s, universe(s));
    lemma_saturation_least(s, universe(s));
}

} // verus!
