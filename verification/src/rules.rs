//! The six rules. Each reads a list of facts, its premises, and writes its
//! conclusions into a knowledge base; it never reads what it has written.

use crate::fact::{Fact, FactView, Gender, Name};
use crate::filtering::lemma_filter_map_keeps;
use crate::join::{
    drawn1, drawn2, fired1, fired2, lemma_drawn1_start, lemma_drawn1_step, lemma_drawn2_next_row,
    lemma_drawn2_skip_row, lemma_drawn2_start, lemma_drawn2_step, lemma_grown, Pair, Rule1, Rule2,
};
use crate::knowledge_base::{fact_set, person_in, views, KnowledgeBase};
use crate::model::{
    cousin, cousin_facts, father, father_mother_facts, grandson, grandson_facts, mother, nibling,
    nibling_facts, parent, person, rule_order, sibling, sibling_facts, uncle, uncle_facts, Rule,
};
use vstd::prelude::*;

verus! {

/// The two names of a `Parent` fact, parent first.
pub open spec fn parent_of(f: FactView) -> Option<(Name, Name)> {
    match f {
        FactView::Parent { parent, child } => Some((parent, child)),
        _ => None,
    }
}

/// The two names of a `Sibling` fact, in its order.
pub open spec fn sibling_of(f: FactView) -> Option<(Name, Name)> {
    match f {
        FactView::Sibling { a, b } => Some((a, b)),
        _ => None,
    }
}

/// [`parent_of`] as a function value.
pub open spec fn parent_selector() -> spec_fn(FactView) -> Option<(Name, Name)> {
    |f: FactView| parent_of(f)
}

/// [`sibling_of`] as a function value.
pub open spec fn sibling_selector() -> spec_fn(FactView) -> Option<(Name, Name)> {
    |f: FactView| sibling_of(f)
}

/// The `(parent, child)` pairs of the `Parent` facts in a list, in the
/// order of the list.
pub open spec fn parent_pairs(facts: Seq<FactView>) -> Seq<(Name, Name)> {
    facts.filter_map(parent_selector())
}

/// The `(a, b)` pairs of the `Sibling` facts in a list, in the order of the
/// list.
pub open spec fn sibling_pairs(facts: Seq<FactView>) -> Seq<(Name, Name)> {
    facts.filter_map(sibling_selector())
}

/// A pair is among the parent pairs of a list exactly when the list holds
/// the `Parent` fact of that pair.
pub proof fn lemma_parent_pairs(facts: Seq<FactView>, p: Name, c: Name)
    ensures
        parent_pairs(facts).contains((p, c)) <==> facts.contains(parent(p, c)),
{
    if parent_pairs(facts).contains((p, c)) {
        facts.lemma_filter_map_contains(parent_selector(), (p, c));
    }
    if facts.contains(parent(p, c)) {
        lemma_filter_map_keeps(facts, parent_selector(), parent(p, c), (p, c));
    }
}

/// A pair is among the sibling pairs of a list exactly when the list holds
/// the `Sibling` fact of that pair.
pub proof fn lemma_sibling_pairs(facts: Seq<FactView>, a: Name, b: Name)
    ensures
        sibling_pairs(facts).contains((a, b)) <==> facts.contains(sibling(a, b)),
{
    if sibling_pairs(facts).contains((a, b)) {
        facts.lemma_filter_map_contains(sibling_selector(), (a, b));
    }
    if facts.contains(sibling(a, b)) {
        lemma_filter_map_keeps(facts, sibling_selector(), sibling(a, b), (a, b));
    }
}

/// The `(parent, child)` pairs of the `Parent` facts in `facts`, in order.
pub fn iter_parents(facts: &Vec<Fact>) -> (pairs: Vec<(String, String)>)
    ensures
        pairs.deep_view() == parent_pairs(views(facts@)),
{
    let mut pairs: Vec<(String, String)> = Vec::new();
    let mut i: usize = 0;
    assert(views(facts@).take(0).filter_map(parent_selector()) =~= Seq::<Pair>::empty());
    while i < facts.len()
        invariant
            i <= facts.len(),
            pairs.deep_view() =~= parent_pairs(views(facts@).take(i as int)),
        decreases facts.len() - i,
    {
        let ghost before = pairs.deep_view();
        if let Fact::Parent { parent, child } = &facts[i] {
            pairs.push((parent.clone(), child.clone()));
            assert(pairs.deep_view() =~= before + seq![(parent@, child@)]);
        }
        proof {
            views(facts@).lemma_filter_map_take_succ(parent_selector(), i as int);
        }
        i += 1;
    }
    assert(views(facts@).take(facts.len() as int) =~= views(facts@));
    pairs
}

/// The `(a, b)` pairs of the `Sibling` facts in `facts`, in order.
pub fn iter_siblings(facts: &Vec<Fact>) -> (pairs: Vec<(String, String)>)
    ensures
        pairs.deep_view() == sibling_pairs(views(facts@)),
{
    let mut pairs: Vec<(String, String)> = Vec::new();
    let mut i: usize = 0;
    assert(views(facts@).take(0).filter_map(sibling_selector()) =~= Seq::<Pair>::empty());
    while i < facts.len()
        invariant
            i <= facts.len(),
            pairs.deep_view() =~= sibling_pairs(views(facts@).take(i as int)),
        decreases facts.len() - i,
    {
        let ghost before = pairs.deep_view();
        if let Fact::Sibling { a, b } = &facts[i] {
            pairs.push((a.clone(), b.clone()));
            assert(pairs.deep_view() =~= before + seq![(a@, b@)]);
        }
        proof {
            views(facts@).lemma_filter_map_take_succ(sibling_selector(), i as int);
        }
        i += 1;
    }
    assert(views(facts@).take(facts.len() as int) =~= views(facts@));
    pairs
}

spec fn father_mother_rule(s: Set<FactView>) -> Rule1 {
    |x: Pair, f: FactView|
        (s.contains(person(x.0, Gender::Male)) && f == father(x.0, x.1)) || (s.contains(
            person(x.0, Gender::Female),
        ) && f == mother(x.0, x.1))
}

proof fn lemma_father_mother_drawn(facts: Seq<FactView>)
    ensures
        drawn1(
            parent_pairs(facts),
            parent_pairs(facts).len() as int,
            father_mother_rule(facts.to_set()),
        ) == father_mother_facts(facts.to_set()),
{
    let s = facts.to_set();
    let ps = parent_pairs(facts);
    let rule = father_mother_rule(s);
    let lhs = drawn1(ps, ps.len() as int, rule);
    let rhs = father_mother_facts(s);
    assert forall|f: FactView| lhs.contains(f) <==> rhs.contains(f) by {
        if lhs.contains(f) {
            let a = choose|a: int| 0 <= a < ps.len() && a < ps.len() && #[trigger] rule(ps[a], f);
            assert(ps.contains(ps[a]));
            lemma_parent_pairs(facts, ps[a].0, ps[a].1);
        }
        if rhs.contains(f) {
            match f {
                FactView::Father { father: p, child: c } => {
                    lemma_parent_pairs(facts, p, c);
                    let a = choose|a: int| 0 <= a < ps.len() && ps[a] == (p, c);
                    assert(rule(ps[a], f));
                },
                FactView::Mother { mother: p, child: c } => {
                    lemma_parent_pairs(facts, p, c);
                    let a = choose|a: int| 0 <= a < ps.len() && ps[a] == (p, c);
                    assert(rule(ps[a], f));
                },
                _ => {},
            }
        }
    }
    assert(lhs =~= rhs);
}

/// The father and mother rule: for every `Parent(p, c)` in `facts`, adds
/// `Father(p, c)` if `facts` holds `Person(p, Male)` and `Mother(p, c)` if
/// it holds `Person(p, Female)`. Returns whether `kb` gained a fact.
pub fn infer_father_mother(facts: &Vec<Fact>, kb: &mut KnowledgeBase) -> (changed: bool)
    ensures
        final(kb)@ == old(kb)@.union(father_mother_facts(fact_set(facts@))),
        changed == (final(kb)@ != old(kb)@),
{
    let parents = iter_parents(facts);
    let ghost base = kb@;
    let ghost s = fact_set(facts@);
    let ghost ps = parents.deep_view();
    let ghost rule = father_mother_rule(s);
    let mut changed = false;
    let mut i: usize = 0;
    proof {
        lemma_drawn1_start(ps, rule);
        assert(kb@ =~= base.union(drawn1(ps, 0, rule)));
    }
    while i < parents.len()
        invariant
            i <= parents.len(),
            ps == parents.deep_view(),
            s == fact_set(facts@),
            rule == father_mother_rule(s),
            base.subset_of(kb@),
            kb@ == base.union(drawn1(ps, i as int, rule)),
            changed == (kb@ != base),
        decreases parents.len() - i,
    {
        let p = &parents[i].0;
        let c = &parents[i].1;
        let ghost start = kb@;
        assert(ps[i as int] == (p@, c@));
        if person_in(facts, p, Gender::Male) {
            proof {
                lemma_grown(base, kb@, father(p@, c@));
            }
            let added = kb.add_fact(Fact::Father { father: p.clone(), child: c.clone() });
            changed = changed || added;
        }
        if person_in(facts, p, Gender::Female) {
            proof {
                lemma_grown(base, kb@, mother(p@, c@));
            }
            let added = kb.add_fact(Fact::Mother { mother: p.clone(), child: c.clone() });
            changed = changed || added;
        }
        proof {
            lemma_drawn1_step(ps, i as int, rule);
            assert(kb@ =~= start.union(fired1(ps[i as int], rule)));
            assert(kb@ =~= base.union(drawn1(ps, i + 1, rule)));
        }
        i += 1;
    }
    proof {
        lemma_father_mother_drawn(views(facts@));
    }
    changed
}

spec fn sibling_rule() -> Rule2 {
    |x: Pair, y: Pair, f: FactView|
        x.0 == y.0 && x.1 != y.1 && (f == sibling(x.1, y.1) || f == sibling(y.1, x.1))
}

proof fn lemma_sibling_drawn(facts: Seq<FactView>)
    ensures
        drawn2(
            parent_pairs(facts),
            parent_pairs(facts),
            parent_pairs(facts).len() as int,
            0,
            sibling_rule(),
        ) == sibling_facts(facts.to_set()),
{
    let s = facts.to_set();
    let ps = parent_pairs(facts);
    let rule = sibling_rule();
    let n = ps.len() as int;
    let lhs = drawn2(ps, ps, n, 0, rule);
    let rhs = sibling_facts(s);
    assert forall|f: FactView| lhs.contains(f) <==> rhs.contains(f) by {
        if lhs.contains(f) {
            let (a, b) = choose|a: int, b: int|
                0 <= a < ps.len() && 0 <= b < ps.len() && (a < n || (a == n && b < 0))
                    && #[trigger] rule(ps[a], ps[b], f);
            assert(ps.contains(ps[a]));
            assert(ps.contains(ps[b]));
            lemma_parent_pairs(facts, ps[a].0, ps[a].1);
            lemma_parent_pairs(facts, ps[b].0, ps[b].1);
            assert(s.contains(parent(ps[a].0, ps[a].1)));
            assert(s.contains(parent(ps[a].0, ps[b].1)));
        }
        if rhs.contains(f) {
            if let FactView::Sibling { a: child_a, b: child_b } = f {
                let p = choose|p: Name|
                    s.contains(parent(p, child_a)) && s.contains(parent(p, child_b));
                lemma_parent_pairs(facts, p, child_a);
                lemma_parent_pairs(facts, p, child_b);
                let a = choose|a: int| 0 <= a < ps.len() && ps[a] == (p, child_a);
                let b = choose|b: int| 0 <= b < ps.len() && ps[b] == (p, child_b);
                assert(rule(ps[a], ps[b], f));
            }
        }
    }
    assert(lhs =~= rhs);
}

/// The sibling rule: for every two facts `Parent(p, a)` and `Parent(p, b)`
/// in `facts` with `a` other than `b`, adds `Sibling(a, b)` and
/// `Sibling(b, a)`. Returns whether `kb` gained a fact.
pub fn infer_sibling(facts: &Vec<Fact>, kb: &mut KnowledgeBase) -> (changed: bool)
    ensures
        final(kb)@ == old(kb)@.union(sibling_facts(fact_set(facts@))),
        changed == (final(kb)@ != old(kb)@),
{
    let parents = iter_parents(facts);
    let ghost base = kb@;
    let ghost ps = parents.deep_view();
    let ghost rule = sibling_rule();
    let mut changed = false;
    let mut i: usize = 0;
    proof {
        lemma_drawn2_start(ps, ps, rule);
        assert(kb@ =~= base.union(drawn2(ps, ps, 0, 0, rule)));
    }
    while i < parents.len()
        invariant
            i <= parents.len(),
            ps == parents.deep_view(),
            rule == sibling_rule(),
            base.subset_of(kb@),
            kb@ == base.union(drawn2(ps, ps, i as int, 0, rule)),
            changed == (kb@ != base),
        decreases parents.len() - i,
    {
        let mut j: usize = 0;
        while j < parents.len()
            invariant
                i < parents.len(),
                j <= parents.len(),
                ps == parents.deep_view(),
                rule == sibling_rule(),
                base.subset_of(kb@),
                kb@ == base.union(drawn2(ps, ps, i as int, j as int, rule)),
                changed == (kb@ != base),
            decreases parents.len() - j,
        {
            let left = &parents[i].0;
            let child_a = &parents[i].1;
            let right = &parents[j].0;
            let child_b = &parents[j].1;
            let ghost start = kb@;
            assert(ps[i as int] == (left@, child_a@));
            assert(ps[j as int] == (right@, child_b@));
            if *left == *right && *child_a != *child_b {
                proof {
                    lemma_grown(base, kb@, sibling(child_a@, child_b@));
                }
                let added = kb.add_fact(Fact::Sibling { a: child_a.clone(), b: child_b.clone() });
                changed = changed || added;
                proof {
                    lemma_grown(base, kb@, sibling(child_b@, child_a@));
                }
                let added = kb.add_fact(Fact::Sibling { a: child_b.clone(), b: child_a.clone() });
                changed = changed || added;
            }
            proof {
                lemma_drawn2_step(ps, ps, i as int, j as int, rule);
                assert(kb@ =~= start.union(fired2(ps[i as int], ps[j as int], rule)));
                assert(kb@ =~= base.union(drawn2(ps, ps, i as int, j + 1, rule)));
            }
            j += 1;
        }
        proof {
            lemma_drawn2_next_row(ps, ps, i as int, rule);
        }
        i += 1;
    }
    proof {
        lemma_sibling_drawn(views(facts@));
    }
    changed
}

spec fn uncle_rule(s: Set<FactView>) -> Rule2 {
    |x: Pair, y: Pair, f: FactView|
        y.0 == x.1 && s.contains(person(x.0, Gender::Male)) && f == uncle(x.0, y.1)
}

proof fn lemma_uncle_drawn(facts: Seq<FactView>)
    ensures
        drawn2(
            sibling_pairs(facts),
            parent_pairs(facts),
            sibling_pairs(facts).len() as int,
            0,
            uncle_rule(facts.to_set()),
        ) == uncle_facts(facts.to_set()),
{
    let s = facts.to_set();
    let ss = sibling_pairs(facts);
    let ps = parent_pairs(facts);
    let rule = uncle_rule(s);
    let n = ss.len() as int;
    let lhs = drawn2(ss, ps, n, 0, rule);
    let rhs = uncle_facts(s);
    assert forall|f: FactView| lhs.contains(f) <==> rhs.contains(f) by {
        if lhs.contains(f) {
            let (a, b) = choose|a: int, b: int|
                0 <= a < ss.len() && 0 <= b < ps.len() && (a < n || (a == n && b < 0))
                    && #[trigger] rule(ss[a], ps[b], f);
            assert(ss.contains(ss[a]));
            assert(ps.contains(ps[b]));
            lemma_sibling_pairs(facts, ss[a].0, ss[a].1);
            lemma_parent_pairs(facts, ps[b].0, ps[b].1);
            assert(s.contains(sibling(ss[a].0, ss[a].1)));
            assert(s.contains(parent(ss[a].1, ps[b].1)));
        }
        if rhs.contains(f) {
            if let FactView::Uncle { uncle: u, nibling: c } = f {
                let p = choose|p: Name| s.contains(sibling(u, p)) && s.contains(parent(p, c));
                lemma_sibling_pairs(facts, u, p);
                lemma_parent_pairs(facts, p, c);
                let a = choose|a: int| 0 <= a < ss.len() && ss[a] == (u, p);
                let b = choose|b: int| 0 <= b < ps.len() && ps[b] == (p, c);
                assert(rule(ss[a], ps[b], f));
            }
        }
    }
    assert(lhs =~= rhs);
}

/// The uncle rule: for every `Sibling(s, p)` and `Parent(p, c)` in `facts`
/// such that `facts` holds `Person(s, Male)`, adds `Uncle(s, c)`. Returns
/// whether `kb` gained a fact.
pub fn infer_uncle(facts: &Vec<Fact>, kb: &mut KnowledgeBase) -> (changed: bool)
    ensures
        final(kb)@ == old(kb)@.union(uncle_facts(fact_set(facts@))),
        changed == (final(kb)@ != old(kb)@),
{
    let parents = iter_parents(facts);
    let siblings = iter_siblings(facts);
    let ghost base = kb@;
    let ghost s = fact_set(facts@);
    let ghost ps = parents.deep_view();
    let ghost ss = siblings.deep_view();
    let ghost rule = uncle_rule(s);
    let mut changed = false;
    let mut i: usize = 0;
    proof {
        lemma_drawn2_start(ss, ps, rule);
        assert(kb@ =~= base.union(drawn2(ss, ps, 0, 0, rule)));
    }
    while i < siblings.len()
        invariant
            i <= siblings.len(),
            ps == parents.deep_view(),
            ss == siblings.deep_view(),
            s == fact_set(facts@),
            rule == uncle_rule(s),
            base.subset_of(kb@),
            kb@ == base.union(drawn2(ss, ps, i as int, 0, rule)),
            changed == (kb@ != base),
        decreases siblings.len() - i,
    {
        let mut j: usize = 0;
        while j < parents.len()
            invariant
                i < siblings.len(),
                j <= parents.len(),
                ps == parents.deep_view(),
                ss == siblings.deep_view(),
                s == fact_set(facts@),
                rule == uncle_rule(s),
                base.subset_of(kb@),
                kb@ == base.union(drawn2(ss, ps, i as int, j as int, rule)),
                changed == (kb@ != base),
            decreases parents.len() - j,
        {
            let sib = &siblings[i].0;
            let p = &siblings[i].1;
            let par = &parents[j].0;
            let child = &parents[j].1;
            let ghost start = kb@;
            assert(ss[i as int] == (sib@, p@));
            assert(ps[j as int] == (par@, child@));
            if *par == *p && person_in(facts, sib, Gender::Male) {
                proof {
                    lemma_grown(base, kb@, uncle(sib@, child@));
                }
                let added = kb.add_fact(Fact::Uncle { uncle: sib.clone(), nibling: child.clone() });
                changed = changed || added;
            }
            proof {
                lemma_drawn2_step(ss, ps, i as int, j as int, rule);
                assert(kb@ =~= start.union(fired2(ss[i as int], ps[j as int], rule)));
                assert(kb@ =~= base.union(drawn2(ss, ps, i as int, j + 1, rule)));
            }
            j += 1;
        }
        proof {
            lemma_drawn2_next_row(ss, ps, i as int, rule);
        }
        i += 1;
    }
    proof {
        lemma_uncle_drawn(views(facts@));
    }
    changed
}

spec fn cousin_rule(x: Pair) -> Rule2 {
    |y: Pair, z: Pair, f: FactView|
        y.0 == x.0 && z.0 == x.1 && y.1 != z.1 && (f == cousin(y.1, z.1) || f == cousin(z.1, y.1))
}

spec fn cousins_through(ps: Seq<Pair>, x: Pair) -> Set<FactView> {
    drawn2(ps, ps, ps.len() as int, 0, cousin_rule(x))
}

spec fn cousin_outer_rule(ps: Seq<Pair>) -> Rule1 {
    |x: Pair, f: FactView| cousins_through(ps, x).contains(f)
}

proof fn lemma_cousin_drawn(facts: Seq<FactView>)
    ensures
        drawn1(
            sibling_pairs(facts),
            sibling_pairs(facts).len() as int,
            cousin_outer_rule(parent_pairs(facts)),
        ) == cousin_facts(facts.to_set()),
{
    let s = facts.to_set();
    let ss = sibling_pairs(facts);
    let ps = parent_pairs(facts);
    let outer = cousin_outer_rule(ps);
    let n = ps.len() as int;
    let lhs = drawn1(ss, ss.len() as int, outer);
    let rhs = cousin_facts(s);
    assert forall|f: FactView| lhs.contains(f) <==> rhs.contains(f) by {
        if lhs.contains(f) {
            let k = choose|k: int| 0 <= k < ss.len() && k < ss.len() && #[trigger] outer(ss[k], f);
            let rule = cousin_rule(ss[k]);
            assert(cousins_through(ps, ss[k]).contains(f));
            let (a, b) = choose|a: int, b: int|
                0 <= a < ps.len() && 0 <= b < ps.len() && (a < n || (a == n && b < 0))
                    && #[trigger] rule(ps[a], ps[b], f);
            assert(ss.contains(ss[k]));
            assert(ps.contains(ps[a]));
            assert(ps.contains(ps[b]));
            lemma_sibling_pairs(facts, ss[k].0, ss[k].1);
            lemma_parent_pairs(facts, ps[a].0, ps[a].1);
            lemma_parent_pairs(facts, ps[b].0, ps[b].1);
            assert(s.contains(sibling(ss[k].0, ss[k].1)));
            assert(s.contains(parent(ss[k].0, ps[a].1)));
            assert(s.contains(parent(ss[k].1, ps[b].1)));
        }
        if rhs.contains(f) {
            if let FactView::Cousin { a: child_a, b: child_b } = f {
                let (p, q) = choose|p: Name, q: Name|
                    s.contains(sibling(p, q)) && ((s.contains(parent(p, child_a)) && s.contains(
                        parent(q, child_b),
                    )) || (s.contains(parent(p, child_b)) && s.contains(parent(q, child_a))));
                lemma_sibling_pairs(facts, p, q);
                let k = choose|k: int| 0 <= k < ss.len() && ss[k] == (p, q);
                let rule = cousin_rule(ss[k]);
                if s.contains(parent(p, child_a)) && s.contains(parent(q, child_b)) {
                    lemma_parent_pairs(facts, p, child_a);
                    lemma_parent_pairs(facts, q, child_b);
                    let a = choose|a: int| 0 <= a < ps.len() && ps[a] == (p, child_a);
                    let b = choose|b: int| 0 <= b < ps.len() && ps[b] == (q, child_b);
                    assert(rule(ps[a], ps[b], f));
                } else {
                    lemma_parent_pairs(facts, p, child_b);
                    lemma_parent_pairs(facts, q, child_a);
                    let a = choose|a: int| 0 <= a < ps.len() && ps[a] == (p, child_b);
                    let b = choose|b: int| 0 <= b < ps.len() && ps[b] == (q, child_a);
                    assert(rule(ps[a], ps[b], f));
                }
                assert(cousins_through(ps, ss[k]).contains(f));
                assert(outer(ss[k], f));
            }
        }
    }
    assert(lhs =~= rhs);
}

/// The cousin rule: for every `Sibling(p, q)`, `Parent(p, a)` and
/// `Parent(q, b)` in `facts` with `a` other than `b`, adds `Cousin(a, b)`
/// and `Cousin(b, a)`. Returns whether `kb` gained a fact.
pub fn infer_cousin(facts: &Vec<Fact>, kb: &mut KnowledgeBase) -> (changed: bool)
    ensures
        final(kb)@ == old(kb)@.union(cousin_facts(fact_set(facts@))),
        changed == (final(kb)@ != old(kb)@),
{
    let parents = iter_parents(facts);
    let siblings = iter_siblings(facts);
    let ghost base = kb@;
    let ghost ps = parents.deep_view();
    let ghost ss = siblings.deep_view();
    let ghost outer = cousin_outer_rule(ps);
    let mut changed = false;
    let mut k: usize = 0;
    proof {
        lemma_drawn1_start(ss, outer);
        assert(kb@ =~= base.union(drawn1(ss, 0, outer)));
    }
    while k < siblings.len()
        invariant
            k <= siblings.len(),
            ps == parents.deep_view(),
            ss == siblings.deep_view(),
            outer == cousin_outer_rule(ps),
            base.subset_of(kb@),
            kb@ == base.union(drawn1(ss, k as int, outer)),
            changed == (kb@ != base),
        decreases siblings.len() - k,
    {
        let left = &siblings[k].0;
        let right = &siblings[k].1;
        let ghost row = kb@;
        let ghost rule = cousin_rule(ss[k as int]);
        assert(ss[k as int] == (left@, right@));
        let mut i: usize = 0;
        proof {
            lemma_drawn2_start(ps, ps, rule);
            assert(kb@ =~= row.union(drawn2(ps, ps, 0, 0, rule)));
        }
        while i < parents.len()
            invariant
                k < siblings.len(),
                i <= parents.len(),
                ps == parents.deep_view(),
                ss == siblings.deep_view(),
                ss[k as int] == (left@, right@),
                rule == cousin_rule(ss[k as int]),
                base.subset_of(kb@),
                kb@ == row.union(drawn2(ps, ps, i as int, 0, rule)),
                changed == (kb@ != base),
            decreases parents.len() - i,
        {
            let near_parent = &parents[i].0;
            let child_a = &parents[i].1;
            assert(ps[i as int] == (near_parent@, child_a@));
            if *near_parent == *left {
                let mut j: usize = 0;
                while j < parents.len()
                    invariant
                        k < siblings.len(),
                        i < parents.len(),
                        j <= parents.len(),
                        ps == parents.deep_view(),
                        ss == siblings.deep_view(),
                        ss[k as int] == (left@, right@),
                        ps[i as int] == (near_parent@, child_a@),
                        near_parent@ == left@,
                        rule == cousin_rule(ss[k as int]),
                        base.subset_of(kb@),
                        kb@ == row.union(drawn2(ps, ps, i as int, j as int, rule)),
                        changed == (kb@ != base),
                    decreases parents.len() - j,
                {
                    let far_parent = &parents[j].0;
                    let child_b = &parents[j].1;
                    let ghost start = kb@;
                    assert(ps[j as int] == (far_parent@, child_b@));
                    if *far_parent == *right && *child_a != *child_b {
                        proof {
                            lemma_grown(base, kb@, cousin(child_a@, child_b@));
                        }
                        let added = kb.add_fact(
                            Fact::Cousin { a: child_a.clone(), b: child_b.clone() },
                        );
                        changed = changed || added;
                        proof {
                            lemma_grown(base, kb@, cousin(child_b@, child_a@));
                        }
                        let added = kb.add_fact(
                            Fact::Cousin { a: child_b.clone(), b: child_a.clone() },
                        );
                        changed = changed || added;
                    }
                    proof {
                        lemma_drawn2_step(ps, ps, i as int, j as int, rule);
                        assert(kb@ =~= start.union(fired2(ps[i as int], ps[j as int], rule)));
                        assert(kb@ =~= row.union(drawn2(ps, ps, i as int, j + 1, rule)));
                    }
                    j += 1;
                }
                proof {
                    lemma_drawn2_next_row(ps, ps, i as int, rule);
                }
            } else {
                proof {
                    lemma_drawn2_skip_row(ps, ps, i as int, rule);
                }
            }
            i += 1;
        }
        proof {
            lemma_drawn1_step(ss, k as int, outer);
            assert(fired1(ss[k as int], outer) =~= cousins_through(ps, ss[k as int]));
            assert(kb@ =~= base.union(drawn1(ss, k + 1, outer)));
        }
        k += 1;
    }
    proof {
        lemma_cousin_drawn(views(facts@));
    }
    changed
}

spec fn nibling_rule() -> Rule2 {
    |x: Pair, y: Pair, f: FactView| y.0 == x.1 && f == nibling(y.1, x.0)
}

proof fn lemma_nibling_drawn(facts: Seq<FactView>)
    ensures
        drawn2(
            sibling_pairs(facts),
            parent_pairs(facts),
            sibling_pairs(facts).len() as int,
            0,
            nibling_rule(),
        ) == nibling_facts(facts.to_set()),
{
    let s = facts.to_set();
    let ss = sibling_pairs(facts);
    let ps = parent_pairs(facts);
    let rule = nibling_rule();
    let n = ss.len() as int;
    let lhs = drawn2(ss, ps, n, 0, rule);
    let rhs = nibling_facts(s);
    assert forall|f: FactView| lhs.contains(f) <==> rhs.contains(f) by {
        if lhs.contains(f) {
            let (a, b) = choose|a: int, b: int|
                0 <= a < ss.len() && 0 <= b < ps.len() && (a < n || (a == n && b < 0))
                    && #[trigger] rule(ss[a], ps[b], f);
            assert(ss.contains(ss[a]));
            assert(ps.contains(ps[b]));
            lemma_sibling_pairs(facts, ss[a].0, ss[a].1);
            lemma_parent_pairs(facts, ps[b].0, ps[b].1);
            assert(s.contains(sibling(ss[a].0, ss[a].1)));
            assert(s.contains(parent(ss[a].1, ps[b].1)));
        }
        if rhs.contains(f) {
            if let FactView::Nibling { nibling: c, relative: r } = f {
                let p = choose|p: Name| s.contains(sibling(r, p)) && s.contains(parent(p, c));
                lemma_sibling_pairs(facts, r, p);
                lemma_parent_pairs(facts, p, c);
                let a = choose|a: int| 0 <= a < ss.len() && ss[a] == (r, p);
                let b = choose|b: int| 0 <= b < ps.len() && ps[b] == (p, c);
                assert(rule(ss[a], ps[b], f));
            }
        }
    }
    assert(lhs =~= rhs);
}

/// The nibling rule: for every `Sibling(p, s)` and `Parent(s, c)` in
/// `facts`, adds `Nibling(c, p)`. Returns whether `kb` gained a fact.
pub fn infer_nibling(facts: &Vec<Fact>, kb: &mut KnowledgeBase) -> (changed: bool)
    ensures
        final(kb)@ == old(kb)@.union(nibling_facts(fact_set(facts@))),
        changed == (final(kb)@ != old(kb)@),
{
    let parents = iter_parents(facts);
    let siblings = iter_siblings(facts);
    let ghost base = kb@;
    let ghost ps = parents.deep_view();
    let ghost ss = siblings.deep_view();
    let ghost rule = nibling_rule();
    let mut changed = false;
    let mut i: usize = 0;
    proof {
        lemma_drawn2_start(ss, ps, rule);
        assert(kb@ =~= base.union(drawn2(ss, ps, 0, 0, rule)));
    }
    while i < siblings.len()
        invariant
            i <= siblings.len(),
            ps == parents.deep_view(),
            ss == siblings.deep_view(),
            rule == nibling_rule(),
            base.subset_of(kb@),
            kb@ == base.union(drawn2(ss, ps, i as int, 0, rule)),
            changed == (kb@ != base),
        decreases siblings.len() - i,
    {
        let mut j: usize = 0;
        while j < parents.len()
            invariant
                i < siblings.len(),
                j <= parents.len(),
                ps == parents.deep_view(),
                ss == siblings.deep_view(),
                rule == nibling_rule(),
                base.subset_of(kb@),
                kb@ == base.union(drawn2(ss, ps, i as int, j as int, rule)),
                changed == (kb@ != base),
            decreases parents.len() - j,
        {
            let p = &siblings[i].0;
            let sib = &siblings[i].1;
            let par = &parents[j].0;
            let child = &parents[j].1;
            let ghost start = kb@;
            assert(ss[i as int] == (p@, sib@));
            assert(ps[j as int] == (par@, child@));
            if *par == *sib {
                proof {
                    lemma_grown(base, kb@, nibling(child@, p@));
                }
                let added = kb.add_fact(
                    Fact::Nibling { nibling: child.clone(), relative: p.clone() },
                );
                changed = changed || added;
            }
            proof {
                lemma_drawn2_step(ss, ps, i as int, j as int, rule);
                assert(kb@ =~= start.union(fired2(ss[i as int], ps[j as int], rule)));
                assert(kb@ =~= base.union(drawn2(ss, ps, i as int, j + 1, rule)));
            }
            j += 1;
        }
        proof {
            lemma_drawn2_next_row(ss, ps, i as int, rule);
        }
        i += 1;
    }
    proof {
        lemma_nibling_drawn(views(facts@));
    }
    changed
}

spec fn grandson_rule(s: Set<FactView>) -> Rule2 {
    |x: Pair, y: Pair, f: FactView|
        x.1 == y.0 && s.contains(person(y.1, Gender::Male)) && f == grandson(y.1, x.0)
}

proof fn lemma_grandson_drawn(facts: Seq<FactView>)
    ensures
        drawn2(
            parent_pairs(facts),
            parent_pairs(facts),
            parent_pairs(facts).len() as int,
            0,
            grandson_rule(facts.to_set()),
        ) == grandson_facts(facts.to_set()),
{
    let s = facts.to_set();
    let ps = parent_pairs(facts);
    let rule = grandson_rule(s);
    let n = ps.len() as int;
    let lhs = drawn2(ps, ps, n, 0, rule);
    let rhs = grandson_facts(s);
    assert forall|f: FactView| lhs.contains(f) <==> rhs.contains(f) by {
        if lhs.contains(f) {
            let (a, b) = choose|a: int, b: int|
                0 <= a < ps.len() && 0 <= b < ps.len() && (a < n || (a == n && b < 0))
                    && #[trigger] rule(ps[a], ps[b], f);
            assert(ps.contains(ps[a]));
            assert(ps.contains(ps[b]));
            lemma_parent_pairs(facts, ps[a].0, ps[a].1);
            lemma_parent_pairs(facts, ps[b].0, ps[b].1);
            assert(s.contains(parent(ps[a].0, ps[a].1)));
            assert(s.contains(parent(ps[a].1, ps[b].1)));
        }
        if rhs.contains(f) {
            if let FactView::Grandson { grandson: c, grandparent: g } = f {
                let p = choose|p: Name| s.contains(parent(g, p)) && s.contains(parent(p, c));
                lemma_parent_pairs(facts, g, p);
                lemma_parent_pairs(facts, p, c);
                let a = choose|a: int| 0 <= a < ps.len() && ps[a] == (g, p);
                let b = choose|b: int| 0 <= b < ps.len() && ps[b] == (p, c);
                assert(rule(ps[a], ps[b], f));
            }
        }
    }
    assert(lhs =~= rhs);
}

/// The grandson rule: for every `Parent(a, b)` and `Parent(b, c)` in `facts`
/// such that `facts` holds `Person(c, Male)`, adds `Grandson(c, a)`. Returns
/// whether `kb` gained a fact.
pub fn infer_grandson(facts: &Vec<Fact>, kb: &mut KnowledgeBase) -> (changed: bool)
    ensures
        final(kb)@ == old(kb)@.union(grandson_facts(fact_set(facts@))),
        changed == (final(kb)@ != old(kb)@),
{
    let parents = iter_parents(facts);
    let ghost base = kb@;
    let ghost s = fact_set(facts@);
    let ghost ps = parents.deep_view();
    let ghost rule = grandson_rule(s);
    let mut changed = false;
    let mut i: usize = 0;
    proof {
        lemma_drawn2_start(ps, ps, rule);
        assert(kb@ =~= base.union(drawn2(ps, ps, 0, 0, rule)));
    }
    while i < parents.len()
        invariant
            i <= parents.len(),
            ps == parents.deep_view(),
            s == fact_set(facts@),
            rule == grandson_rule(s),
            base.subset_of(kb@),
            kb@ == base.union(drawn2(ps, ps, i as int, 0, rule)),
            changed == (kb@ != base),
        decreases parents.len() - i,
    {
        let mut j: usize = 0;
        while j < parents.len()
            invariant
                i < parents.len(),
                j <= parents.len(),
                ps == parents.deep_view(),
                s == fact_set(facts@),
                rule == grandson_rule(s),
                base.subset_of(kb@),
                kb@ == base.union(drawn2(ps, ps, i as int, j as int, rule)),
                changed == (kb@ != base),
            decreases parents.len() - j,
        {
            let a = &parents[i].0;
            let b = &parents[i].1;
            let bb = &parents[j].0;
            let c = &parents[j].1;
            let ghost start = kb@;
            assert(ps[i as int] == (a@, b@));
            assert(ps[j as int] == (bb@, c@));
            if *b == *bb && person_in(facts, c, Gender::Male) {
                proof {
                    lemma_grown(base, kb@, grandson(c@, a@));
                }
                let added = kb.add_fact(
                    Fact::Grandson { grandson: c.clone(), grandparent: a.clone() },
                );
                changed = changed || added;
            }
            proof {
                lemma_drawn2_step(ps, ps, i as int, j as int, rule);
                assert(kb@ =~= start.union(fired2(ps[i as int], ps[j as int], rule)));
                assert(kb@ =~= base.union(drawn2(ps, ps, i as int, j + 1, rule)));
            }
            j += 1;
        }
        proof {
            lemma_drawn2_next_row(ps, ps, i as int, rule);
        }
        i += 1;
    }
    proof {
        lemma_grandson_drawn(views(facts@));
    }
    changed
}

impl Rule {
    /// Applies the rule: reads its premises from `facts` and adds its
    /// conclusions to `kb`. Returns whether `kb` gained a fact.
    pub fn apply(self, facts: &Vec<Fact>, kb: &mut KnowledgeBase) -> (changed: bool)
        ensures
            final(kb)@ == old(kb)@.union(self.conclusions(fact_set(facts@))),
            changed == (final(kb)@ != old(kb)@),
    {
        match self {
            Rule::FatherMother => infer_father_mother(facts, kb),
            Rule::Sibling => infer_sibling(facts, kb),
            Rule::Uncle => infer_uncle(facts, kb),
            Rule::Cousin => infer_cousin(facts, kb),
            Rule::Nibling => infer_nibling(facts, kb),
            Rule::Grandson => infer_grandson(facts, kb),
        }
    }
}

/// The rule set: the six rules in the order in which a pass applies them.
pub fn rule_set() -> (rules: [Rule; 6])
    ensures
        rules@ == rule_order(),
{
    let rules = [
        Rule::FatherMother,
        Rule::Sibling,
        Rule::Uncle,
        Rule::Cousin,
        Rule::Nibling,
        Rule::Grandson,
    ];
    assert(rules@ =~= rule_order());
    rules
}

} // verus!
