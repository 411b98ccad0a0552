//! What holds of the rules and of saturation, proved over the model.

use crate::fact::{FactView, Gender, Name};
use crate::model::{
    after_passes, concluded, consequences, cousin, cousin_facts, father, father_mother_facts,
    grandson, grandson_facts, nibling_facts, parent, pass, person, rule_order, saturated,
    saturates_after, saturation, sibling, sibling_facts, uncle_facts, Rule,
};
use crate::query::{grandsons, sons};
use vstd::prelude::*;

verus! {

/// More premises never mean fewer conclusions.
pub proof fn lemma_consequences_monotonic(s: Set<FactView>, t: Set<FactView>)
    requires
        s.subset_of(t),
    ensures
        father_mother_facts(s).subset_of(father_mother_facts(t)),
        sibling_facts(s).subset_of(sibling_facts(t)),
        uncle_facts(s).subset_of(uncle_facts(t)),
        cousin_facts(s).subset_of(cousin_facts(t)),
        nibling_facts(s).subset_of(nibling_facts(t)),
        grandson_facts(s).subset_of(grandson_facts(t)),
        consequences(s).subset_of(consequences(t)),
        pass(s).subset_of(pass(t)),
{
    assert forall|f: FactView| sibling_facts(s).contains(f) implies sibling_facts(t).contains(
        f,
    ) by {
        if let FactView::Sibling { a, b } = f {
            let p = choose|p: Name| s.contains(parent(p, a)) && s.contains(parent(p, b));
            assert(t.contains(parent(p, a)) && t.contains(parent(p, b)));
        }
    }
    assert forall|f: FactView| uncle_facts(s).contains(f) implies uncle_facts(t).contains(f) by {
        if let FactView::Uncle { uncle, nibling } = f {
            let p = choose|p: Name|
                s.contains(sibling(uncle, p)) && s.contains(parent(p, nibling));
            assert(t.contains(sibling(uncle, p)) && t.contains(parent(p, nibling)));
        }
    }
    assert forall|f: FactView| cousin_facts(s).contains(f) implies cousin_facts(t).contains(f) by {
        if let FactView::Cousin { a, b } = f {
            let (p, q) = choose|p: Name, q: Name|
                s.contains(sibling(p, q)) && ((s.contains(parent(p, a)) && s.contains(
                    parent(q, b),
                )) || (s.contains(parent(p, b)) && s.contains(parent(q, a))));
            assert(t.contains(sibling(p, q)) && ((t.contains(parent(p, a)) && t.contains(
                parent(q, b),
            )) || (t.contains(parent(p, b)) && t.contains(parent(q, a)))));
        }
    }
    assert forall|f: FactView| nibling_facts(s).contains(f) implies nibling_facts(t).contains(
        f,
    ) by {
        if let FactView::Nibling { nibling, relative } = f {
            let p = choose|p: Name|
                s.contains(sibling(relative, p)) && s.contains(parent(p, nibling));
            assert(t.contains(sibling(relative, p)) && t.contains(parent(p, nibling)));
        }
    }
    assert forall|f: FactView| grandson_facts(s).contains(f) implies grandson_facts(t).contains(
        f,
    ) by {
        if let FactView::Grandson { grandson, grandparent } = f {
            let p = choose|p: Name|
                s.contains(parent(grandparent, p)) && s.contains(parent(p, grandson));
            assert(t.contains(parent(grandparent, p)) && t.contains(parent(p, grandson)));
        }
    }
}

/// The rule order names every rule.
pub proof fn lemma_rule_order_complete()
    ensures
        forall|r: Rule| rule_order().contains(r),
{
    let order = rule_order();
    assert forall|r: Rule| order.contains(r) by {
        match r {
            Rule::FatherMother => assert(order[0] == r),
            Rule::Sibling => assert(order[1] == r),
            Rule::Uncle => assert(order[2] == r),
            Rule::Cousin => assert(order[3] == r),
            Rule::Nibling => assert(order[4] == r),
            Rule::Grandson => assert(order[5] == r),
        }
    }
}

/// Within a pass the order of the rules does not matter: any list that
/// names every rule concludes, taken together, the consequences of `s`.
pub proof fn lemma_rule_order_irrelevant(rules: Seq<Rule>, s: Set<FactView>)
    requires
        forall|r: Rule| rules.contains(r),
    ensures
        concluded(rules, rules.len() as int, s) == consequences(s),
{
    let all = concluded(rules, rules.len() as int, s);
    assert forall|f: FactView| all.contains(f) <==> consequences(s).contains(f) by {
        if consequences(s).contains(f) {
            let r = if father_mother_facts(s).contains(f) {
                Rule::FatherMother
            } else if sibling_facts(s).contains(f) {
                Rule::Sibling
            } else if uncle_facts(s).contains(f) {
                Rule::Uncle
            } else if cousin_facts(s).contains(f) {
                Rule::Cousin
            } else if nibling_facts(s).contains(f) {
                Rule::Nibling
            } else {
                Rule::Grandson
            };
            assert(rules.contains(r));
            let i = choose|i: int| 0 <= i < rules.len() && rules[i] == r;
            assert(rules[i].conclusions(s).contains(f));
        }
    }
    assert(all =~= consequences(s));
}

/// The saturation of `s` lies within every saturated set that holds `s`.
pub proof fn lemma_saturation_least(s: Set<FactView>, t: Set<FactView>)
    requires
        s.subset_of(t),
        saturated(t),
    ensures
        saturation(s).subset_of(t),
{
}

/// The saturation of `s` holds `s`.
pub proof fn lemma_saturation_holds_start(s: Set<FactView>)
    ensures
        s.subset_of(saturation(s)),
{
}

/// One pass over a part of the saturation of `s` stays within it.
pub proof fn lemma_pass_within_saturation(s: Set<FactView>, part: Set<FactView>)
    requires
        part.subset_of(saturation(s)),
    ensures
        pass(part).subset_of(saturation(s)),
{
    assert forall|f: FactView| consequences(part).contains(f) implies saturation(s).contains(
        f,
    ) by {
        assert forall|t: Set<FactView>|
            s.subset_of(t) && #[trigger] saturated(t) implies t.contains(f) by {
            lemma_saturation_least(s, t);
            lemma_consequences_monotonic(part, t);
        }
    }
}

/// The saturation of `s` is saturated.
pub proof fn lemma_saturation_saturated(s: Set<FactView>)
    ensures
        saturated(saturation(s)),
{
    lemma_pass_within_saturation(s, saturation(s));
}

/// Fixpoint stability: a saturated set is its own saturation.
pub proof fn lemma_saturated_is_fixpoint(s: Set<FactView>)
    requires
        saturated(s),
    ensures
        saturation(s) == s,
        pass(s) == s,
{
    lemma_saturation_least(s, s);
    assert(saturation(s) =~= s);
    assert(pass(s) =~= s);
}

/// Saturating twice is saturating once.
pub proof fn lemma_saturation_idempotent(s: Set<FactView>)
    ensures
        saturation(saturation(s)) == saturation(s),
{
    lemma_saturation_saturated(s);
    lemma_saturated_is_fixpoint(saturation(s));
}

/// Monotonicity: no pass loses a fact.
pub proof fn lemma_passes_grow(s: Set<FactView>, j: nat, k: nat)
    requires
        j <= k,
    ensures
        after_passes(s, j).subset_of(after_passes(s, k)),
        after_passes(s, k).subset_of(after_passes(s, k + 1)),
    decreases k,
{
    if j < k {
        lemma_passes_grow(s, j, (k - 1) as nat);
    }
}

/// Every pass stays within the saturation.
pub proof fn lemma_passes_within_saturation(s: Set<FactView>, k: nat)
    ensures
        after_passes(s, k).subset_of(saturation(s)),
    decreases k,
{
    if k > 0 {
        lemma_passes_within_saturation(s, (k - 1) as nat);
        lemma_pass_within_saturation(s, after_passes(s, (k - 1) as nat));
    }
}

/// Once the passes reach a saturated set, that set is the saturation.
pub proof fn lemma_saturated_pass_is_saturation(s: Set<FactView>, k: nat)
    requires
        saturated(after_passes(s, k)),
    ensures
        after_passes(s, k) == saturation(s),
{
    lemma_passes_within_saturation(s, k);
    lemma_passes_grow(s, 0, k);
    lemma_saturation_least(s, after_passes(s, k));
    assert(after_passes(s, k) =~= saturation(s));
}

/// A fact of the saturation is a fact of the start or a conclusion from the
/// saturation.
pub proof fn lemma_saturation_unfold(s: Set<FactView>)
    ensures
        saturation(s) == s.union(consequences(saturation(s))),
{
    let sat = saturation(s);
    let t = s.union(consequences(sat));
    lemma_saturation_saturated(s);
    assert(t.subset_of(sat));
    lemma_consequences_monotonic(t, sat);
    assert(saturated(t));
    lemma_saturation_least(s, t);
    assert(sat =~= t);
}

/// Idempotence of insertion: once `f` has been inserted it is held, so that
/// inserting it again changes nothing; and inserting a fact that was not
/// held makes the set larger by exactly one.
pub proof fn lemma_insertion_idempotent(s: Set<FactView>, f: FactView)
    requires
        s.finite(),
    ensures
        s.insert(f).contains(f),
        s.insert(f).insert(f) == s.insert(f),
        !s.contains(f) ==> s.insert(f).insert(f).len() == s.len() + 1,
        s.contains(f) ==> s.insert(f).insert(f).len() == s.len(),
{
    assert(s.insert(f).insert(f) =~= s.insert(f));
    if s.contains(f) {
        assert(s.insert(f) =~= s);
    }
}

/// The rules conclude no `Person` and no `Parent` fact: the saturation of
/// `s` holds exactly those of `s`.
pub proof fn lemma_seeds_unchanged(s: Set<FactView>, f: FactView)
    requires
        f is Person || f is Parent,
    ensures
        saturation(s).contains(f) <==> s.contains(f),
{
    lemma_saturation_unfold(s);
}

/// Symmetry of siblings: if the saturation of `s` holds `Sibling(a, b)` and
/// `s` did not, so that a rule concluded it, the saturation holds
/// `Sibling(b, a)` too.
pub proof fn lemma_derived_sibling_symmetric(s: Set<FactView>, a: Name, b: Name)
    requires
        saturation(s).contains(sibling(a, b)),
        !s.contains(sibling(a, b)),
    ensures
        saturation(s).contains(sibling(b, a)),
{
    let sat = saturation(s);
    lemma_saturation_unfold(s);
    lemma_saturation_saturated(s);
    assert(sibling_facts(sat).contains(sibling(a, b)));
    let p = choose|p: Name| sat.contains(parent(p, a)) && sat.contains(parent(p, b));
    assert(sat.contains(parent(p, b)) && sat.contains(parent(p, a)));
    assert(sibling_facts(sat).contains(sibling(b, a)));
}

/// Symmetry of cousins: if the saturation of `s` holds `Cousin(a, b)` and
/// `s` did not, so that a rule concluded it, the saturation holds
/// `Cousin(b, a)` too.
pub proof fn lemma_derived_cousin_symmetric(s: Set<FactView>, a: Name, b: Name)
    requires
        saturation(s).contains(cousin(a, b)),
        !s.contains(cousin(a, b)),
    ensures
        saturation(s).contains(cousin(b, a)),
{
    let sat = saturation(s);
    lemma_saturation_unfold(s);
    lemma_saturation_saturated(s);
    assert(cousin_facts(sat).contains(cousin(a, b)));
    let (p, q) = choose|p: Name, q: Name|
        sat.contains(sibling(p, q)) && ((sat.contains(parent(p, a)) && sat.contains(parent(q, b)))
            || (sat.contains(parent(p, b)) && sat.contains(parent(q, a))));
    assert(exists|p: Name, q: Name|
        #![trigger sat.contains(sibling(p, q)), sat.contains(parent(p, b))]
        #![trigger sat.contains(sibling(p, q)), sat.contains(parent(p, a))]
        sat.contains(sibling(p, q)) && ((sat.contains(parent(p, b)) && sat.contains(parent(q, a)))
            || (sat.contains(parent(p, a)) && sat.contains(parent(q, b)))));
    if sat.contains(parent(p, a)) && sat.contains(parent(q, b)) {
        assert(sat.contains(sibling(p, q)) && sat.contains(parent(p, a)));
    } else {
        assert(sat.contains(sibling(p, q)) && sat.contains(parent(p, b)));
    }
    assert(cousin(b, a) matches FactView::Cousin { a: x, b: y } && x == b && y == a);
    assert(cousin_facts(sat).contains(cousin(b, a)));
}

/// Symmetry after saturation: where `s` holds each of its `Sibling` and
/// `Cousin` facts in both orders, as it does when it holds none, so does
/// its saturation.
pub proof fn lemma_saturation_symmetric(s: Set<FactView>)
    requires
        forall|a: Name, b: Name| #[trigger] s.contains(sibling(a, b)) ==> s.contains(sibling(b, a)),
        forall|a: Name, b: Name| #[trigger] s.contains(cousin(a, b)) ==> s.contains(cousin(b, a)),
    ensures
        forall|a: Name, b: Name| #[trigger]
            saturation(s).contains(sibling(a, b)) ==> saturation(s).contains(sibling(b, a)),
        forall|a: Name, b: Name| #[trigger]
            saturation(s).contains(cousin(a, b)) ==> saturation(s).contains(cousin(b, a)),
{
    assert forall|a: Name, b: Name| #[trigger]
        saturation(s).contains(sibling(a, b)) implies saturation(s).contains(sibling(b, a)) by {
        if s.contains(sibling(a, b)) {
            assert(s.contains(sibling(b, a)));
        } else {
            lemma_derived_sibling_symmetric(s, a, b);
        }
    }
    assert forall|a: Name, b: Name| #[trigger]
        saturation(s).contains(cousin(a, b)) implies saturation(s).contains(cousin(b, a)) by {
        if s.contains(cousin(a, b)) {
            assert(s.contains(cousin(b, a)));
        } else {
            lemma_derived_cousin_symmetric(s, a, b);
        }
    }
}

/// Gender gating: where `s` does not hold `Person(p, Male)`, whatever else
/// it says of `p`, no `Father(p, c)` that `s` lacks is in its saturation,
/// nor in what any number of passes gives.
pub proof fn lemma_gender_gating(s: Set<FactView>, p: Name, c: Name)
    requires
        !s.contains(person(p, Gender::Male)),
        !s.contains(father(p, c)),
    ensures
        !saturation(s).contains(father(p, c)),
        forall|k: nat| !(#[trigger] after_passes(s, k)).contains(father(p, c)),
{
    lemma_saturation_unfold(s);
    lemma_seeds_unchanged(s, person(p, Gender::Male));
    assert forall|k: nat| !(#[trigger] after_passes(s, k)).contains(father(p, c)) by {
        lemma_passes_within_saturation(s, k);
    }
}

/// The empty set is saturated: it is its own saturation, reached after no
/// pass.
pub proof fn lemma_empty_is_saturated()
    ensures
        saturated(Set::<FactView>::empty()),
        saturation(Set::<FactView>::empty()) == Set::<FactView>::empty(),
        saturates_after(Set::<FactView>::empty(), 0),
{
    let e = Set::<FactView>::empty();
    assert(consequences(e) =~= e);
    lemma_saturated_is_fixpoint(e);
}

/// Whether `s` holds only what is given and never concluded: `Person` and
/// `Parent` facts.
pub open spec fn seeds_only(s: Set<FactView>) -> bool {
    forall|f: FactView| s.contains(f) ==> f is Person || f is Parent
}

/// The sons after saturation: starting from `Person` and `Parent` facts
/// only, the sons of `x` are the male children of `x`, provided `x` is male.
pub proof fn lemma_sons_after_saturation(s: Set<FactView>, x: Name)
    requires
        seeds_only(s),
    ensures
        sons(saturation(s), x) == Set::new(
            |c: Name|
                s.contains(parent(x, c)) && s.contains(person(x, Gender::Male)) && s.contains(
                    person(c, Gender::Male),
                ),
        ),
{
    let sat = saturation(s);
    let expected = Set::new(
        |c: Name|
            s.contains(parent(x, c)) && s.contains(person(x, Gender::Male)) && s.contains(
                person(c, Gender::Male),
            ),
    );
    lemma_saturation_unfold(s);
    assert forall|c: Name| sons(sat, x).contains(c) <==> expected.contains(c) by {
        lemma_seeds_unchanged(s, parent(x, c));
        lemma_seeds_unchanged(s, person(x, Gender::Male));
        lemma_seeds_unchanged(s, person(c, Gender::Male));
        if expected.contains(c) {
            assert(father_mother_facts(sat).contains(father(x, c)));
        }
        if sons(sat, x).contains(c) {
            assert(!s.contains(father(x, c)));
            assert(father_mother_facts(sat).contains(father(x, c)));
        }
    }
    assert(sons(sat, x) =~= expected);
}

/// The grandsons after saturation: starting from `Person` and `Parent`
/// facts only, the grandsons of `x` are the male children of the children
/// of `x`.
pub proof fn lemma_grandsons_after_saturation(s: Set<FactView>, x: Name)
    requires
        seeds_only(s),
    ensures
        grandsons(saturation(s), x) == Set::new(
            |g: Name|
                s.contains(person(g, Gender::Male)) && exists|m: Name|
                    #![trigger s.contains(parent(x, m))]
                    #![trigger s.contains(parent(m, g))]
                    s.contains(parent(x, m)) && s.contains(parent(m, g)),
        ),
{
    let sat = saturation(s);
    let expected = Set::new(
        |g: Name|
            s.contains(person(g, Gender::Male)) && exists|m: Name|
                #![trigger s.contains(parent(x, m))]
                #![trigger s.contains(parent(m, g))]
                s.contains(parent(x, m)) && s.contains(parent(m, g)),
    );
    lemma_saturation_unfold(s);
    assert forall|g: Name| grandsons(sat, x).contains(g) <==> expected.contains(g) by {
        lemma_seeds_unchanged(s, person(g, Gender::Male));
        if expected.contains(g) {
            let m = choose|m: Name| s.contains(parent(x, m)) && s.contains(parent(m, g));
            assert(sat.contains(parent(x, m)) && sat.contains(parent(m, g)));
            assert(grandson_facts(sat).contains(grandson(g, x)));
        }
        if grandsons(sat, x).contains(g) {
            assert(!s.contains(grandson(g, x)));
            assert(grandson_facts(sat).contains(grandson(g, x)));
            let m = choose|m: Name| sat.contains(parent(x, m)) && sat.contains(parent(m, g));
            lemma_seeds_unchanged(s, parent(x, m));
            lemma_seeds_unchanged(s, parent(m, g));
            assert(s.contains(parent(x, m)) && s.contains(parent(m, g)));
        }
    }
    assert(grandsons(sat, x) =~= expected);
}

} // verus!
