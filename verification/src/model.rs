//! The rules as mathematics: what each rule concludes from a set of facts,
//! what one pass adds, and when a set is saturated.

use crate::fact::{FactView, Gender, Name};
use vstd::prelude::*;

verus! {

/// `name` is a person of `gender`.
pub open spec fn person(name: Name, gender: Gender) -> FactView {
    FactView::Person { name, gender }
}

/// `parent` is a parent of `child`.
pub open spec fn parent(parent: Name, child: Name) -> FactView {
    FactView::Parent { parent, child }
}

/// `father` is the father of `child`.
pub open spec fn father(father: Name, child: Name) -> FactView {
    FactView::Father { father, child }
}

/// `mother` is the mother of `child`.
pub open spec fn mother(mother: Name, child: Name) -> FactView {
    FactView::Mother { mother, child }
}

/// `a` is a sibling of `b`.
pub open spec fn sibling(a: Name, b: Name) -> FactView {
    FactView::Sibling { a, b }
}

/// `uncle` is an uncle of `nibling`.
pub open spec fn uncle(uncle: Name, nibling: Name) -> FactView {
    FactView::Uncle { uncle, nibling }
}

/// `a` is a cousin of `b`.
pub open spec fn cousin(a: Name, b: Name) -> FactView {
    FactView::Cousin { a, b }
}

/// `nibling` is a nephew or niece of `relative`.
pub open spec fn nibling(nibling: Name, relative: Name) -> FactView {
    FactView::Nibling { nibling, relative }
}

/// `grandson` is a grandson of `grandparent`.
pub open spec fn grandson(grandson: Name, grandparent: Name) -> FactView {
    FactView::Grandson { grandson, grandparent }
}

/// Father and mother: a parent who is a male person is a father, a parent
/// who is a female person is a mother.
pub open spec fn father_mother_facts(s: Set<FactView>) -> Set<FactView> {
    Set::new(
        |f: FactView|
            match f {
                FactView::Father { father, child } => s.contains(parent(father, child))
                    && s.contains(person(father, Gender::Male)),
                FactView::Mother { mother, child } => s.contains(parent(mother, child))
                    && s.contains(person(mother, Gender::Female)),
                _ => false,
            },
    )
}

/// Sibling: two different children of one parent are siblings of each
/// other, in both orders.
pub open spec fn sibling_facts(s: Set<FactView>) -> Set<FactView> {
    Set::new(
        |f: FactView|
            f matches FactView::Sibling { a, b } && a != b && exists|p: Name|
                #![trigger s.contains(parent(p, a))]
                #![trigger s.contains(parent(p, b))]
                s.contains(parent(p, a)) && s.contains(parent(p, b)),
    )
}

/// Uncle: a male sibling of somebody's parent is that child's uncle.
pub open spec fn uncle_facts(s: Set<FactView>) -> Set<FactView> {
    Set::new(
        |f: FactView|
            f matches FactView::Uncle { uncle, nibling } && s.contains(
                person(uncle, Gender::Male),
            ) && exists|p: Name|
                #![trigger s.contains(sibling(uncle, p))]
                #![trigger s.contains(parent(p, nibling))]
                s.contains(sibling(uncle, p)) && s.contains(parent(p, nibling)),
    )
}

/// Cousin: two different children of two siblings are cousins of each
/// other, in both orders.
pub open spec fn cousin_facts(s: Set<FactView>) -> Set<FactView> {
    Set::new(
        |f: FactView|
            f matches FactView::Cousin { a, b } && a != b && exists|p: Name, q: Name|
                #![trigger s.contains(sibling(p, q)), s.contains(parent(p, a))]
                #![trigger s.contains(sibling(p, q)), s.contains(parent(p, b))]
                s.contains(sibling(p, q)) && ((s.contains(parent(p, a)) && s.contains(parent(q, b)))
                    || (s.contains(parent(p, b)) && s.contains(parent(q, a)))),
    )
}

/// Nibling: a child of somebody's sibling is that somebody's nephew or
/// niece.
pub open spec fn nibling_facts(s: Set<FactView>) -> Set<FactView> {
    Set::new(
        |f: FactView|
            f matches FactView::Nibling { nibling, relative } && exists|p: Name|
                #![trigger s.contains(sibling(relative, p))]
                #![trigger s.contains(parent(p, nibling))]
                s.contains(sibling(relative, p)) && s.contains(parent(p, nibling)),
    )
}

/// Grandson: a male person who is a child of a child is a grandson.
pub open spec fn grandson_facts(s: Set<FactView>) -> Set<FactView> {
    Set::new(
        |f: FactView|
            f matches FactView::Grandson { grandson, grandparent } && s.contains(
                person(grandson, Gender::Male),
            ) && exists|p: Name|
                #![trigger s.contains(parent(grandparent, p))]
                #![trigger s.contains(parent(p, grandson))]
                s.contains(parent(grandparent, p)) && s.contains(parent(p, grandson)),
    )
}

/// A rule of the engine.
#[derive(Clone, Copy, Debug, PartialEq, Eq, Hash, Structural)]
pub enum Rule {
    FatherMother,
    Sibling,
    Uncle,
    Cousin,
    Nibling,
    Grandson,
}

impl Rule {
    /// What the rule concludes from `s`.
    pub open spec fn conclusions(self, s: Set<FactView>) -> Set<FactView> {
        match self {
            Rule::FatherMother => father_mother_facts(s),
            Rule::Sibling => sibling_facts(s),
            Rule::Uncle => uncle_facts(s),
            Rule::Cousin => cousin_facts(s),
            Rule::Nibling => nibling_facts(s),
            Rule::Grandson => grandson_facts(s),
        }
    }
}

/// The rules in the order in which a pass applies them.
pub open spec fn rule_order() -> Seq<Rule> {
    seq![
        Rule::FatherMother,
        Rule::Sibling,
        Rule::Uncle,
        Rule::Cousin,
        Rule::Nibling,
        Rule::Grandson,
    ]
}

/// What the first `n` rules of `rules` conclude from `s`, taken together.
pub open spec fn concluded(rules: Seq<Rule>, n: int, s: Set<FactView>) -> Set<FactView> {
    Set::new(
        |f: FactView|
            exists|i: int|
                0 <= i < n && i < rules.len() && #[trigger] rules[i].conclusions(s).contains(f),
    )
}

/// Everything that the six rules conclude from `s`.
pub open spec fn consequences(s: Set<FactView>) -> Set<FactView> {
    father_mother_facts(s).union(sibling_facts(s)).union(uncle_facts(s)).union(
        cousin_facts(s),
    ).union(nibling_facts(s)).union(grandson_facts(s))
}

/// The facts after one pass over `s`: `s` itself and everything the rules
/// conclude from it. Conclusions drawn within the pass are not premises of
/// the same pass.
pub open spec fn pass(s: Set<FactView>) -> Set<FactView> {
    s.union(consequences(s))
}

/// The facts after `k` passes, starting from `s`.
pub open spec fn after_passes(s: Set<FactView>, k: nat) -> Set<FactView>
    decreases k,
{
    if k == 0 {
        s
    } else {
        pass(after_passes(s, (k - 1) as nat))
    }
}

/// No rule concludes anything from `s` that `s` lacks.
pub open spec fn saturated(s: Set<FactView>) -> bool {
    consequences(s).subset_of(s)
}

/// The passes from `s` reach a saturated set after exactly `k` of them: `k`
/// passes give a saturated set and fewer do not.
pub open spec fn saturates_after(s: Set<FactView>, k: nat) -> bool {
    &&& saturated(after_passes(s, k))
    &&& forall|j: nat| j < k ==> !saturated(#[trigger] after_passes(s, j))
}

/// The saturation of `s`: the facts that every saturated set holding `s`
/// holds.
pub open spec fn saturation(s: Set<FactView>) -> Set<FactView> {
    Set::new(
        |f: FactView|
            forall|t: Set<FactView>| s.subset_of(t) && #[trigger] saturated(t) ==> t.contains(f),
    )
}

} // verus!
