//! Questions put to a knowledge base. They read what is held at the moment
//! of the call: to have every son and grandson that the rules can conclude,
//! saturate the knowledge base first.

use crate::fact::{Fact, FactView, Gender, Name};
use crate::filtering::{lemma_filter_map_distinct, lemma_filter_map_keeps};
use crate::knowledge_base::{person_in, views, KnowledgeBase};
use crate::model::{father, grandson, person};
use vstd::prelude::*;
use vstd::string::StringExecFns;

verus! {

/// The sons of `x` according to `s`: each `c` with `Father(x, c)` and
/// `Person(c, Male)` in `s`.
pub open spec fn sons(s: Set<FactView>, x: Name) -> Set<Name> {
    Set::new(|c: Name| s.contains(father(x, c)) && s.contains(person(c, Gender::Male)))
}

/// The grandsons of `x` according to `s`: each `g` with `Grandson(g, x)` in
/// `s`.
pub open spec fn grandsons(s: Set<FactView>, x: Name) -> Set<Name> {
    Set::new(|g: Name| s.contains(grandson(g, x)))
}

spec fn son_selector(s: Set<FactView>, x: Name) -> spec_fn(FactView) -> Option<Name> {
    |f: FactView|
        match f {
            FactView::Father { father, child } => if father == x && s.contains(
                person(child, Gender::Male),
            ) {
                Some(child)
            } else {
                None
            },
            _ => None,
        }
}

spec fn grandson_selector(x: Name) -> spec_fn(FactView) -> Option<Name> {
    |f: FactView|
        match f {
            FactView::Grandson { grandson, grandparent } => if grandparent == x {
                Some(grandson)
            } else {
                None
            },
            _ => None,
        }
}

/// The names of the sons of `parent_name`: every `c` for which `kb` holds
/// both `Father(parent_name, c)` and `Person(c, Male)`, each once, in no
/// particular order. Empty when there is none.
pub fn sons_of(kb: &KnowledgeBase, parent_name: &str) -> (found: Vec<String>)
    ensures
        found.deep_view().to_set() == sons(kb@, parent_name@),
        found.deep_view().no_duplicates(),
{
    let key = String::from_str(parent_name);
    let facts = kb.facts();
    let ghost all = views(facts@);
    let ghost pick = son_selector(kb@, key@);
    let mut found: Vec<String> = Vec::new();
    let mut i: usize = 0;
    assert(all.take(0).filter_map(pick) =~= Seq::<Name>::empty());
    while i < facts.len()
        invariant
            i <= facts.len(),
            all == views(facts@),
            all.to_set() == kb@,
            pick == son_selector(kb@, key@),
            found.deep_view() =~= all.take(i as int).filter_map(pick),
        decreases facts.len() - i,
    {
        let ghost before = found.deep_view();
        if let Fact::Father { father, child } = &facts[i] {
            if *father == key && person_in(facts, child, Gender::Male) {
                found.push(child.clone());
                assert(found.deep_view() =~= before + seq![child@]);
            }
        }
        proof {
            all.lemma_filter_map_take_succ(pick, i as int);
        }
        i += 1;
    }
    proof {
        assert(all.take(facts.len() as int) =~= all);
        lemma_filter_map_distinct(all, pick);
        let out = all.filter_map(pick);
        assert forall|c: Name| out.to_set().contains(c) <==> sons(kb@, key@).contains(c) by {
            if out.contains(c) {
                all.lemma_filter_map_contains(pick, c);
            }
            if sons(kb@, key@).contains(c) {
                assert(all.contains(father(key@, c)));
                lemma_filter_map_keeps(all, pick, father(key@, c), c);
            }
        }
        assert(out.to_set() =~= sons(kb@, key@));
    }
    found
}

/// The names of the grandsons of `grandparent_name`: every `g` for which
/// `kb` holds `Grandson(g, grandparent_name)`, each once, in no particular
/// order. Empty when there is none.
pub fn grandsons_of(kb: &KnowledgeBase, grandparent_name: &str) -> (found: Vec<String>)
    ensures
        found.deep_view().to_set() == grandsons(kb@, grandparent_name@),
        found.deep_view().no_duplicates(),
{
    let key = String::from_str(grandparent_name);
    let facts = kb.facts();
    let ghost all = views(facts@);
    let ghost pick = grandson_selector(key@);
    let mut found: Vec<String> = Vec::new();
    let mut i: usize = 0;
    assert(all.take(0).filter_map(pick) =~= Seq::<Name>::empty());
    while i < facts.len()
        invariant
            i <= facts.len(),
            all == views(facts@),
            pick == grandson_selector(key@),
            found.deep_view() =~= all.take(i as int).filter_map(pick),
        decreases facts.len() - i,
    {
        let ghost before = found.deep_view();
        if let Fact::Grandson { grandson, grandparent } = &facts[i] {
            if *grandparent == key {
                found.push(grandson.clone());
                assert(found.deep_view() =~= before + seq![grandson@]);
            }
        }
        proof {
            all.lemma_filter_map_take_succ(pick, i as int);
        }
        i += 1;
    }
    proof {
        assert(all.take(facts.len() as int) =~= all);
        lemma_filter_map_distinct(all, pick);
        let out = all.filter_map(pick);
        assert forall|g: Name| out.to_set().contains(g) <==> grandsons(kb@, key@).contains(g) by {
            if out.contains(g) {
                all.lemma_filter_map_contains(pick, g);
            }
            if grandsons(kb@, key@).contains(g) {
                assert(all.contains(grandson(g, key@)));
                lemma_filter_map_keeps(all, pick, grandson(g, key@), g);
            }
        }
        assert(out.to_set() =~= grandsons(kb@, key@));
    }
    found
}

} // verus!
