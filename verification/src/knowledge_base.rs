//! The knowledge base: a set of facts that only grows.

use crate::fact::{Fact, FactView, Gender};
use crate::hashing::{fact_hash, hash_of};
use std::collections::HashMap;
use vstd::prelude::*;
use vstd::std_specs::hash::group_hash_axioms;
use vstd::string::StringExecFns;

verus! {

broadcast use group_hash_axioms;

/// The views of a list of facts, in the order of the list.
pub open spec fn views(facts: Seq<Fact>) -> Seq<FactView> {
    facts.map_values(|f: Fact| f@)
}

/// The set of facts that a list states, whatever their order and however
/// often each is written.
pub open spec fn fact_set(facts: Seq<Fact>) -> Set<FactView> {
    views(facts).to_set()
}

/// A list of facts always states finitely many of them.
pub proof fn lemma_fact_set_finite(facts: Seq<Fact>)
    ensures
        fact_set(facts).finite(),
{
    vstd::seq_lib::seq_to_set_is_finite(views(facts));
}

/// Whether a list of facts states that `name` is a person of `gender`.
pub fn person_in(facts: &Vec<Fact>, name: &String, gender: Gender) -> (found: bool)
    ensures
        found == fact_set(facts@).contains(FactView::Person { name: name@, gender }),
{
    let ghost target = FactView::Person { name: name@, gender };
    let mut i: usize = 0;
    while i < facts.len()
        invariant
            i <= facts.len(),
            target == (FactView::Person { name: name@, gender }),
            forall|k: int| 0 <= k < i ==> facts[k]@ != target,
        decreases facts.len() - i,
    {
        if let Fact::Person { name: n, gender: g } = &facts[i] {
            if *n == *name && *g == gender {
                assert(views(facts@)[i as int] == target);
                return true;
            }
        }
        i += 1;
    }
    assert(!views(facts@).contains(target));
    false
}

/// A deduplicated, append-only collection of facts.
///
/// Its view is the set of facts it holds. No operation removes or alters a
/// fact once it is in. The facts are kept in a list, and an index files the
/// place of each under the hash of the fact, so that a fact is found by
/// its hash and not by reading the list.
pub struct KnowledgeBase {
    facts: Vec<Fact>,
    index: HashMap<u64, Vec<usize>>,
}

impl View for KnowledgeBase {
    type V = Set<FactView>;

    closed spec fn view(&self) -> Set<FactView> {
        fact_set(self.facts@)
    }
}

/// The index files place `i` under hash `h`.
spec fn filed(index: Map<u64, Vec<usize>>, h: u64, i: int) -> bool {
    index.contains_key(h) && exists|j: int| 0 <= j < index[h]@.len() && index[h]@[j] == i
}

/// The index files every place of the list under the hash of the fact
/// there, and files nothing else.
spec fn indexes(index: Map<u64, Vec<usize>>, facts: Seq<FactView>) -> bool {
    &&& forall|i: int| 0 <= i < facts.len() ==> #[trigger] filed(index, fact_hash(facts[i]), i)
    &&& forall|h: u64, j: int|
        index.contains_key(h) && 0 <= j < index[h]@.len() ==> {
            let i = #[trigger] index[h]@[j];
            i < facts.len() && fact_hash(facts[i as int]) == h
        }
}

/// A list that repeats nothing still repeats nothing when a fact that it
/// lacks is added, and then states that fact as well.
proof fn lemma_push_new(facts: Seq<FactView>, f: FactView)
    requires
        facts.no_duplicates(),
        !facts.contains(f),
    ensures
        facts.push(f).no_duplicates(),
        facts.push(f).to_set() == facts.to_set().insert(f),
{
    let grown = facts.push(f);
    assert forall|g: FactView| grown.to_set().contains(g) <==> facts.to_set().insert(f).contains(
        g,
    ) by {
        vstd::seq_lib::lemma_seq_contains_after_push(facts, f, g);
    }
    assert(grown.to_set() =~= facts.to_set().insert(f));
    assert forall|i: int, j: int|
        0 <= i < grown.len() && 0 <= j < grown.len() && i != j implies grown[i] != grown[j] by {
        if i < facts.len() {
            assert(facts.contains(facts[i]));
        }
        if j < facts.len() {
            assert(facts.contains(facts[j]));
        }
    }
}

/// Filing the place of a new fact under its hash, after the places filed
/// there before, gives the index of the longer list.
proof fn lemma_index_push(
    index: Map<u64, Vec<usize>>,
    facts: Seq<FactView>,
    f: FactView,
    places: Vec<usize>,
)
    requires
        indexes(index, facts),
        facts.len() <= usize::MAX,
        places@ == (if index.contains_key(fact_hash(f)) {
            index[fact_hash(f)]@
        } else {
            Seq::<usize>::empty()
        }).push(facts.len() as usize),
    ensures
        indexes(index.insert(fact_hash(f), places), facts.push(f)),
{
    let h = fact_hash(f);
    let grown = facts.push(f);
    let new_index = index.insert(h, places);
    let n = facts.len() as int;
    assert forall|i: int| 0 <= i < grown.len() implies #[trigger] filed(
        new_index,
        fact_hash(grown[i]),
        i,
    ) by {
        let hi = fact_hash(grown[i]);
        if i < n {
            assert(filed(index, fact_hash(facts[i]), i));
            let j = choose|j: int| 0 <= j < index[hi]@.len() && index[hi]@[j] == i;
            assert(new_index[hi]@[j] == i);
        } else {
            assert(new_index[h]@[places@.len() - 1] == i);
        }
    }
    assert forall|g: u64, j: int|
        new_index.contains_key(g) && 0 <= j < new_index[g]@.len() implies {
            let i = #[trigger] new_index[g]@[j];
            i < grown.len() && fact_hash(grown[i as int]) == g
        } by {
        if g == h {
            if j < places@.len() - 1 {
                assert(index[h]@[j] == new_index[g]@[j]);
            }
        } else {
            assert(index[g]@[j] == new_index[g]@[j]);
        }
    }
}

/// Whether the list holds `fact`, whose hash is `h`. Only the facts filed
/// under `h` are compared with it.
fn holds(facts: &Vec<Fact>, index: &HashMap<u64, Vec<usize>>, fact: &Fact, h: u64) -> (found: bool)
    requires
        indexes(index@, views(facts@)),
        h == fact_hash(fact@),
    ensures
        found == fact_set(facts@).contains(fact@),
{
    let ghost all = views(facts@);
    match index.get(&h) {
        None => {
            assert(!all.contains(fact@)) by {
                if all.contains(fact@) {
                    let i = choose|i: int| 0 <= i < all.len() && all[i] == fact@;
                    assert(filed(index@, fact_hash(all[i]), i));
                }
            }
            false
        },
        Some(places) => {
            let mut j: usize = 0;
            while j < places.len()
                invariant
                    j <= places.len(),
                    all == views(facts@),
                    index@.contains_key(h),
                    index@[h] == *places,
                    indexes(index@, all),
                    forall|k: int| 0 <= k < j ==> all[places@[k] as int] != fact@,
                decreases places.len() - j,
            {
                let i = places[j];
                assert(i == index@[h]@[j as int]);
                if facts[i] == *fact {
                    assert(all[i as int] == fact@);
                    return true;
                }
                j += 1;
            }
            assert(!all.contains(fact@)) by {
                if all.contains(fact@) {
                    let i = choose|i: int| 0 <= i < all.len() && all[i] == fact@;
                    assert(filed(index@, fact_hash(all[i]), i));
                    let k = choose|k: int| 0 <= k < places@.len() && places@[k] == i;
                    assert(all[places@[k] as int] == fact@);
                }
            }
            false
        },
    }
}

/// Adds a fact that the list lacks, whose hash is `h`, and files its place
/// in the index.
fn file(facts: &mut Vec<Fact>, index: &mut HashMap<u64, Vec<usize>>, fact: Fact, h: u64)
    requires
        h == fact_hash(fact@),
        views(old(facts)@).no_duplicates(),
        indexes(old(index)@, views(old(facts)@)),
        !views(old(facts)@).contains(fact@),
    ensures
        views(final(facts)@).no_duplicates(),
        indexes(final(index)@, views(final(facts)@)),
        fact_set(final(facts)@) == fact_set(old(facts)@).insert(fact@),
{
    let ghost old_views = views(facts@);
    let ghost old_index = index@;
    let ghost f = fact@;
    let place = facts.len();
    let mut places: Vec<usize> = match index.remove(&h) {
        Some(filed_before) => filed_before,
        None => Vec::new(),
    };
    places.push(place);
    let ghost new_places = places;
    index.insert(h, places);
    facts.push(fact);
    proof {
        assert(views(facts@) =~= old_views.push(f));
        assert(index@ =~= old_index.insert(h, new_places));
        lemma_push_new(old_views, f);
        lemma_index_push(old_index, old_views, f, new_places);
    }
}

impl KnowledgeBase {
    /// No fact is stored twice, and the index is that of the list.
    #[verifier::type_invariant]
    closed spec fn sound(&self) -> bool {
        &&& views(self.facts@).no_duplicates()
        &&& indexes(self.index@, views(self.facts@))
    }

    /// A knowledge base holds finitely many facts.
    pub proof fn lemma_finite(&self)
        ensures
            self@.finite(),
    {
        lemma_fact_set_finite(self.facts@);
    }

    /// An empty knowledge base.
    pub fn new() -> (kb: KnowledgeBase)
        ensures
            kb@ == Set::<FactView>::empty(),
    {
        let kb = KnowledgeBase { facts: Vec::new(), index: HashMap::new() };
        assert(fact_set(kb.facts@) =~= Set::<FactView>::empty());
        kb
    }

    /// The number of facts held.
    pub fn len(&self) -> (n: usize)
        ensures
            n == self@.len(),
    {
        proof {
            use_type_invariant(self);
            views(self.facts@).unique_seq_to_set();
        }
        self.facts.len()
    }

    /// The facts held, each once.
    pub fn facts(&self) -> (facts: &Vec<Fact>)
        ensures
            fact_set(facts@) == self@,
            views(facts@).no_duplicates(),
            facts@.len() == self@.len(),
    {
        proof {
            use_type_invariant(self);
            views(self.facts@).unique_seq_to_set();
        }
        &self.facts
    }

    /// Whether `fact` is held.
    pub fn contains(&self, fact: &Fact) -> (found: bool)
        ensures
            found == self@.contains(fact@),
    {
        proof {
            use_type_invariant(self);
        }
        holds(&self.facts, &self.index, fact, hash_of(fact))
    }

    /// Inserts `fact` unless it is already held, and tells whether the set
    /// changed.
    pub fn add_fact(&mut self, fact: Fact) -> (changed: bool)
        ensures
            changed == !old(self)@.contains(fact@),
            final(self)@ == old(self)@.insert(fact@),
            final(self)@.len() == old(self)@.len() + if changed { 1nat } else { 0nat },
    {
        proof {
            use_type_invariant(&*self);
            lemma_fact_set_finite(self.facts@);
        }
        let h = hash_of(&fact);
        if holds(&self.facts, &self.index, &fact, h) {
            assert(self@.insert(fact@) =~= self@);
            return false;
        }
        let mut taken = KnowledgeBase::new();
        proof {
            use_type_invariant(&taken);
        }
        core::mem::swap(self, &mut taken);
        let KnowledgeBase { mut facts, mut index } = taken;
        file(&mut facts, &mut index, fact, h);
        *self = KnowledgeBase { facts, index };
        true
    }

    /// Whether a `Person` fact with exactly this name and gender is held.
    /// A name that was never declared is no error: the answer is `false`.
    pub fn has_person(&self, name: &str, gender: Gender) -> (found: bool)
        ensures
            found == self@.contains(FactView::Person { name: name@, gender }),
    {
        self.contains(&Fact::Person { name: String::from_str(name), gender })
    }
}

impl Default for KnowledgeBase {
    /// An empty knowledge base.
    fn default() -> (kb: KnowledgeBase)
        ensures
            kb@ == Set::<FactView>::empty(),
    {
        KnowledgeBase::new()
    }
}

/// A copy of every fact held at the moment of the call. Facts added to the
/// knowledge base afterwards do not show in it.
pub fn snapshot(kb: &KnowledgeBase) -> (facts: Vec<Fact>)
    ensures
        fact_set(facts@) == kb@,
        views(facts@).no_duplicates(),
        facts@.len() == kb@.len(),
{
    proof {
        use_type_invariant(kb);
        views(kb.facts@).unique_seq_to_set();
    }
    let mut facts: Vec<Fact> = Vec::new();
    let mut i: usize = 0;
    while i < kb.facts.len()
        invariant
            i <= kb.facts.len(),
            facts@.len() == i,
            forall|k: int| 0 <= k < i ==> facts[k]@ == kb.facts[k]@,
        decreases kb.facts.len() - i,
    {
        facts.push(kb.facts[i].clone());
        i += 1;
    }
    assert(views(facts@) =~= views(kb.facts@));
    facts
}

} // verus!
