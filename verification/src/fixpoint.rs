//! The driver: passes over the knowledge base until a pass adds nothing.

use crate::bound::{lemma_pass_within_universe, lemma_universe_finite, universe};
use crate::fact::FactView;
use crate::knowledge_base::{fact_set, snapshot, KnowledgeBase};
use crate::laws::{
    lemma_passes_grow, lemma_rule_order_complete, lemma_rule_order_irrelevant,
    lemma_saturated_is_fixpoint, lemma_saturated_pass_is_saturation,
};
use crate::model::{
    after_passes, concluded, pass, rule_order, saturated, saturates_after, saturation,
};
use crate::rules::rule_set;
use vstd::prelude::*;

verus! {

/// One pass: takes a snapshot of `kb` and applies the rules of the rule set
/// to it, in their order, adding every conclusion to `kb`. All rules read the
/// same snapshot, so no rule sees what an earlier rule of the pass concluded.
/// Returns whether `kb` gained a fact, which it does exactly when it was not
/// saturated.
pub fn infer_pass(kb: &mut KnowledgeBase) -> (changed: bool)
    ensures
        final(kb)@ == pass(old(kb)@),
        old(kb)@.subset_of(final(kb)@),
        changed == (final(kb)@ != old(kb)@),
        changed == !saturated(old(kb)@),
{
    let ghost base = kb@;
    let facts = snapshot(kb);
    let rules = rule_set();
    let mut changed = false;
    let mut i: usize = 0;
    assert(kb@ =~= base.union(concluded(rules@, 0, base)));
    while i < rules.len()
        invariant
            i <= rules.len(),
            rules@ == rule_order(),
            fact_set(facts@) == base,
            base.subset_of(kb@),
            kb@ == base.union(concluded(rules@, i as int, base)),
            changed == (kb@ != base),
        decreases rules.len() - i,
    {
        let ghost before = kb@;
        let added = rules[i].apply(&facts, kb);
        proof {
            if before != base {
                let w = choose|w: FactView| before.contains(w) != base.contains(w);
                assert(!(before =~= base));
                assert(kb@.contains(w) && !base.contains(w));
            }
            assert(concluded(rules@, i + 1, base) =~= concluded(rules@, i as int, base).union(
                rules@[i as int].conclusions(base),
            ));
            assert(kb@ =~= base.union(concluded(rules@, i + 1, base)));
        }
        changed = changed || added;
        i += 1;
    }
    proof {
        lemma_rule_order_complete();
        lemma_rule_order_irrelevant(rule_order(), base);
        if saturated(base) {
            assert(pass(base) =~= base);
        }
    }
    changed
}

/// Saturates `kb`: repeats [`infer_pass`] until a pass adds nothing.
///
/// Afterwards `kb` holds the saturation of what it held before: it is
/// saturated, holds every earlier fact, and holds nothing that some
/// saturated set with those facts lacks. It is also what the passes reach
/// when they first reach a saturated set, which they do after no more
/// passes than there are facts over the names of `kb` that `kb` lacks. A
/// knowledge base that is already saturated, an empty one among them, is
/// left as it is.
pub fn infer_all(kb: &mut KnowledgeBase)
    ensures
        final(kb)@ == saturation(old(kb)@),
        old(kb)@.subset_of(final(kb)@),
        saturated(final(kb)@),
        exists|k: nat|
            saturates_after(old(kb)@, k) && final(kb)@ == after_passes(old(kb)@, k) && k
                <= universe(old(kb)@).difference(old(kb)@).len(),
        saturated(old(kb)@) ==> final(kb)@ == old(kb)@,
{
    let ghost base = kb@;
    let ghost mut k: nat = 0;
    proof {
        kb.lemma_finite();
        lemma_universe_finite(base);
    }
    loop
        invariant
            universe(base).finite(),
            kb@.subset_of(universe(base)),
            kb@ == after_passes(base, k),
            forall|j: nat| j < k ==> !saturated(#[trigger] after_passes(base, j)),
            k + universe(base).difference(kb@).len() <= universe(base).difference(base).len(),
        ensures
            saturates_after(base, k),
            kb@ == after_passes(base, k),
            k <= universe(base).difference(base).len(),
        decreases universe(base).difference(kb@).len(),
    {
        let ghost before = kb@;
        let changed = infer_pass(kb);
        if !changed {
            break ;
        }
        proof {
            lemma_pass_within_universe(base, before);
            let w = choose|w: FactView| kb@.contains(w) != before.contains(w);
            assert(!(kb@ =~= before));
            assert(kb@.contains(w) && !before.contains(w));
            let u = universe(base);
            assert(u.difference(kb@).subset_of(u.difference(before)));
            u.difference(kb@).lemma_subset_not_in_lt(u.difference(before), w);
            k = k + 1;
        }
    }
    proof {
        lemma_saturated_pass_is_saturation(base, k);
        lemma_passes_grow(base, 0, k);
        if saturated(base) {
            lemma_saturated_is_fixpoint(base);
        }
    }
}

} // verus!
