//! Bookkeeping for the rules' nested loops: which conclusions have been
//! drawn once a loop over one or two lists of name pairs has come to a
//! given position.

use crate::fact::{FactView, Name};
use vstd::prelude::*;

verus! {

/// Two names in the order in which a fact holds them.
pub type Pair = (Name, Name);

/// What a rule concludes from one premise.
pub type Rule1 = spec_fn(Pair, FactView) -> bool;

/// What a rule concludes from two premises.
pub type Rule2 = spec_fn(Pair, Pair, FactView) -> bool;

/// The conclusions of `rule` from the first `i` premises in `xs`.
pub open spec fn drawn1(xs: Seq<Pair>, i: int, rule: Rule1) -> Set<FactView> {
    Set::new(|f: FactView| exists|a: int| 0 <= a < xs.len() && a < i && #[trigger] rule(xs[a], f))
}

/// The conclusions of `rule` from the premise pairs that a loop over `xs`
/// with an inner loop over `ys` has visited when it stands at `(i, j)`.
pub open spec fn drawn2(xs: Seq<Pair>, ys: Seq<Pair>, i: int, j: int, rule: Rule2) -> Set<
    FactView,
> {
    Set::new(
        |f: FactView|
            exists|a: int, b: int|
                0 <= a < xs.len() && 0 <= b < ys.len() && (a < i || (a == i && b < j))
                    && #[trigger] rule(xs[a], ys[b], f),
    )
}

/// The conclusions of `rule` from the single premise `x`.
pub open spec fn fired1(x: Pair, rule: Rule1) -> Set<FactView> {
    Set::new(|f: FactView| rule(x, f))
}

/// The conclusions of `rule` from the premises `x` and `y`.
pub open spec fn fired2(x: Pair, y: Pair, rule: Rule2) -> Set<FactView> {
    Set::new(|f: FactView| rule(x, y, f))
}

/// Before the loop starts nothing has been drawn.
pub proof fn lemma_drawn1_start(xs: Seq<Pair>, rule: Rule1)
    ensures
        drawn1(xs, 0, rule) == Set::<FactView>::empty(),
{
    assert(drawn1(xs, 0, rule) =~= Set::<FactView>::empty());
}

/// One step of the loop adds what the rule concludes from the premise it
/// stands at.
pub proof fn lemma_drawn1_step(xs: Seq<Pair>, i: int, rule: Rule1)
    requires
        0 <= i < xs.len(),
    ensures
        drawn1(xs, i + 1, rule) == drawn1(xs, i, rule).union(fired1(xs[i], rule)),
{
    let lhs = drawn1(xs, i + 1, rule);
    let rhs = drawn1(xs, i, rule).union(fired1(xs[i], rule));
    assert forall|f: FactView| lhs.contains(f) <==> rhs.contains(f) by {
        if lhs.contains(f) {
            let a = choose|a: int| 0 <= a < xs.len() && a < i + 1 && #[trigger] rule(xs[a], f);
            if a < i {
                assert(drawn1(xs, i, rule).contains(f));
            } else {
                assert(fired1(xs[i], rule).contains(f));
            }
        }
        if rhs.contains(f) {
            if drawn1(xs, i, rule).contains(f) {
                let a = choose|a: int| 0 <= a < xs.len() && a < i && #[trigger] rule(xs[a], f);
                assert(rule(xs[a], f));
            } else {
                assert(rule(xs[i], f));
            }
        }
    }
    assert(lhs =~= rhs);
}

/// Before the loops start nothing has been drawn.
pub proof fn lemma_drawn2_start(xs: Seq<Pair>, ys: Seq<Pair>, rule: Rule2)
    ensures
        drawn2(xs, ys, 0, 0, rule) == Set::<FactView>::empty(),
{
    assert(drawn2(xs, ys, 0, 0, rule) =~= Set::<FactView>::empty());
}

/// One step of the inner loop adds what the rule concludes from the two
/// premises it stands at.
pub proof fn lemma_drawn2_step(xs: Seq<Pair>, ys: Seq<Pair>, i: int, j: int, rule: Rule2)
    requires
        0 <= i < xs.len(),
        0 <= j < ys.len(),
    ensures
        drawn2(xs, ys, i, j + 1, rule) == drawn2(xs, ys, i, j, rule).union(
            fired2(xs[i], ys[j], rule),
        ),
{
    let lhs = drawn2(xs, ys, i, j + 1, rule);
    let rhs = drawn2(xs, ys, i, j, rule).union(fired2(xs[i], ys[j], rule));
    assert forall|f: FactView| lhs.contains(f) <==> rhs.contains(f) by {
        if lhs.contains(f) {
            let (a, b) = choose|a: int, b: int|
                0 <= a < xs.len() && 0 <= b < ys.len() && (a < i || (a == i && b < j + 1))
                    && #[trigger] rule(xs[a], ys[b], f);
            if a == i && b == j {
                assert(fired2(xs[i], ys[j], rule).contains(f));
            } else {
                assert(drawn2(xs, ys, i, j, rule).contains(f));
            }
        }
        if rhs.contains(f) {
            if drawn2(xs, ys, i, j, rule).contains(f) {
                let (a, b) = choose|a: int, b: int|
                    0 <= a < xs.len() && 0 <= b < ys.len() && (a < i || (a == i && b < j))
                        && #[trigger] rule(xs[a], ys[b], f);
                assert(rule(xs[a], ys[b], f));
            } else {
                assert(rule(xs[i], ys[j], f));
            }
        }
    }
    assert(lhs =~= rhs);
}

/// The end of one run of the inner loop is the start of the next.
pub proof fn lemma_drawn2_next_row(xs: Seq<Pair>, ys: Seq<Pair>, i: int, rule: Rule2)
    requires
        0 <= i < xs.len(),
    ensures
        drawn2(xs, ys, i + 1, 0, rule) == drawn2(xs, ys, i, ys.len() as int, rule),
{
    let lhs = drawn2(xs, ys, i + 1, 0, rule);
    let rhs = drawn2(xs, ys, i, ys.len() as int, rule);
    assert forall|f: FactView| lhs.contains(f) <==> rhs.contains(f) by {
        if lhs.contains(f) {
            let (a, b) = choose|a: int, b: int|
                0 <= a < xs.len() && 0 <= b < ys.len() && (a < i + 1 || (a == i + 1 && b < 0))
                    && #[trigger] rule(xs[a], ys[b], f);
            assert(rule(xs[a], ys[b], f));
        }
        if rhs.contains(f) {
            let (a, b) = choose|a: int, b: int|
                0 <= a < xs.len() && 0 <= b < ys.len() && (a < i || (a == i && b < ys.len()))
                    && #[trigger] rule(xs[a], ys[b], f);
            assert(rule(xs[a], ys[b], f));
        }
    }
    assert(lhs =~= rhs);
}

/// A run of the inner loop may be left out where the rule concludes nothing
/// from the outer premise, whatever the inner one.
pub proof fn lemma_drawn2_skip_row(xs: Seq<Pair>, ys: Seq<Pair>, i: int, rule: Rule2)
    requires
        0 <= i < xs.len(),
        forall|b: int, f: FactView| 0 <= b < ys.len() ==> !#[trigger] rule(xs[i], ys[b], f),
    ensures
        drawn2(xs, ys, i + 1, 0, rule) == drawn2(xs, ys, i, 0, rule),
{
    let lhs = drawn2(xs, ys, i + 1, 0, rule);
    let rhs = drawn2(xs, ys, i, 0, rule);
    assert forall|f: FactView| lhs.contains(f) <==> rhs.contains(f) by {
        if lhs.contains(f) {
            let (a, b) = choose|a: int, b: int|
                0 <= a < xs.len() && 0 <= b < ys.len() && (a < i + 1 || (a == i + 1 && b < 0))
                    && #[trigger] rule(xs[a], ys[b], f);
            assert(rule(xs[a], ys[b], f));
            assert(a != i);
        }
        if rhs.contains(f) {
            let (a, b) = choose|a: int, b: int|
                0 <= a < xs.len() && 0 <= b < ys.len() && (a < i || (a == i && b < 0))
                    && #[trigger] rule(xs[a], ys[b], f);
            assert(rule(xs[a], ys[b], f));
        }
    }
    assert(lhs =~= rhs);
}

/// Adding `f` to a set that has grown from `base` leaves it different from
/// `base` exactly when it was different before or `f` is new.
pub proof fn lemma_grown(base: Set<FactView>, cur: Set<FactView>, f: FactView)
    requires
        base.subset_of(cur),
    ensures
        (cur.insert(f) != base) <==> (cur != base || !cur.contains(f)),
        base.subset_of(cur.insert(f)),
{
    if cur != base {
        assert(!(cur =~= base));
        let w = choose|w: FactView| cur.contains(w) != base.contains(w);
        assert(cur.insert(f).contains(w));
        assert(!base.contains(w));
    }
    if cur.contains(f) {
        assert(cur.insert(f) =~= cur);
    }
}

} // verus!
