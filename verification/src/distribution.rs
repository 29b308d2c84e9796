//! How a row's change in stitch count is spread over its stitches.
//!
//! A row of `stitches` stitches has to change the count by `delta`. After
//! `position` stitches the ideal share of that change is the fraction
//! `position * delta / stitches`. The row follows that fraction from below:
//! after every stitch the change made so far is the fraction rounded down.
//! All fractions are kept exact, as a numerator over `stitches`.

use crate::stitch::Stitch;
use vstd::arithmetic::div_mod::{
    lemma_div_multiples_vanish,
    lemma_fundamental_div_mod,
    lemma_fundamental_div_mod_converse,
    lemma_mod_bound,
};
use vstd::math::abs;
use vstd::prelude::*;

verus! {

/// The change that has been made once `position` stitches are worked: the
/// ideal share `position * delta / stitches`, rounded down.
pub open spec fn progress(stitches: int, delta: int, position: int) -> int
    recommends
        stitches > 0,
{
    (position * delta) / stitches
}

/// The change made by the stitch at `position`, counted from one.
pub open spec fn change_at(stitches: int, delta: int, position: int) -> int
    recommends
        stitches > 0,
{
    progress(stitches, delta, position) - progress(stitches, delta, position - 1)
}

/// The stitches of a row of `stitches` stitches that changes the count by
/// `delta`, first stitch first. A row without stitches is empty.
pub open spec fn distribution(stitches: int, delta: int) -> Seq<Stitch> {
    Seq::new(
        if stitches > 0 {
            stitches as nat
        } else {
            0
        },
        |i: int| Stitch::of_change(change_at(stitches, delta, i + 1)),
    )
}

/// The sum of what each stitch of `actions` does to the stitch count.
pub open spec fn total_effect(actions: Seq<Stitch>) -> int
    decreases actions.len(),
{
    if actions.len() == 0 {
        0
    } else {
        total_effect(actions.drop_last()) + actions.last().net_effect()
    }
}

/// What is still to be made up at `position` when `applied` has been made so
/// far: the ideal share at `position` less `applied`, rounded down.
pub open spec fn pending_amount(stitches: int, delta: int, position: int, applied: int) -> int
    recommends
        stitches > 0,
{
    (position * delta - applied * stitches) / stitches
}

/// Whether the ideal share at `position` lies further from zero than
/// `applied` does.
pub open spec fn should_advance(stitches: int, delta: int, position: int, applied: int) -> bool
    recommends
        stitches > 0,
{
    abs(position * delta) > abs(applied) * stitches
}

/// The change made so far after `position` stitches when the row is worked
/// stitch by stitch: every stitch looks at the amount pending, and takes it
/// up where the ideal share has moved further from zero than what was made
/// so far.
pub open spec fn applied_after(stitches: int, delta: int, position: nat) -> int
    recommends
        stitches > 0,
    decreases position,
{
    if position == 0 {
        0
    } else {
        let before = applied_after(stitches, delta, (position - 1) as nat);
        if should_advance(stitches, delta, position as int, before) {
            before + pending_amount(stitches, delta, position as int, before)
        } else {
            before
        }
    }
}

/// The stitches of a row as the step-by-step rule hands them out: every
/// stitch is given the amount pending at its position, whether or not the
/// running amount takes it up.
pub open spec fn stepwise_distribution(stitches: int, delta: int) -> Seq<Stitch> {
    Seq::new(
        if stitches > 0 {
            stitches as nat
        } else {
            0
        },
        |i: int|
            Stitch::of_change(
                pending_amount(stitches, delta, i + 1, applied_after(stitches, delta, i as nat)),
            ),
    )
}

proof fn lemma_floor_bounds(x: int, d: int)
    requires
        d > 0,
    ensures
        d * (x / d) <= x < d * (x / d) + d,
{
    lemma_fundamental_div_mod(x, d);
    lemma_mod_bound(x, d);
}

proof fn lemma_floor_unique(x: int, d: int, q: int)
    requires
        d > 0,
        d * q <= x < d * q + d,
    ensures
        x / d == q,
{
    assert(x == q * d + (x - d * q)) by (nonlinear_arith);
    lemma_fundamental_div_mod_converse(x, d, q, x - d * q);
}

/// One stitch of the step-by-step rule, started from the rounded-down share
/// of the position before: the amount pending is exactly the step to the
/// rounded-down share of this position, and where the rule does not take it
/// up, it is zero.
pub proof fn lemma_step_follows_progress(stitches: int, delta: int, position: int)
    requires
        stitches > 0,
        position >= 1,
    ensures
        pending_amount(stitches, delta, position, progress(stitches, delta, position - 1))
            == change_at(stitches, delta, position),
        should_advance(stitches, delta, position, progress(stitches, delta, position - 1))
            || change_at(stitches, delta, position) == 0,
{
    let a = (position - 1) * delta;
    let b = position * delta;
    let before = progress(stitches, delta, position - 1);
    let after = progress(stitches, delta, position);
    assert(b == a + delta) by (nonlinear_arith)
        requires
            a == (position - 1) * delta,
            b == position * delta,
    ;
    lemma_floor_bounds(a, stitches);
    lemma_floor_bounds(b, stitches);
    assert(stitches * (after - before) == stitches * after - stitches * before)
        by (nonlinear_arith);
    assert(before * stitches == stitches * before) by (nonlinear_arith);
    lemma_floor_unique(b - before * stitches, stitches, after - before);
    if delta >= 0 {
        assert(a >= 0) by (nonlinear_arith)
            requires
                a == (position - 1) * delta,
                position >= 1,
                delta >= 0,
        ;
        assert(before >= 0) by (nonlinear_arith)
            requires
                stitches > 0,
                a >= 0,
                a < stitches * before + stitches,
        ;
        if b == before * stitches {
            lemma_floor_unique(0, stitches, 0);
        }
    } else {
        assert(a <= 0) by (nonlinear_arith)
            requires
                a == (position - 1) * delta,
                position >= 1,
                delta < 0,
        ;
        assert(before <= 0) by (nonlinear_arith)
            requires
                stitches > 0,
                a <= 0,
                stitches * before <= a,
        ;
        assert(abs(before) * stitches == -(before * stitches)) by (nonlinear_arith)
            requires
                before <= 0,
                abs(before) == -before,
        ;
        if b >= before * stitches {
            lemma_floor_unique(b - before * stitches, stitches, 0);
        }
    }
}

/// Worked stitch by stitch, a row makes after every stitch exactly the
/// rounded-down ideal share, and the amount pending at a stitch is the
/// change that the stitch makes.
pub proof fn lemma_applied_after_is_progress(stitches: int, delta: int, position: nat)
    requires
        stitches > 0,
    ensures
        applied_after(stitches, delta, position) == progress(stitches, delta, position as int),
        position >= 1 ==> pending_amount(
            stitches,
            delta,
            position as int,
            applied_after(stitches, delta, (position - 1) as nat),
        ) == change_at(stitches, delta, position as int),
    decreases position,
{
    if position == 0 {
        assert(0 * delta == 0) by (nonlinear_arith);
        lemma_floor_unique(0, stitches, 0);
    } else {
        lemma_applied_after_is_progress(stitches, delta, (position - 1) as nat);
        lemma_step_follows_progress(stitches, delta, position as int);
    }
}

/// The step-by-step rule hands out exactly the stitches of the even
/// distribution.
pub proof fn lemma_stepwise_is_distribution(stitches: int, delta: int)
    ensures
        stepwise_distribution(stitches, delta) == distribution(stitches, delta),
{
    if stitches > 0 {
        assert forall|i: int| 0 <= i < stitches implies #[trigger] stepwise_distribution(
            stitches,
            delta,
        )[i] == distribution(stitches, delta)[i] by {
            lemma_applied_after_is_progress(stitches, delta, (i + 1) as nat);
        }
    }
    assert(stepwise_distribution(stitches, delta) =~= distribution(stitches, delta));
}

/// The rounded-down share never leaves the span between zero and `delta`
/// while `position` runs from zero to `stitches`.
pub proof fn lemma_progress_within_delta(stitches: int, delta: int, position: int)
    requires
        stitches > 0,
        0 <= position <= stitches,
    ensures
        delta >= 0 ==> 0 <= progress(stitches, delta, position) <= delta,
        delta <= 0 ==> delta <= progress(stitches, delta, position) <= 0,
{
    let b = position * delta;
    let made = progress(stitches, delta, position);
    lemma_floor_bounds(b, stitches);
    if delta >= 0 {
        assert(0 <= made <= delta) by (nonlinear_arith)
            requires
                stitches > 0,
                0 <= position <= stitches,
                delta >= 0,
                b == position * delta,
                stitches * made <= b < stitches * made + stitches,
        ;
    }
    if delta <= 0 {
        assert(delta <= made <= 0) by (nonlinear_arith)
            requires
                stitches > 0,
                0 <= position <= stitches,
                delta <= 0,
                b == position * delta,
                stitches * made <= b < stitches * made + stitches,
        ;
    }
}

/// No stitch strays from the even share: the change at every position is
/// `delta / stitches` rounded down or rounded up.
pub proof fn lemma_change_is_even(stitches: int, delta: int, position: int)
    requires
        stitches > 0,
    ensures
        delta / stitches <= change_at(stitches, delta, position),
        change_at(stitches, delta, position) <= delta / stitches + if delta % stitches == 0 {
            0int
        } else {
            1int
        },
{
    let a = (position - 1) * delta;
    let b = position * delta;
    let before = progress(stitches, delta, position - 1);
    let after = progress(stitches, delta, position);
    let share = delta / stitches;
    assert(b == a + delta) by (nonlinear_arith)
        requires
            a == (position - 1) * delta,
            b == position * delta,
    ;
    lemma_floor_bounds(a, stitches);
    lemma_floor_bounds(b, stitches);
    lemma_floor_bounds(delta, stitches);
    lemma_fundamental_div_mod(delta, stitches);
    assert(stitches * (before + share) == stitches * before + stitches * share)
        by (nonlinear_arith);
    if delta % stitches == 0 {
        lemma_floor_unique(b, stitches, before + share);
    } else {
        assert(after >= before + share) by (nonlinear_arith)
            requires
                stitches > 0,
                b < stitches * after + stitches,
                stitches * (before + share) <= b,
        ;
        assert(after <= before + share + 1) by (nonlinear_arith)
            requires
                stitches > 0,
                stitches * after <= b,
                b < stitches * (before + share) + 2 * stitches,
        ;
    }
}

/// Where the change is a whole multiple of the stitch count, every stitch
/// makes the same change: none at all where the row changes nothing, one
/// where the change equals the stitch count.
pub proof fn lemma_whole_multiple_is_uniform(stitches: int, each: int, position: int)
    requires
        stitches > 0,
    ensures
        change_at(stitches, each * stitches, position) == each,
{
    lemma_change_is_even(stitches, each * stitches, position);
    assert(each * stitches == stitches * each + 0) by (nonlinear_arith);
    lemma_fundamental_div_mod_converse(each * stitches, stitches, each, 0);
}

/// The change of every stitch of a row fits the stitch. The one row left
/// out is a single stitch that would have to take up the most negative
/// `i32`.
pub proof fn lemma_change_fits(stitches: i32, delta: i32, position: int)
    requires
        stitches > 0,
        stitches == 1 ==> delta > i32::MIN,
    ensures
        i32::MIN < change_at(stitches as int, delta as int, position) <= i32::MAX,
        Stitch::of_change(change_at(stitches as int, delta as int, position)).wf(),
        Stitch::of_change(change_at(stitches as int, delta as int, position)).net_effect()
            == change_at(stitches as int, delta as int, position),
{
    let s = stitches as int;
    let d = delta as int;
    let share = d / s;
    lemma_change_is_even(s, d, position);
    lemma_floor_bounds(d, s);
    lemma_fundamental_div_mod(d, s);
    if s == 1 {
        lemma_floor_unique(d, 1, d);
    } else {
        assert(-0x4000_0000 <= share <= 0x4000_0000) by (nonlinear_arith)
            requires
                s >= 2,
                s * share <= d < s * share + s,
                -0x8000_0000 <= d < 0x8000_0000,
        ;
    }
}

/// The first `count` stitches of a row make together the rounded-down
/// ideal share at `count`.
pub proof fn lemma_prefix_effect(stitches: i32, delta: i32, count: nat)
    requires
        stitches > 0,
        stitches == 1 ==> delta > i32::MIN,
        count <= stitches,
    ensures
        total_effect(distribution(stitches as int, delta as int).take(count as int)) == progress(
            stitches as int,
            delta as int,
            count as int,
        ),
    decreases count,
{
    let s = stitches as int;
    let d = delta as int;
    let row = distribution(s, d);
    if count == 0 {
        assert(0 * d == 0) by (nonlinear_arith);
        lemma_floor_unique(0, s, 0);
    } else {
        lemma_prefix_effect(stitches, delta, (count - 1) as nat);
        lemma_change_fits(stitches, delta, count as int);
        assert(row.take(count as int).drop_last() =~= row.take(count - 1));
    }
}

/// Conservation: the stitches of a row with at least one stitch change the
/// count by exactly `delta`, and there are exactly `stitches` of them.
pub proof fn lemma_distribution_conserves_delta(stitches: i32, delta: i32)
    requires
        stitches > 0,
        stitches == 1 ==> delta > i32::MIN,
    ensures
        distribution(stitches as int, delta as int).len() == stitches,
        total_effect(distribution(stitches as int, delta as int)) == delta,
{
    let s = stitches as int;
    let d = delta as int;
    let row = distribution(s, d);
    lemma_prefix_effect(stitches, delta, stitches as nat);
    assert(row.take(s) =~= row);
    lemma_div_multiples_vanish(d, s);
}

} // verus!
