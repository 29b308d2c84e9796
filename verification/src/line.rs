//! One row of a pattern: its stitches, and how it is written.

use crate::decimal::{int_text, joined, lemma_joined_push, nat_text, push_int, push_nat};
use crate::distribution::{
    distribution,
    lemma_change_fits,
    lemma_distribution_conserves_delta,
    lemma_progress_within_delta,
    lemma_step_follows_progress,
    lemma_stepwise_is_distribution,
    progress,
    stepwise_distribution,
    total_effect,
};
use crate::stitch::Stitch;
use vstd::math::abs;
use vstd::prelude::*;

verus! {

/// The instructions for one row.
#[derive(Debug, Clone)]
pub struct LineInstruction {
    /// How many stitches are worked in this row.
    pub stitches: i32,
    /// By how much the row changes the stitch count.
    pub increase_stitches: i32,
    /// What is worked into each stitch, first stitch first.
    pub stitch_info: Vec<Stitch>,
}

/// A row as plain mathematical values.
pub struct LineModel {
    /// How many stitches are worked in the row.
    pub stitches: int,
    /// By how much the row changes the stitch count.
    pub increase_stitches: int,
    /// What is worked into each stitch, first stitch first.
    pub stitch_info: Seq<Stitch>,
}

impl View for LineInstruction {
    type V = LineModel;

    open spec fn view(&self) -> LineModel {
        LineModel {
            stitches: self.stitches as int,
            increase_stitches: self.increase_stitches as int,
            stitch_info: self.stitch_info@,
        }
    }
}

/// The row of `stitches` stitches that changes the count by `delta`, with
/// the change spread evenly.
pub open spec fn planned_line(stitches: int, delta: int) -> LineModel {
    LineModel {
        stitches,
        increase_stitches: delta,
        stitch_info: distribution(stitches, delta),
    }
}

/// How a run of `length` plain stitches is written: by name when it is a
/// single stitch, else as the bare length.
pub open spec fn run_text(length: nat) -> Seq<char> {
    if length == 1 {
        Stitch::Single.text()
    } else {
        nat_text(length)
    }
}

/// The tokens of `actions`, read left to right, when `run` plain stitches
/// stand unwritten in front of them. Plain stitches are gathered until
/// something else, or the end, closes the run; every other stitch is a
/// token of its own.
pub open spec fn tokens_after_run(actions: Seq<Stitch>, run: nat) -> Seq<Seq<char>>
    decreases actions.len(),
{
    let closed_run = if run == 0 {
        Seq::<Seq<char>>::empty()
    } else {
        seq![run_text(run)]
    };
    if actions.len() == 0 {
        closed_run
    } else if actions[0] == Stitch::Single {
        tokens_after_run(actions.drop_first(), run + 1)
    } else {
        closed_run + seq![actions[0].text()] + tokens_after_run(actions.drop_first(), 0)
    }
}

/// The tokens of a row: one for every maximal run of plain stitches, one
/// for every other stitch.
pub open spec fn tokens(actions: Seq<Stitch>) -> Seq<Seq<char>> {
    tokens_after_run(actions, 0)
}

/// The stitches of a row as text: its tokens with commas between them.
pub open spec fn stitches_text(actions: Seq<Stitch>) -> Seq<char> {
    joined(tokens(actions), ","@)
}

/// A row as text: the stitch count, the change, and the stitches.
pub open spec fn line_text(line: LineModel) -> Seq<char> {
    int_text(line.stitches) + " + "@ + int_text(line.increase_stitches) + " stitches: "@
        + stitches_text(line.stitch_info)
}

/// A stretch of nothing but plain stitches closes as one run, however
/// many plain stitches stood unwritten in front of it.
pub proof fn lemma_single_stitches_extend_run(actions: Seq<Stitch>, run: nat)
    requires
        forall|i: int| 0 <= i < actions.len() ==> actions[i] == Stitch::Single,
        run + actions.len() >= 1,
    ensures
        tokens_after_run(actions, run) == seq![run_text(run + actions.len())],
    decreases actions.len(),
{
    if actions.len() > 0 {
        lemma_single_stitches_extend_run(actions.drop_first(), run + 1);
    }
}

/// A row of nothing but plain stitches is written as a single token: `sc`
/// for one stitch, the bare count for more. It is never written as one
/// `sc` after the other.
pub proof fn lemma_plain_row_is_one_token(actions: Seq<Stitch>)
    requires
        actions.len() >= 1,
        forall|i: int| 0 <= i < actions.len() ==> actions[i] == Stitch::Single,
    ensures
        tokens(actions) == seq![run_text(actions.len())],
        stitches_text(actions) == run_text(actions.len()),
        actions.len() == 1 ==> stitches_text(actions) == "sc"@,
        actions.len() >= 2 ==> stitches_text(actions) == nat_text(actions.len()),
{
    lemma_single_stitches_extend_run(actions, 0);
}

/// A stitch that is not plain is a token of its own: it closes the run in
/// front of it, and what follows it is written as if it stood alone.
pub proof fn lemma_change_is_own_token(before: Seq<Stitch>, stitch: Stitch, after: Seq<Stitch>)
    requires
        stitch != Stitch::Single,
    ensures
        tokens(before.push(stitch) + after) == tokens(before) + seq![stitch.text()] + tokens(after),
{
    lemma_change_closes_run(before, stitch, after, 0);
}

proof fn lemma_change_closes_run(before: Seq<Stitch>, stitch: Stitch, after: Seq<Stitch>, run: nat)
    requires
        stitch != Stitch::Single,
    ensures
        tokens_after_run(before.push(stitch) + after, run) == tokens_after_run(before, run)
            + seq![stitch.text()] + tokens(after),
    decreases before.len(),
{
    let whole = before.push(stitch) + after;
    if before.len() == 0 {
        assert(whole.drop_first() =~= after);
    } else {
        assert(whole.drop_first() =~= before.drop_first().push(stitch) + after);
        if before[0] == Stitch::Single {
            lemma_change_closes_run(before.drop_first(), stitch, after, run + 1);
        } else {
            lemma_change_closes_run(before.drop_first(), stitch, after, 0);
        }
    }
}

/// A row of nothing but plain stitches is written as its two counts and
/// one token.
pub proof fn lemma_plain_line_text(line: LineModel)
    requires
        line.stitch_info.len() >= 1,
        forall|i: int| 0 <= i < line.stitch_info.len() ==> line.stitch_info[i] == Stitch::Single,
    ensures
        line_text(line) == int_text(line.stitches) + " + "@ + int_text(line.increase_stitches)
            + " stitches: "@ + run_text(line.stitch_info.len()),
{
    lemma_plain_row_is_one_token(line.stitch_info);
}

/// Appends the comma that parts a token from the one before it, where
/// there is one before it.
fn push_comma_after(out: &mut String, any_written: bool)
    ensures
        final(out)@ == old(out)@ + if any_written {
            ","@
        } else {
            Seq::<char>::empty()
        },
{
    if any_written {
        out.append(",");
    }
}

/// Appends the token of a run of `length` plain stitches.
fn push_run(out: &mut String, any_written: bool, length: usize)
    requires
        length >= 1,
    ensures
        final(out)@ == old(out)@ + if any_written {
            ","@
        } else {
            Seq::<char>::empty()
        } + run_text(length as nat),
{
    push_comma_after(out, any_written);
    if length == 1 {
        Stitch::Single.push_text(out);
    } else {
        push_nat(out, length as u128);
    }
}

impl LineInstruction {
    /// The stitches are those of the even distribution of this row's change
    /// over this row's stitch count.
    pub open spec fn wf(&self) -> bool {
        &&& self.stitches >= 0
        &&& self@ == planned_line(self.stitches as int, self.increase_stitches as int)
    }

    /// Spreads a change of `increase_stitches` evenly over a row of
    /// `stitches` stitches.
    ///
    /// Stitch by stitch, the ideal share of the change so far is compared
    /// with what has been made: the stitch gets the difference, rounded
    /// down, and the running amount takes it up where the ideal share has
    /// moved further from zero. All of it is exact integer arithmetic on
    /// numerators over `stitches`.
    pub fn generate(stitches: i32, increase_stitches: i32) -> (line: LineInstruction)
        requires
            stitches >= 0,
            stitches == 1 ==> increase_stitches > i32::MIN,
        ensures
            line@ == planned_line(stitches as int, increase_stitches as int),
            line.wf(),
            line.stitch_info@ == stepwise_distribution(stitches as int, increase_stitches as int),
            line.stitch_info@.len() == stitches,
            stitches > 0 ==> total_effect(line.stitch_info@) == increase_stitches,
            forall|i: int| 0 <= i < stitches ==> (#[trigger] line.stitch_info@[i]).wf(),
    {
        let mut stitch_info: Vec<Stitch> = Vec::with_capacity(stitches as usize);
        let per_row: i64 = stitches as i64;
        let delta: i64 = increase_stitches as i64;
        let ghost row = distribution(stitches as int, increase_stitches as int);
        let mut current_increase_count: i64 = 0;
        let mut stitch: i32 = 0;
        proof {
            if stitches > 0 {
                lemma_progress_within_delta(stitches as int, 0, 0);
                assert(0 * (delta as int) == 0 * 0) by (nonlinear_arith);
            }
        }
        while stitch < stitches
            invariant
                0 <= stitch <= stitches,
                per_row == stitches,
                delta == increase_stitches,
                stitches == 1 ==> increase_stitches > i32::MIN,
                row == distribution(stitches as int, increase_stitches as int),
                stitches > 0 ==> current_increase_count == progress(
                    stitches as int,
                    delta as int,
                    stitch as int,
                ),
                stitch_info@ == row.take(stitch as int),
            decreases stitches - stitch,
        {
            stitch = stitch + 1;
            proof {
                lemma_progress_within_delta(per_row as int, delta as int, stitch - 1);
                lemma_progress_within_delta(per_row as int, delta as int, stitch as int);
                lemma_step_follows_progress(per_row as int, delta as int, stitch as int);
                lemma_change_fits(stitches, increase_stitches, stitch as int);
                assert(-0x3fff_ffff_8000_0000 <= stitch * delta <= 0x3fff_ffff_8000_0000)
                    by (nonlinear_arith)
                    requires
                        0 <= stitch < 0x8000_0000,
                        -0x8000_0000 <= delta < 0x8000_0000,
                ;
                assert(-0x3fff_ffff_8000_0000 <= current_increase_count * per_row
                    <= 0x3fff_ffff_8000_0000) by (nonlinear_arith)
                    requires
                        0 <= per_row < 0x8000_0000,
                        -0x8000_0000 <= current_increase_count < 0x8000_0000,
                ;
            }
            let target: i64 = stitch as i64 * delta;
            let made: i64 = current_increase_count * per_row;
            let increase_amount: i64 = (target - made).checked_div_euclid(per_row).unwrap();
            let target_size: i64 = if target < 0 {
                -target
            } else {
                target
            };
            let made_size: i64 = if made < 0 {
                -made
            } else {
                made
            };
            proof {
                assert(abs(current_increase_count as int) * per_row == made_size)
                    by (nonlinear_arith)
                    requires
                        per_row >= 0,
                        made == current_increase_count * per_row,
                        made_size == if made < 0 {
                            -made
                        } else {
                            made as int
                        },
                ;
            }
            if target_size > made_size {
                current_increase_count = current_increase_count + increase_amount;
            }
            stitch_info.push(Stitch::from(increase_amount as i32));
            proof {
                assert(stitch_info@ =~= row.take(stitch as int));
            }
        }
        proof {
            assert(row.take(stitches as int) =~= row);
            lemma_stepwise_is_distribution(stitches as int, increase_stitches as int);
            if stitches > 0 {
                lemma_distribution_conserves_delta(stitches, increase_stitches);
            }
            assert forall|i: int| 0 <= i < stitches implies (#[trigger] row[i]).wf() by {
                lemma_change_fits(stitches, increase_stitches, i + 1);
            }
        }
        LineInstruction { stitches, increase_stitches, stitch_info }
    }

    /// Appends the stitches of this row to `out`, as tokens with commas
    /// between them.
    pub fn push_stitches_text(&self, out: &mut String)
        ensures
            final(out)@ == old(out)@ + stitches_text(self.stitch_info@),
    {
        let ghost all = self.stitch_info@;
        let ghost head = out@;
        let ghost written: Seq<Seq<char>> = Seq::empty();
        let mut any_written = false;
        let mut sc_count: usize = 0;
        let mut i: usize = 0;
        proof {
            assert(all.skip(0) =~= all);
            assert(written + tokens(all) =~= tokens(all));
        }
        while i < self.stitch_info.len()
            invariant
                0 <= sc_count <= i <= all.len(),
                all == self.stitch_info@,
                any_written == (written.len() > 0),
                out@ == head + joined(written, ","@),
                tokens(all) == written + tokens_after_run(all.skip(i as int), sc_count as nat),
            decreases all.len() - i,
        {
            let stitch = self.stitch_info[i];
            proof {
                assert(all.skip(i as int).drop_first() =~= all.skip(i + 1));
            }
            match stitch {
                Stitch::Single => {
                    sc_count = sc_count + 1;
                },
                _ => {
                    if sc_count > 0 {
                        push_run(out, any_written, sc_count);
                        proof {
                            lemma_joined_push(written, ","@, run_text(sc_count as nat));
                            written = written.push(run_text(sc_count as nat));
                        }
                        any_written = true;
                        sc_count = 0;
                    }
                    push_comma_after(out, any_written);
                    stitch.push_text(out);
                    proof {
                        lemma_joined_push(written, ","@, stitch.text());
                        written = written.push(stitch.text());
                    }
                    any_written = true;
                },
            }
            i = i + 1;
        }
        proof {
            assert(all.skip(all.len() as int) =~= Seq::<Stitch>::empty());
        }
        if sc_count > 0 {
            push_run(out, any_written, sc_count);
            proof {
                lemma_joined_push(written, ","@, run_text(sc_count as nat));
                assert(tokens(all) =~= written.push(run_text(sc_count as nat)));
            }
        } else {
            assert(tokens(all) =~= written);
        }
    }

    /// Appends this row as text to `out`.
    pub fn push_text(&self, out: &mut String)
        ensures
            final(out)@ == old(out)@ + line_text(self@),
    {
        push_int(out, self.stitches as i64);
        out.append(" + ");
        push_int(out, self.increase_stitches as i64);
        out.append(" stitches: ");
        self.push_stitches_text(out);
    }

    /// This row as text.
    pub fn to_string(&self) -> (text: String)
        ensures
            text@ == line_text(self@),
    {
        let mut text = String::new();
        self.push_text(&mut text);
        text
    }
}

} // verus!
