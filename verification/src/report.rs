//! A whole pattern: the rows planned from their stitch counts, and the
//! report that lists them.
//!
//! Rows are numbered from one, by the place of their stitch count in the
//! pattern. A report need not begin with the first row, so it carries the
//! number of the first row that it holds.

use crate::decimal::{joined, lemma_joined_push, nat_text, push_nat};
use crate::distribution::total_effect;
use crate::line::{line_text, planned_line, LineInstruction, LineModel};
use vstd::prelude::*;

verus! {

/// The instructions for consecutive rows of a pattern, in row order,
/// together with the number of the first of these rows.
#[derive(Debug, Clone)]
pub struct LineInstructions {
    rows: Vec<LineInstruction>,
    first_line: usize,
}

/// Consecutive rows of a pattern as plain mathematical values.
pub struct PatternModel {
    /// The number of the first of the rows; the rows of a pattern are
    /// numbered from one.
    pub first_line: nat,
    /// The rows, in row order.
    pub lines: Seq<LineModel>,
}

impl View for LineInstructions {
    type V = PatternModel;

    open spec fn view(&self) -> PatternModel {
        PatternModel {
            first_line: self.first_number(),
            lines: Seq::new(self.rows().len(), |i: int| self.rows()[i]@),
        }
    }
}

impl core::ops::Deref for LineInstructions {
    type Target = Vec<LineInstruction>;

    /// The rows, to be read like any vector.
    fn deref(&self) -> (rows: &Vec<LineInstruction>)
        ensures
            rows@ == self.rows(),
    {
        &self.rows
    }
}

/// The change from each stitch count to the next one: one entry fewer than
/// there are counts, and none where there is at most one count.
pub open spec fn forward_difference(counts: Seq<i32>) -> Seq<int> {
    Seq::new(
        if counts.len() == 0 {
            0
        } else {
            (counts.len() - 1) as nat
        },
        |i: int| counts[i + 1] - counts[i],
    )
}

/// The rows made by pairing each change with the stitch count that it
/// leads to: the change at place `i` belongs to the row whose count stands
/// at place `i + 1`, and the row works that count. There are as many rows as
/// both sequences reach. The first count is only where the first change
/// starts from: its row is not among them, so they begin with the second
/// row of the pattern and are numbered from two.
pub open spec fn paired_lines(deltas: Seq<i32>, counts: Seq<i32>) -> PatternModel {
    PatternModel {
        first_line: 2,
        lines: Seq::new(
            if counts.len() == 0 {
                0
            } else if deltas.len() <= counts.len() - 1 {
                deltas.len()
            } else {
                (counts.len() - 1) as nat
            },
            |i: int| planned_line(counts[i + 1] as int, deltas[i] as int),
        ),
    }
}

/// The change that the row at `index` makes: its stitch count less that of
/// the row before it. The first row starts from nothing.
pub open spec fn line_delta(counts: Seq<i32>, index: int) -> int {
    if index == 0 {
        counts[0] as int
    } else {
        counts[index] - counts[index - 1]
    }
}

/// The rows of the pattern with the given stitch counts, from the first
/// row on: every row works its own stitch count and makes the change that
/// leads to it.
pub open spec fn planned_pattern(counts: Seq<i32>) -> PatternModel {
    PatternModel {
        first_line: 1,
        lines: Seq::new(
            counts.len(),
            |i: int| planned_line(counts[i] as int, line_delta(counts, i)),
        ),
    }
}

/// The report line of a row: its number, then the row as text.
pub open spec fn numbered_line(number: nat, line: LineModel) -> Seq<char> {
    "line #"@ + nat_text(number) + ", "@ + line_text(line)
}

/// The lines of the report, one for each row, in row order and numbered
/// on from the number of the first row.
pub open spec fn report_lines(pattern: PatternModel) -> Seq<Seq<char>> {
    Seq::new(
        pattern.lines.len(),
        |i: int| numbered_line((pattern.first_line + i) as nat, pattern.lines[i]),
    )
}

/// The report: its lines with a line break between them.
pub open spec fn report_text(pattern: PatternModel) -> Seq<char> {
    joined(report_lines(pattern), "\n"@)
}

/// The whole pattern is what pairing gives once a row without stitches is
/// put in front of the counts: then every count, the first one too, has a
/// change that leads to it. The numbers move down by one, since the row put
/// in front is none of the pattern.
pub proof fn lemma_pattern_pairs_from_nothing(counts: Seq<i32>, deltas: Seq<i32>)
    requires
        deltas.len() == counts.len(),
        forall|i: int|
            0 <= i < deltas.len() ==> #[trigger] deltas[i] as int == forward_difference(
                seq![0i32] + counts,
            )[i],
    ensures
        planned_pattern(counts).lines == paired_lines(deltas, seq![0i32] + counts).lines,
        planned_pattern(counts).first_line + 1 == paired_lines(
            deltas,
            seq![0i32] + counts,
        ).first_line,
{
    let from_nothing = seq![0i32] + counts;
    assert forall|i: int| 0 <= i < counts.len() implies #[trigger] planned_pattern(
        counts,
    ).lines[i] == paired_lines(deltas, from_nothing).lines[i] by {
        assert(deltas[i] as int == forward_difference(from_nothing)[i]);
    }
    assert(planned_pattern(counts).lines =~= paired_lines(deltas, from_nothing).lines);
}

/// Paired with the changes between them, the counts of a pattern give the
/// rows of the whole pattern but the first, each under the number that it
/// has in the whole pattern, and so each with the same report line.
pub proof fn lemma_paired_lines_continue_pattern(counts: Seq<i32>, deltas: Seq<i32>)
    requires
        counts.len() >= 1,
        deltas.len() == counts.len() - 1,
        forall|i: int|
            0 <= i < deltas.len() ==> #[trigger] deltas[i] as int == forward_difference(counts)[i],
    ensures
        paired_lines(deltas, counts).lines == planned_pattern(counts).lines.skip(1),
        paired_lines(deltas, counts).first_line == planned_pattern(counts).first_line + 1,
        report_lines(paired_lines(deltas, counts)) == report_lines(planned_pattern(counts)).skip(1),
{
    let paired = paired_lines(deltas, counts);
    let whole = planned_pattern(counts);
    assert forall|i: int| 0 <= i < deltas.len() implies #[trigger] paired.lines[i]
        == whole.lines[i + 1] by {
        assert(deltas[i] as int == forward_difference(counts)[i]);
    }
    assert(paired.lines =~= whole.lines.skip(1));
    assert(report_lines(paired) =~= report_lines(whole).skip(1));
}

/// A stitch count below zero, which no row can have.
#[derive(Debug, Clone, Copy, PartialEq, Eq, Structural)]
pub struct NegativeStitchCount {
    /// The place of the first such count, counted from zero.
    pub line: usize,
    /// The count found there.
    pub stitches: i32,
}

/// The changes between consecutive stitch counts.
///
/// Every change has to fit an `i32`, as it does wherever no count is
/// negative.
pub fn delta_stitches(stitches_per_line: &[i32]) -> (deltas: Vec<i32>)
    requires
        forall|i: int|
            1 <= i < stitches_per_line@.len() ==> i32::MIN <= (#[trigger] stitches_per_line@[i])
                - stitches_per_line@[i - 1] <= i32::MAX,
    ensures
        deltas@.len() == forward_difference(stitches_per_line@).len(),
        forall|i: int|
            0 <= i < deltas@.len() ==> #[trigger] deltas@[i] as int == forward_difference(
                stitches_per_line@,
            )[i],
{
    let mut deltas: Vec<i32> = Vec::new();
    let mut line_index: usize = 1;
    while line_index < stitches_per_line.len()
        invariant
            1 <= line_index,
            deltas@.len() == line_index - 1,
            line_index <= stitches_per_line@.len() || deltas@.len() == 0,
            forall|i: int|
                1 <= i < stitches_per_line@.len() ==> i32::MIN <= (
                #[trigger] stitches_per_line@[i]) - stitches_per_line@[i - 1] <= i32::MAX,
            forall|i: int|
                0 <= i < deltas@.len() ==> #[trigger] deltas@[i] as int == stitches_per_line@[i + 1]
                    - stitches_per_line@[i],
        decreases stitches_per_line@.len() - line_index,
    {
        deltas.push(stitches_per_line[line_index] - stitches_per_line[line_index - 1]);
        line_index = line_index + 1;
    }
    deltas
}

impl LineInstructions {
    /// The rows, in row order.
    pub closed spec fn rows(&self) -> Seq<LineInstruction> {
        self.rows@
    }

    /// The number of the first of the rows.
    pub closed spec fn first_number(&self) -> nat {
        self.first_line as nat
    }

    /// Every row holds the even distribution of its own change.
    pub open spec fn wf(&self) -> bool {
        forall|i: int| 0 <= i < self.rows().len() ==> (#[trigger] self.rows()[i]).wf()
    }

    /// The pattern that holds the given rows, whatever they are, from the
    /// first row of the pattern on.
    pub fn from_rows(rows: Vec<LineInstruction>) -> (lines: LineInstructions)
        ensures
            lines.rows() == rows@,
            lines@.first_line == 1,
    {
        LineInstructions { rows, first_line: 1 }
    }

    /// The number under which the first of the rows is written.
    pub fn first_line(&self) -> (number: usize)
        ensures
            number == self@.first_line,
    {
        self.first_line
    }

    /// Plans one row for each change, as far as the stitch counts reach.
    ///
    /// `stitches` holds the counts of consecutive rows and `delta_stitches`
    /// the changes between them, so the change at place `i` leads from the
    /// count at place `i` to the count at place `i + 1`. The row planned for
    /// it works the count that it leads to, `stitches[i + 1]`, and makes the
    /// change `delta_stitches[i]`. The first count gets no row, since no
    /// change leads to it: the rows begin with the second row of the
    /// pattern, and are numbered from two.
    pub fn generate(delta_stitches: &[i32], stitches: &[i32]) -> (lines: LineInstructions)
        requires
            forall|j: int|
                1 <= j < stitches@.len() && j - 1 < delta_stitches@.len() ==> #[trigger] stitches@[j]
                    >= 0,
            forall|i: int|
                0 <= i < delta_stitches@.len() && i + 1 < stitches@.len() && stitches@[i + 1] == 1
                    ==> #[trigger] delta_stitches@[i] > i32::MIN,
        ensures
            lines@ == paired_lines(delta_stitches@, stitches@),
            lines.wf(),
            lines@.first_line == 2,
            forall|i: int|
                0 <= i < lines@.lines.len() ==> (#[trigger] lines@.lines[i]).stitch_info.len()
                    == stitches@[i + 1],
            forall|i: int|
                0 <= i < lines@.lines.len() && stitches@[i + 1] > 0 ==> total_effect(
                    (#[trigger] lines@.lines[i]).stitch_info,
                ) == delta_stitches@[i],
    {
        let reach = if stitches.len() == 0 {
            0
        } else if delta_stitches.len() <= stitches.len() - 1 {
            delta_stitches.len()
        } else {
            stitches.len() - 1
        };
        let mut rows: Vec<LineInstruction> = Vec::with_capacity(reach);
        let mut i: usize = 0;
        while i < reach
            invariant
                i <= reach,
                reach <= delta_stitches@.len(),
                reach < stitches@.len() || reach == 0,
                rows@.len() == i,
                forall|j: int| 1 <= j <= reach ==> #[trigger] stitches@[j] >= 0,
                forall|j: int|
                    0 <= j < reach && stitches@[j + 1] == 1 ==> #[trigger] delta_stitches@[j]
                        > i32::MIN,
                forall|j: int|
                    0 <= j < i ==> (#[trigger] rows@[j])@ == planned_line(
                        stitches@[j + 1] as int,
                        delta_stitches@[j] as int,
                    ),
                forall|j: int| 0 <= j < i ==> (#[trigger] rows@[j]).wf(),
                forall|j: int|
                    0 <= j < i ==> (#[trigger] rows@[j]).stitch_info@.len() == stitches@[j + 1],
                forall|j: int|
                    0 <= j < i && stitches@[j + 1] > 0 ==> total_effect(
                        (#[trigger] rows@[j]).stitch_info@,
                    ) == delta_stitches@[j],
            decreases reach - i,
        {
            rows.push(LineInstruction::generate(stitches[i + 1], delta_stitches[i]));
            i = i + 1;
        }
        let lines = LineInstructions { rows, first_line: 2 };
        assert(lines@.lines =~= paired_lines(delta_stitches@, stitches@).lines);
        lines
    }

    /// Plans the whole pattern from its stitch counts, one row for each
    /// count, numbered from one. A row works as many stitches as its count
    /// says and makes the change from the count of the row before; the
    /// first row starts from nothing, as if a row without stitches stood
    /// before it. A count below zero is refused, and nothing is planned.
    pub fn plan(stitches_per_line: &[i32]) -> (planned: Result<LineInstructions, NegativeStitchCount>)
        ensures
            match planned {
                Ok(lines) => {
                    &&& forall|i: int|
                        0 <= i < stitches_per_line@.len() ==> stitches_per_line@[i] >= 0
                    &&& lines@ == planned_pattern(stitches_per_line@)
                    &&& lines.wf()
                },
                Err(refused) => {
                    &&& refused.line < stitches_per_line@.len()
                    &&& refused.stitches == stitches_per_line@[refused.line as int]
                    &&& refused.stitches < 0
                    &&& forall|i: int| 0 <= i < refused.line ==> stitches_per_line@[i] >= 0
                },
            },
    {
        let mut from_nothing: Vec<i32> = Vec::new();
        from_nothing.push(0);
        let mut line: usize = 0;
        while line < stitches_per_line.len()
            invariant
                line <= stitches_per_line@.len(),
                from_nothing@ == seq![0i32] + stitches_per_line@.take(line as int),
                forall|i: int| 0 <= i < line ==> stitches_per_line@[i] >= 0,
            decreases stitches_per_line@.len() - line,
        {
            if stitches_per_line[line] < 0 {
                return Err(NegativeStitchCount { line, stitches: stitches_per_line[line] });
            }
            from_nothing.push(stitches_per_line[line]);
            proof {
                assert(from_nothing@ =~= seq![0i32] + stitches_per_line@.take(line + 1));
            }
            line = line + 1;
        }
        proof {
            assert(stitches_per_line@.take(line as int) =~= stitches_per_line@);
        }
        let deltas = delta_stitches(from_nothing.as_slice());
        let paired = LineInstructions::generate(deltas.as_slice(), from_nothing.as_slice());
        proof {
            lemma_pattern_pairs_from_nothing(stitches_per_line@, deltas@);
        }
        // The row put in front was none of the pattern: the rows keep their
        // order and are numbered from one.
        let lines = LineInstructions { rows: paired.rows, first_line: 1 };
        Ok(lines)
    }

    /// Appends the report to `out`: one numbered line for each row, with a
    /// line break between two lines.
    pub fn push_text(&self, out: &mut String)
        ensures
            final(out)@ == old(out)@ + report_text(self@),
    {
        let ghost head = out@;
        let ghost lines = report_lines(self@);
        let mut i: usize = 0;
        proof {
            assert(lines.take(0) =~= Seq::<Seq<char>>::empty());
        }
        while i < self.rows.len()
            invariant
                i <= self.rows@.len(),
                lines == report_lines(self@),
                lines.len() == self.rows@.len(),
                out@ == head + joined(lines.take(i as int), "\n"@),
            decreases self.rows@.len() - i,
        {
            if i > 0 {
                out.append("\n");
            }
            let ghost start = out@;
            out.append("line #");
            push_nat(out, self.first_line as u128 + i as u128);
            out.append(", ");
            self.rows[i].push_text(out);
            proof {
                assert(out@ =~= start + lines[i as int]);
                lemma_joined_push(lines.take(i as int), "\n"@, lines[i as int]);
                assert(lines.take(i as int).push(lines[i as int]) =~= lines.take(i + 1));
            }
            i = i + 1;
        }
        proof {
            assert(lines.take(lines.len() as int) =~= lines);
        }
    }

    /// The report as text.
    pub fn to_string(&self) -> (text: String)
        ensures
            text@ == report_text(self@),
    {
        let mut text = String::new();
        self.push_text(&mut text);
        text
    }
}

} // verus!
