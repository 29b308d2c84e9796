use crochet_pattern::line::LineInstruction;
use crochet_pattern::report::{delta_stitches, LineInstructions, NegativeStitchCount};
use crochet_pattern::stitch::Stitch;

#[test]
fn deltas_are_forward_differences() {
    assert_eq!(delta_stitches(&[0, 6, 13]), vec![6, 7]);
    assert_eq!(delta_stitches(&[0, 6, 11, 13, 11, 6]), vec![6, 5, 2, -2, -5]);
    assert_eq!(delta_stitches(&[5, 5, 5]), vec![0, 0]);
}

#[test]
fn deltas_of_short_inputs_are_empty() {
    assert_eq!(delta_stitches(&[]), Vec::<i32>::new());
    assert_eq!(delta_stitches(&[9]), Vec::<i32>::new());
}

#[test]
fn deltas_reach_the_ends_of_the_range() {
    assert_eq!(delta_stitches(&[0, i32::MAX, 0]), vec![i32::MAX, -i32::MAX]);
    assert_eq!(delta_stitches(&[-1, i32::MAX - 1]), vec![i32::MAX]);
    assert_eq!(delta_stitches(&[0, i32::MIN]), vec![i32::MIN]);
    assert_eq!(delta_stitches(&[i32::MAX, -1]), vec![i32::MIN]);
}

#[test]
fn generate_gives_each_change_the_count_it_leads_to() {
    let lines = LineInstructions::generate(&[6, 7], &[0, 6, 13]);
    assert_eq!(lines.len(), 2);
    assert_eq!(lines[0].stitches, 6);
    assert_eq!(lines[0].increase_stitches, 6);
    assert_eq!(lines[0].stitch_info, vec![Stitch::Increase(1); 6]);
    assert_eq!(lines[1].stitches, 13);
    assert_eq!(lines[1].increase_stitches, 7);
    assert_eq!(lines[1].stitch_info.len(), 13);
    assert_eq!(lines.first_line(), 2);
    assert_eq!(
        lines.to_string(),
        "line #2, 6 + 6 stitches: inc,inc,inc,inc,inc,inc\n\
         line #3, 13 + 7 stitches: sc,inc,sc,inc,sc,inc,sc,inc,sc,inc,sc,inc,inc"
    );
}

#[test]
fn generate_reaches_as_far_as_both_inputs() {
    assert_eq!(LineInstructions::generate(&[1, 2, 3], &[4]).len(), 0);
    assert_eq!(LineInstructions::generate(&[1, 2, 3], &[4, 5]).len(), 1);
    assert_eq!(LineInstructions::generate(&[1], &[4, 5, 6]).len(), 1);
    assert_eq!(LineInstructions::generate(&[1, 1], &[4, 5, 6]).len(), 2);
    assert_eq!(LineInstructions::generate(&[1, 1, 1], &[4, 5, 6]).len(), 2);
    assert_eq!(LineInstructions::generate(&[], &[4, 5, 6]).len(), 0);
    assert_eq!(LineInstructions::generate(&[1, 2], &[]).len(), 0);
    let lines = LineInstructions::generate(&[1, 2, 3], &[4, 5]);
    assert_eq!(lines[0].stitches, 5);
    assert_eq!(lines[0].increase_stitches, 1);
}

#[test]
fn generate_never_reads_the_first_count_as_a_row() {
    let lines = LineInstructions::generate(&[3], &[-40, 3]);
    assert_eq!(lines.len(), 1);
    assert_eq!(lines[0].stitches, 3);
    assert_eq!(lines[0].stitch_info, vec![Stitch::Increase(1); 3]);
}

#[test]
fn generated_rows_are_those_of_single_rows() {
    let stitches = [7, 10, 8, 8, 17];
    let deltas = delta_stitches(&stitches);
    assert_eq!(deltas, vec![3, -2, 0, 9]);
    let lines = LineInstructions::generate(&deltas, &stitches);
    assert_eq!(lines.len(), 4);
    for i in 0..4 {
        let alone = LineInstruction::generate(stitches[i + 1], deltas[i]);
        assert_eq!(lines[i].stitches, alone.stitches);
        assert_eq!(lines[i].increase_stitches, alone.increase_stitches);
        assert_eq!(lines[i].stitch_info, alone.stitch_info);
    }
}

#[test]
fn generated_rows_keep_count_and_change() {
    let stitches = [0, 6, 11, 13, 11, 6, 1];
    let deltas = delta_stitches(&stitches);
    let lines = LineInstructions::generate(&deltas, &stitches);
    assert_eq!(lines.len(), stitches.len() - 1);
    for (i, line) in lines.iter().enumerate() {
        assert_eq!(line.stitches, stitches[i + 1]);
        assert_eq!(line.increase_stitches, stitches[i + 1] - stitches[i]);
        assert_eq!(line.stitch_info.len(), stitches[i + 1] as usize);
        let sum: i32 = line
            .stitch_info
            .iter()
            .map(|stitch| match stitch {
                Stitch::Decrease(n) => -*n,
                Stitch::Single => 0,
                Stitch::Increase(n) => *n,
            })
            .sum();
        assert_eq!(sum, deltas[i]);
    }
}

#[test]
fn plan_is_generate_from_an_empty_row() {
    let stitches = [0, 6, 11, 13, 11, 6];
    let planned = LineInstructions::plan(&stitches).unwrap();
    let mut from_nothing = vec![0];
    from_nothing.extend_from_slice(&stitches);
    let generated =
        LineInstructions::generate(&delta_stitches(&from_nothing), &from_nothing);
    assert_eq!(planned.first_line(), 1);
    assert_eq!(generated.first_line(), 2);
    assert_eq!(planned.len(), generated.len());
    for i in 0..planned.len() {
        assert_eq!(planned[i].to_string(), generated[i].to_string());
        assert_eq!(planned[i].stitch_info, generated[i].stitch_info);
    }
}

#[test]
fn generate_writes_each_row_under_its_number_in_the_pattern() {
    let stitches = [0, 6, 11, 13, 11, 6];
    let planned = LineInstructions::plan(&stitches).unwrap();
    let generated = LineInstructions::generate(&delta_stitches(&stitches), &stitches);
    assert_eq!(generated.len(), planned.len() - 1);
    let whole = planned.to_string();
    let tail = generated.to_string();
    let whole_lines: Vec<&str> = whole.split('\n').collect();
    let tail_lines: Vec<&str> = tail.split('\n').collect();
    assert_eq!(whole_lines.len(), 6);
    assert_eq!(tail_lines.len(), 5);
    assert_eq!(whole_lines[0], "line #1, 0 + 0 stitches: ");
    assert_eq!(tail_lines[0], "line #2, 6 + 6 stitches: inc,inc,inc,inc,inc,inc");
    assert_eq!(&whole_lines[1..], &tail_lines[..]);
}

#[test]
fn from_rows_holds_any_rows_and_numbers_them_from_one() {
    let rows = vec![
        LineInstruction { stitches: 3, increase_stitches: 0, stitch_info: vec![Stitch::Single; 3] },
        LineInstruction {
            stitches: 9,
            increase_stitches: -4,
            stitch_info: vec![Stitch::Decrease(2), Stitch::Single, Stitch::Increase(1)],
        },
    ];
    let lines = LineInstructions::from_rows(rows.clone());
    assert_eq!(lines.first_line(), 1);
    assert_eq!(lines.len(), 2);
    for i in 0..2 {
        assert_eq!(lines[i].stitches, rows[i].stitches);
        assert_eq!(lines[i].increase_stitches, rows[i].increase_stitches);
        assert_eq!(lines[i].stitch_info, rows[i].stitch_info);
    }
    assert_eq!(
        lines.to_string(),
        "line #1, 3 + 0 stitches: 3\nline #2, 9 + -4 stitches: dec2,sc,inc"
    );
    assert_eq!(LineInstructions::from_rows(Vec::new()).to_string(), "");
}

#[test]
fn flat_plane_three_rows() {
    let stitches_per_line = [0, 6, 13];
    assert_eq!(delta_stitches(&stitches_per_line), vec![6, 7]);

    let second = LineInstruction::generate(6, 6);
    assert_eq!(second.stitch_info, vec![Stitch::Increase(1); 6]);

    let paired = LineInstructions::generate(&[6, 7], &stitches_per_line);
    assert_eq!(paired[0].stitches, 6);
    assert_eq!(paired[0].increase_stitches, 6);
    assert_eq!(paired[0].stitch_info, vec![Stitch::Increase(1); 6]);
    let paired_report = paired.to_string();
    let paired_lines: Vec<&str> = paired_report.split('\n').collect();
    assert_eq!(paired_lines[0], "line #2, 6 + 6 stitches: inc,inc,inc,inc,inc,inc");

    let lines = LineInstructions::plan(&stitches_per_line).unwrap();
    assert_eq!(lines.len(), 3);
    assert_eq!(lines[1].stitches, 6);
    assert_eq!(lines[1].increase_stitches, 6);
    assert_eq!(lines[1].stitch_info, vec![Stitch::Increase(1); 6]);

    let report = lines.to_string();
    let written: Vec<&str> = report.split('\n').collect();
    assert_eq!(written.len(), 3);
    assert_eq!(written[1], "line #2, 6 + 6 stitches: inc,inc,inc,inc,inc,inc");
}

#[test]
fn flat_plane_report_in_full() {
    let lines = LineInstructions::plan(&[0, 6, 13]).unwrap();
    assert_eq!(
        lines.to_string(),
        "line #1, 0 + 0 stitches: \n\
         line #2, 6 + 6 stitches: inc,inc,inc,inc,inc,inc\n\
         line #3, 13 + 7 stitches: sc,inc,sc,inc,sc,inc,sc,inc,sc,inc,sc,inc,inc"
    );
}

#[test]
fn plan_gives_each_row_the_change_that_leads_to_it() {
    let counts = [0, 6, 11, 13, 11, 6];
    let lines = LineInstructions::plan(&counts).unwrap();
    assert_eq!(lines.len(), counts.len());
    let mut before = 0;
    for i in 0..counts.len() {
        assert_eq!(lines[i].stitches, counts[i]);
        assert_eq!(lines[i].increase_stitches, counts[i] - before);
        assert_eq!(lines[i].stitch_info.len(), counts[i] as usize);
        before = counts[i];
    }
}

#[test]
fn sphere_rows_shrink_again() {
    let lines = LineInstructions::plan(&[0, 6, 11, 13, 11, 6]).unwrap();
    assert_eq!(
        lines.to_string(),
        "line #1, 0 + 0 stitches: \n\
         line #2, 6 + 6 stitches: inc,inc,inc,inc,inc,inc\n\
         line #3, 11 + 5 stitches: 2,inc,sc,inc,sc,inc,sc,inc,sc,inc\n\
         line #4, 13 + 2 stitches: 6,inc,5,inc\n\
         line #5, 11 + -2 stitches: dec,4,dec,5\n\
         line #6, 6 + -5 stitches: dec,dec,dec,dec,dec,sc"
    );
}

#[test]
fn plan_of_nothing_is_an_empty_report() {
    let lines = LineInstructions::plan(&[]).unwrap();
    assert_eq!(lines.len(), 0);
    assert_eq!(lines.to_string(), "");
}

#[test]
fn plan_of_one_row() {
    let lines = LineInstructions::plan(&[3]).unwrap();
    assert_eq!(lines.len(), 1);
    assert_eq!(lines.to_string(), "line #1, 3 + 3 stitches: inc,inc,inc");
}

#[test]
fn plan_refuses_a_negative_count() {
    let refused = LineInstructions::plan(&[0, 6, -1, 4, -9]).unwrap_err();
    assert_eq!(refused, NegativeStitchCount { line: 2, stitches: -1 });
    let refused = LineInstructions::plan(&[i32::MIN]).unwrap_err();
    assert_eq!(refused, NegativeStitchCount { line: 0, stitches: i32::MIN });
}

#[test]
fn report_numbers_lines_from_one() {
    let lines = LineInstructions::plan(&[1; 12]).unwrap();
    let report = lines.to_string();
    let written: Vec<&str> = report.split('\n').collect();
    assert_eq!(written.len(), 12);
    assert_eq!(written[0], "line #1, 1 + 1 stitches: inc");
    for (i, line) in written.iter().enumerate().skip(1) {
        assert_eq!(*line, format!("line #{}, 1 + 0 stitches: sc", i + 1));
    }
    assert!(!report.ends_with('\n'));
}

#[test]
fn report_of_changes_numbers_lines_from_two() {
    let lines = LineInstructions::generate(&[0; 12], &[1; 13]);
    let report = lines.to_string();
    let written: Vec<&str> = report.split('\n').collect();
    assert_eq!(written.len(), 12);
    for (i, line) in written.iter().enumerate() {
        assert_eq!(*line, format!("line #{}, 1 + 0 stitches: sc", i + 2));
    }
    assert!(!report.ends_with('\n'));
}

#[test]
fn report_is_appended_to_what_is_there() {
    let lines = LineInstructions::generate(&[0, 1], &[2, 2, 3]);
    let mut text = String::from("pattern\n");
    lines.push_text(&mut text);
    assert_eq!(text, "pattern\nline #2, 2 + 0 stitches: 2\nline #3, 3 + 1 stitches: 2,inc");
}

#[test]
fn rows_can_be_walked_in_order() {
    let lines = LineInstructions::plan(&[0, 6, 13]).unwrap();
    let counts: Vec<i32> = lines.iter().map(|line| line.stitches).collect();
    assert_eq!(counts, vec![0, 6, 13]);
    let changes: Vec<i32> = lines.iter().map(|line| line.increase_stitches).collect();
    assert_eq!(changes, vec![0, 6, 7]);
    let copy = lines.clone();
    assert_eq!(copy.to_string(), lines.to_string());
}

#[test]
fn rows_are_written_one_by_one_as_in_the_report() {
    let lines = LineInstructions::plan(&[0, 6, 11, 13]).unwrap();
    let report = lines.to_string();
    let written: Vec<&str> = report.split('\n').collect();
    assert_eq!(written.len(), lines.len());
    for (i, line) in lines.iter().enumerate() {
        assert_eq!(written[i], format!("line #{}, {}", i + 1, line.to_string()));
    }
}
