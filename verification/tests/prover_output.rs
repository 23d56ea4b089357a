use goliath::error_analysis::parse_prover_output;

#[test]
fn output_without_error_reports_all_clear() {
    assert_eq!(
        parse_prover_output("everything verified\nall fine\n"),
        "No errors found in the Move Prover output.\n"
    );
}

#[test]
fn empty_output_reports_all_clear() {
    assert_eq!(
        parse_prover_output(""),
        "No errors found in the Move Prover output.\n"
    );
}

#[test]
fn matching_is_case_sensitive() {
    assert_eq!(
        parse_prover_output("Error: loud\n"),
        "No errors found in the Move Prover output.\n"
    );
}

#[test]
fn only_lines_containing_error_are_kept() {
    let out = parse_prover_output("compiling\nerror: x failed\nok\nanother error here\n");
    assert_eq!(
        out,
        "Errors found in the Move Prover output:\nerror: x failed\nanother error here\n"
    );
}

#[test]
fn error_inside_a_word_counts() {
    let out = parse_prover_output("terror plot\ncalm\n");
    assert_eq!(out, "Errors found in the Move Prover output:\nterror plot\n");
}

#[test]
fn carriage_returns_before_line_feeds_are_stripped() {
    let out = parse_prover_output("error: a\r\nerror: b");
    assert_eq!(
        out,
        "Errors found in the Move Prover output:\nerror: a\nerror: b\n"
    );
}

#[test]
fn last_line_without_trailing_newline_is_still_reported() {
    let out = parse_prover_output("fine\nerror at end");
    assert_eq!(out, "Errors found in the Move Prover output:\nerror at end\n");
}
