use asm_frontend::source::split_source;

#[test]
fn lines_are_numbered_by_place_in_file() {
    let text = "\n  .SET A 1  \n\nLOAD A1 ; load\n; only a comment\n\tADD B1\n";
    assert_eq!(
        split_source(text),
        vec![(1, ".SET A 1".to_string()), (3, "LOAD A1".to_string()), (5, "ADD B1".to_string())]
    );
}

#[test]
fn empty_text_has_no_lines() {
    assert_eq!(split_source(""), vec![]);
    assert_eq!(split_source(" \n\t\n"), vec![]);
}

#[test]
fn last_line_without_newline_is_kept() {
    assert_eq!(split_source("NOP\nHALT"), vec![(0, "NOP".to_string()), (1, "HALT".to_string())]);
}

#[test]
fn carriage_returns_and_unicode_spaces_are_trimmed() {
    assert_eq!(split_source("NOP\r\n\u{3000}HALT\u{a0}"), vec![(0, "NOP".to_string()), (1, "HALT".to_string())]);
}

#[test]
fn comment_cuts_the_line_before_trimming() {
    assert_eq!(split_source("  MOV A1 , B1   ;x; y"), vec![(0, "MOV A1 , B1".to_string())]);
}
