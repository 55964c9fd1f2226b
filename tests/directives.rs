use asm_frontend::directive::{run_directive, DotInstrctionsProcessor};
use asm_frontend::scan::{one_arg, scan_setting, two_args};
use asm_frontend::value::{ParseError, SettingValue};

fn lines(texts: &[&str]) -> Vec<(usize, String)> {
    texts.iter().enumerate().map(|(i, t)| (i, t.to_string())).collect()
}

fn run(texts: &[&str]) -> DotInstrctionsProcessor {
    let (mut p, _) = DotInstrctionsProcessor::new(lines(texts));
    p.generate();
    p
}

#[test]
fn set_decimal_value() {
    assert_eq!(run_directive(".SET NAME 10"), Ok(("NAME".to_string(), SettingValue::Num(10))));
}

#[test]
fn set_hex_value() {
    assert_eq!(run_directive(".SET NAME 0AH"), Ok(("NAME".to_string(), SettingValue::Num(10))));
    assert_eq!(run_directive(".SET WIDTH 10H"), Ok(("WIDTH".to_string(), SettingValue::Num(16))));
    assert_eq!(run_directive(".SET W ffH"), Ok(("W".to_string(), SettingValue::Num(255))));
}

#[test]
fn set_octal_value() {
    assert_eq!(run_directive(".SET NAME 7O"), Ok(("NAME".to_string(), SettingValue::Num(7))));
    assert_eq!(run_directive(".SET NAME 17O"), Ok(("NAME".to_string(), SettingValue::Num(15))));
}

#[test]
fn set_binary_value() {
    assert_eq!(run_directive(".SET NAME 101B"), Ok(("NAME".to_string(), SettingValue::Num(5))));
}

#[test]
fn set_quoted_booleans() {
    assert_eq!(run_directive(".SET FLAG \"TRUE\""), Ok(("FLAG".to_string(), SettingValue::Bool(true))));
    assert_eq!(run_directive(".SET FLAG \"true\""), Ok(("FLAG".to_string(), SettingValue::Bool(true))));
    assert_eq!(run_directive(".SET FLAG \"FALSE\""), Ok(("FLAG".to_string(), SettingValue::Bool(false))));
    assert_eq!(run_directive(".SET FLAG \"fAlSe\""), Ok(("FLAG".to_string(), SettingValue::Bool(false))));
}

#[test]
fn set_quoted_string_verbatim() {
    assert_eq!(
        run_directive(".SET NAME \"hello\""),
        Ok(("NAME".to_string(), SettingValue::Str("hello".to_string())))
    );
    assert_eq!(
        run_directive(".SET NAME \"a b\tc\""),
        Ok(("NAME".to_string(), SettingValue::Str("a b\tc".to_string())))
    );
}

#[test]
fn name_starting_with_digit_fails() {
    assert_eq!(run_directive(".SET 1NAME 5"), Err(ParseError::ArgumentStartsWithDigit));
}

#[test]
fn name_starting_with_symbol_fails() {
    assert_eq!(run_directive(".SET -NAME 5"), Err(ParseError::ArgumentStartsWithInvalidSymbol));
    assert_eq!(run_directive(".SET _NAME 5"), Ok(("_NAME".to_string(), SettingValue::Num(5))));
}

#[test]
fn trailing_argument_fails() {
    assert_eq!(run_directive(".SET NAME 5 EXTRA"), Err(ParseError::TooManyArguments));
    assert_eq!(run_directive(".SET NAME \"x\" EXTRA"), Err(ParseError::TooManyArguments));
    assert_eq!(run_directive(".SET NAME 5  \t"), Ok(("NAME".to_string(), SettingValue::Num(5))));
}

#[test]
fn malformed_numbers_fail() {
    assert_eq!(run_directive(".SET NAME 12A"), Err(ParseError::MalformedNumber));
    assert_eq!(run_directive(".SET NAME 102B"), Err(ParseError::MalformedNumber));
    assert_eq!(run_directive(".SET NAME 8O"), Err(ParseError::MalformedNumber));
    assert_eq!(run_directive(".SET NAME H"), Err(ParseError::MalformedNumber));
    assert_eq!(run_directive(".SET NAME"), Err(ParseError::MalformedNumber));
    assert_eq!(run_directive(".SET NAME +5"), Err(ParseError::MalformedNumber));
}

#[test]
fn number_limits() {
    let max = format!(".SET N {}", usize::MAX);
    assert_eq!(run_directive(&max), Ok(("N".to_string(), SettingValue::Num(usize::MAX))));
    let over = format!(".SET N {}0", usize::MAX);
    assert_eq!(run_directive(&over), Err(ParseError::MalformedNumber));
}

#[test]
fn unknown_and_unsupported_directives() {
    assert_eq!(run_directive(".FOO X 1"), Err(ParseError::UnknownDirective));
    assert_eq!(run_directive(".SETX 1"), Err(ParseError::UnknownDirective));
    assert_eq!(run_directive(".DATA X 1"), Err(ParseError::UnsupportedDirective));
    assert_eq!(run_directive(".ARRAY X 1"), Err(ParseError::UnsupportedDirective));
    assert_eq!(run_directive(".DEFINE X 1"), Err(ParseError::UnsupportedDirective));
}

// The keyword ends at a space or at a tab; either one must move the scanner on.
#[test]
fn tab_separates_keyword() {
    assert_eq!(run_directive(".SET\tNAME\t3"), Ok(("NAME".to_string(), SettingValue::Num(3))));
    assert_eq!(two_args("\tA 1"), Ok(("A".to_string(), SettingValue::Num(1))));
}

#[test]
fn scan_setting_reports_quoting() {
    assert_eq!(scan_setting(" N \"v w\""), Ok(("N".to_string(), vec!['v', ' ', 'w'], true)));
    assert_eq!(scan_setting(" N 7O"), Ok(("N".to_string(), vec!['7', 'O'], false)));
}

#[test]
fn one_arg_reads_a_single_token() {
    assert_eq!(one_arg(" NAME"), Ok("NAME".to_string()));
    assert_eq!(one_arg("\tNAME  "), Ok("NAME".to_string()));
    assert_eq!(one_arg(" 9NAME"), Err(ParseError::ArgumentStartsWithDigit));
    assert_eq!(one_arg(" #NAME"), Err(ParseError::ArgumentStartsWithInvalidSymbol));
    assert_eq!(one_arg(" NAME OTHER"), Err(ParseError::TooManyArguments));
}

#[test]
fn new_separates_lines() {
    let (p, rest) = DotInstrctionsProcessor::new(lines(&[".SET A 1", "LOAD A1", "", ".DATA X", "ADD B1"]));
    assert_eq!(p.lines(), &vec![(0, ".SET A 1".to_string()), (3, ".DATA X".to_string())]);
    assert_eq!(rest, vec![(1, "LOAD A1".to_string()), (4, "ADD B1".to_string())]);
    assert!(p.errors().is_empty());
    assert!(p.settings().is_empty());
}

#[test]
fn last_write_wins() {
    let p = run(&[".SET X 5", ".SET X 6"]);
    assert_eq!(p.get("X"), Some(&SettingValue::Num(6)));
    assert_eq!(p.settings().len(), 1);
}

#[test]
fn new_names_are_inserted() {
    let p = run(&[".SET A 1", ".SET B \"on\""]);
    assert_eq!(p.get("A"), Some(&SettingValue::Num(1)));
    assert_eq!(p.get("B"), Some(&SettingValue::Str("on".to_string())));
    assert_eq!(p.get("C"), None);
}

#[test]
fn errors_are_collected_and_processing_continues() {
    let p = run(&[".SET 1A 5", "NOP", ".SET B 2", ".FOO", ".SET C 3 4", ".DATA D"]);
    assert_eq!(p.get("B"), Some(&SettingValue::Num(2)));
    assert_eq!(p.get("C"), None);
    assert_eq!(
        p.errors(),
        &vec![
            (0, ParseError::ArgumentStartsWithDigit),
            (3, ParseError::UnknownDirective),
            (4, ParseError::TooManyArguments),
            (5, ParseError::UnsupportedDirective),
        ]
    );
}

#[test]
fn rerun_gives_same_registry_and_errors() {
    let input = [".SET X 5", ".SET Y \"TRUE\"", ".SET -Z 1", ".SET X 0AH"];
    let a = run(&input);
    let b = run(&input);
    assert_eq!(a.settings(), b.settings());
    assert_eq!(a.errors(), b.errors());
    assert_eq!(a.get("X"), Some(&SettingValue::Num(10)));
}

#[test]
fn generate_twice_keeps_registry() {
    let (mut p, _) = DotInstrctionsProcessor::new(lines(&[".SET X 5", ".SET Y 1B", ".SET X 7"]));
    p.generate();
    let first = p.settings().clone();
    p.generate();
    assert_eq!(p.settings(), &first);
}

// Only spaces and tabs are skipped before the first argument: a newline there
// is the argument's first character.
#[test]
fn newline_before_argument_is_not_skipped() {
    assert_eq!(one_arg(" \n1"), Ok("\n1".to_string()));
    assert_eq!(two_args(" \nA 1"), Ok(("\nA".to_string(), SettingValue::Num(1))));
    assert_eq!(one_arg(" \t 1"), Err(ParseError::ArgumentStartsWithDigit));
}
