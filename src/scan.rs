//! The directive-argument scanners: finite-state machines that read the text
//! after a directive keyword, one character at a time.
use vstd::prelude::*;

use crate::text::{chars_of, string_of};
use crate::value::{resolve, resolve_value, ParseError, SettingValue, SettingView};

verus! {

/// A blank: space, tab or line terminator.
pub open spec fn is_blank(c: char) -> bool {
    c == ' ' || c == '\t' || c == '\n'
}

/// A separator, which ends the directive keyword.
pub open spec fn is_separator(c: char) -> bool {
    c == ' ' || c == '\t'
}

pub open spec fn is_ascii_digit(c: char) -> bool {
    '0' <= c <= '9'
}

/// ASCII punctuation, as `char::is_ascii_punctuation` defines it.
pub open spec fn is_ascii_punct(c: char) -> bool {
    ('!' <= c <= '/') || (':' <= c <= '@') || ('[' <= c <= '`') || ('{' <= c <= '~')
}

/// Where a scanner stands.
#[derive(Clone, Copy, Debug, PartialEq, Eq, Structural)]
pub enum ScanState {
    /// Still inside the keyword.
    Idle,
    /// Waiting for the first character of the first argument.
    Arg1FirstChar,
    /// Inside the first argument.
    Arg1,
    /// After the first argument.
    Arg1Finish,
    /// Inside the second argument.
    Arg2,
    /// After the last argument.
    Finish,
}

/// A scanner's state together with what it has read so far.
pub struct ScanModel {
    pub state: ScanState,
    pub quoted: bool,
    pub first: Seq<char>,
    pub second: Seq<char>,
}

pub open spec fn scan_start() -> ScanModel {
    ScanModel { state: ScanState::Idle, quoted: false, first: Seq::empty(), second: Seq::empty() }
}

/// The steps shared by both scanners, up to the end of the first argument.
pub open spec fn step_first(m: ScanModel, c: char) -> Result<ScanModel, ParseError> {
    match m.state {
        ScanState::Idle => if is_separator(c) {
            Ok(ScanModel { state: ScanState::Arg1FirstChar, ..m })
        } else {
            Ok(m)
        },
        ScanState::Arg1FirstChar => if is_separator(c) {
            Ok(m)
        } else if is_ascii_digit(c) {
            Err(ParseError::ArgumentStartsWithDigit)
        } else if is_ascii_punct(c) && c != '_' {
            Err(ParseError::ArgumentStartsWithInvalidSymbol)
        } else {
            Ok(ScanModel { state: ScanState::Arg1, first: m.first.push(c), ..m })
        },
        _ => if is_blank(c) {
            Ok(ScanModel { state: ScanState::Arg1Finish, ..m })
        } else {
            Ok(ScanModel { first: m.first.push(c), ..m })
        },
    }
}

/// One step of the single-argument scanner.
pub open spec fn step_one(m: ScanModel, c: char) -> Result<ScanModel, ParseError> {
    match m.state {
        ScanState::Arg1Finish => if is_blank(c) {
            Ok(m)
        } else {
            Err(ParseError::TooManyArguments)
        },
        ScanState::Arg2 | ScanState::Finish => Err(ParseError::StateMachineInvariant),
        _ => step_first(m, c),
    }
}

/// One step of the two-argument scanner. The second argument is either bare,
/// ending at a blank, or enclosed in double quotes, ending at the closing one.
pub open spec fn step_two(m: ScanModel, c: char) -> Result<ScanModel, ParseError> {
    match m.state {
        ScanState::Arg1Finish => if is_blank(c) {
            Ok(m)
        } else if c == '"' {
            Ok(ScanModel { state: ScanState::Arg2, quoted: true, ..m })
        } else {
            Ok(ScanModel { state: ScanState::Arg2, second: m.second.push(c), ..m })
        },
        ScanState::Arg2 => if (m.quoted && c == '"') || (!m.quoted && is_blank(c)) {
            Ok(ScanModel { state: ScanState::Finish, ..m })
        } else {
            Ok(ScanModel { second: m.second.push(c), ..m })
        },
        ScanState::Finish => if is_blank(c) {
            Ok(m)
        } else {
            Err(ParseError::TooManyArguments)
        },
        _ => step_first(m, c),
    }
}

/// The single-argument scanner run over `s`.
pub open spec fn scan_one(s: Seq<char>) -> Result<ScanModel, ParseError>
    decreases s.len(),
{
    if s.len() == 0 {
        Ok(scan_start())
    } else {
        match scan_one(s.drop_last()) {
            Ok(m) => step_one(m, s.last()),
            Err(e) => Err(e),
        }
    }
}

/// The two-argument scanner run over `s`.
pub open spec fn scan_two(s: Seq<char>) -> Result<ScanModel, ParseError>
    decreases s.len(),
{
    if s.len() == 0 {
        Ok(scan_start())
    } else {
        match scan_two(s.drop_last()) {
            Ok(m) => step_two(m, s.last()),
            Err(e) => Err(e),
        }
    }
}

/// The setting name and typed value that the tail `s` of a `.SET` line gives.
pub open spec fn parse_setting(s: Seq<char>) -> Result<(Seq<char>, SettingView), ParseError> {
    match scan_two(s) {
        Ok(m) => match resolve(m.second, m.quoted) {
            Ok(v) => Ok((m.first, v)),
            Err(e) => Err(e),
        },
        Err(e) => Err(e),
    }
}

/// Once the single-argument scanner fails, reading more text keeps the failure.
proof fn lemma_one_error_sticks(s: Seq<char>, k: int, j: int)
    requires
        0 <= k <= j <= s.len(),
        scan_one(s.take(k)) is Err,
    ensures
        scan_one(s.take(j)) == scan_one(s.take(k)),
    decreases j - k,
{
    if k < j {
        lemma_one_error_sticks(s, k, j - 1);
        assert(s.take(j).drop_last() =~= s.take(j - 1));
    }
}

/// Once the two-argument scanner fails, reading more text keeps the failure.
proof fn lemma_two_error_sticks(s: Seq<char>, k: int, j: int)
    requires
        0 <= k <= j <= s.len(),
        scan_two(s.take(k)) is Err,
    ensures
        scan_two(s.take(j)) == scan_two(s.take(k)),
    decreases j - k,
{
    if k < j {
        lemma_two_error_sticks(s, k, j - 1);
        assert(s.take(j).drop_last() =~= s.take(j - 1));
    }
}

/// The two-argument scanner run over `s` from `m` on.
pub open spec fn run_two(m: Result<ScanModel, ParseError>, s: Seq<char>) -> Result<ScanModel, ParseError>
    decreases s.len(),
{
    if s.len() == 0 {
        m
    } else {
        match run_two(m, s.drop_last()) {
            Ok(x) => step_two(x, s.last()),
            Err(e) => Err(e),
        }
    }
}

/// A setting name as directives write it: a letter or `_`, then letters,
/// digits and `_`.
pub open spec fn is_setting_name(n: Seq<char>) -> bool {
    &&& n.len() > 0
    &&& ('A' <= n[0] <= 'Z' || 'a' <= n[0] <= 'z' || n[0] == '_')
    &&& forall|i: int|
        0 <= i < n.len() ==> ('A' <= #[trigger] n[i] <= 'Z' || 'a' <= n[i] <= 'z' || '0' <= n[i]
            <= '9' || n[i] == '_')
}

proof fn lemma_scan_two_is_run(s: Seq<char>)
    ensures
        scan_two(s) == run_two(Ok(scan_start()), s),
    decreases s.len(),
{
    if s.len() > 0 {
        lemma_scan_two_is_run(s.drop_last());
    }
}

proof fn lemma_run_two_concat(m: Result<ScanModel, ParseError>, a: Seq<char>, b: Seq<char>)
    ensures
        run_two(m, a + b) == run_two(run_two(m, a), b),
    decreases b.len(),
{
    if b.len() == 0 {
        assert(a + b =~= a);
    } else {
        lemma_run_two_concat(m, a, b.drop_last());
        assert((a + b).drop_last() =~= a + b.drop_last());
        assert((a + b).last() == b.last());
    }
}

/// Inside a bare argument, non-blank characters are taken into it.
proof fn lemma_run_two_bare(m: ScanModel, w: Seq<char>)
    requires
        m.state == ScanState::Arg1 || (m.state == ScanState::Arg2 && !m.quoted),
        forall|i: int| 0 <= i < w.len() ==> !is_blank(#[trigger] w[i]),
    ensures
        m.state == ScanState::Arg1 ==> run_two(Ok(m), w) == Ok::<ScanModel, ParseError>(
            ScanModel { first: m.first + w, ..m },
        ),
        m.state == ScanState::Arg2 ==> run_two(Ok(m), w) == Ok::<ScanModel, ParseError>(
            ScanModel { second: m.second + w, ..m },
        ),
    decreases w.len(),
{
    if w.len() == 0 {
        assert(m.first + w =~= m.first);
        assert(m.second + w =~= m.second);
    } else {
        lemma_run_two_bare(m, w.drop_last());
        assert(m.first + w.drop_last() + seq![w.last()] =~= m.first + w);
        assert(m.second + w.drop_last() + seq![w.last()] =~= m.second + w);
        assert(w.drop_last().push(w.last()) =~= w);
        assert((m.first + w.drop_last()).push(w.last()) =~= m.first + w);
        assert((m.second + w.drop_last()).push(w.last()) =~= m.second + w);
    }
}

/// The tail ` NAME VALUE` of a `.SET` line, with a well-formed name and a
/// bare value, scans to that name and value.
pub proof fn lemma_scan_name_and_bare_value(name: Seq<char>, lit: Seq<char>)
    requires
        is_setting_name(name),
        lit.len() > 0,
        lit[0] != '"',
        forall|i: int| 0 <= i < lit.len() ==> !is_blank(#[trigger] lit[i]),
    ensures
        scan_two(seq![' '] + name + seq![' '] + lit) matches Ok(m) && m.first == name
            && m.second == lit && !m.quoted,
{
    let p1 = seq![' '];
    let p2 = seq![name[0]];
    let p3 = name.drop_first();
    let p4 = seq![' '];
    let p5 = seq![lit[0]];
    let p6 = lit.drop_first();
    let line = seq![' '] + name + seq![' '] + lit;
    assert(line =~= p1 + p2 + p3 + p4 + p5 + p6);
    lemma_scan_two_is_run(line);
    let s0 = Ok(scan_start());
    lemma_run_two_concat(s0, p1 + p2 + p3 + p4 + p5, p6);
    lemma_run_two_concat(s0, p1 + p2 + p3 + p4, p5);
    lemma_run_two_concat(s0, p1 + p2 + p3, p4);
    lemma_run_two_concat(s0, p1 + p2, p3);
    lemma_run_two_concat(s0, p1, p2);
    assert(p1.drop_last() =~= Seq::<char>::empty());
    assert(p2.drop_last() =~= Seq::<char>::empty());
    assert(p4.drop_last() =~= Seq::<char>::empty());
    assert(p5.drop_last() =~= Seq::<char>::empty());
    let m1 = ScanModel { state: ScanState::Arg1FirstChar, ..scan_start() };
    assert(run_two(s0, p1.drop_last()) == s0);
    assert(run_two(s0, p1) == Ok::<ScanModel, ParseError>(m1));
    assert(is_setting_name(name) ==> 'A' <= name[0] <= 'Z' || 'a' <= name[0] <= 'z' || name[0]
        == '_');
    let m2 = ScanModel { state: ScanState::Arg1, first: seq![name[0]], ..m1 };
    assert(Seq::<char>::empty().push(name[0]) =~= seq![name[0]]);
    assert(run_two(Ok(m1), p2.drop_last()) == Ok::<ScanModel, ParseError>(m1));
    assert(run_two(Ok(m1), p2) == Ok::<ScanModel, ParseError>(m2));
    assert forall|i: int| 0 <= i < p3.len() implies !is_blank(#[trigger] p3[i]) by {
        assert(p3[i] == name[i + 1]);
    }
    lemma_run_two_bare(m2, p3);
    assert(seq![name[0]] + p3 =~= name);
    let m3 = ScanModel { first: name, ..m2 };
    let m4 = ScanModel { state: ScanState::Arg1Finish, ..m3 };
    assert(run_two(Ok(m3), p4.drop_last()) == Ok::<ScanModel, ParseError>(m3));
    assert(run_two(Ok(m3), p4) == Ok::<ScanModel, ParseError>(m4));
    let m5 = ScanModel { state: ScanState::Arg2, second: seq![lit[0]], ..m4 };
    assert(run_two(Ok(m4), p5.drop_last()) == Ok::<ScanModel, ParseError>(m4));
    assert(Seq::<char>::empty().push(lit[0]) =~= seq![lit[0]]);
    assert(run_two(Ok(m4), p5) == Ok::<ScanModel, ParseError>(m5));
    assert forall|i: int| 0 <= i < p6.len() implies !is_blank(#[trigger] p6[i]) by {
        assert(p6[i] == lit[i + 1]);
    }
    lemma_run_two_bare(m5, p6);
    assert(seq![lit[0]] + p6 =~= lit);
}

fn is_blank_char(c: char) -> (r: bool)
    ensures
        r == is_blank(c),
{
    c == ' ' || c == '\t' || c == '\n'
}

fn is_punct_char(c: char) -> (r: bool)
    ensures
        r == is_ascii_punct(c),
{
    ('!' <= c && c <= '/') || (':' <= c && c <= '@') || ('[' <= c && c <= '`') || ('{' <= c
        && c <= '~')
}

/// Scans the text after a directive keyword for exactly one bare argument.
pub fn one_arg(line: &str) -> (r: Result<String, ParseError>)
    ensures
        r matches Ok(a) ==> scan_one(line@) matches Ok(m) && a@ == m.first,
        r matches Err(e) ==> scan_one(line@) == Err::<ScanModel, ParseError>(e),
        !(r matches Err(ParseError::StateMachineInvariant)),
{
    let cs = chars_of(line);
    let mut state = ScanState::Idle;
    let mut arg: Vec<char> = Vec::new();
    let mut i: usize = 0;
    while i < cs.len()
        invariant
            cs@ == line@,
            i <= cs@.len(),
            scan_one(cs@.take(i as int)) == Ok::<ScanModel, ParseError>(
                ScanModel { state, quoted: false, first: arg@, second: Seq::empty() },
            ),
            state != ScanState::Arg2 && state != ScanState::Finish,
        decreases cs@.len() - i,
    {
        let c = cs[i];
        assert(cs@.take(i + 1).drop_last() =~= cs@.take(i as int));
        assert(cs@.take(i + 1).last() == c);
        match state {
            ScanState::Idle => {
                if c == ' ' || c == '\t' {
                    state = ScanState::Arg1FirstChar;
                }
            },
            ScanState::Arg1FirstChar => {
                if c == ' ' || c == '\t' {
                } else if '0' <= c && c <= '9' {
                    proof {
                        lemma_one_error_sticks(cs@, i + 1, cs@.len() as int);
                        assert(cs@.take(cs@.len() as int) =~= cs@);
                    }
                    return Err(ParseError::ArgumentStartsWithDigit);
                } else if is_punct_char(c) && c != '_' {
                    proof {
                        lemma_one_error_sticks(cs@, i + 1, cs@.len() as int);
                        assert(cs@.take(cs@.len() as int) =~= cs@);
                    }
                    return Err(ParseError::ArgumentStartsWithInvalidSymbol);
                } else {
                    arg.push(c);
                    state = ScanState::Arg1;
                }
            },
            ScanState::Arg1 => {
                if is_blank_char(c) {
                    state = ScanState::Arg1Finish;
                } else {
                    arg.push(c);
                }
            },
            ScanState::Arg1Finish => {
                if !is_blank_char(c) {
                    proof {
                        lemma_one_error_sticks(cs@, i + 1, cs@.len() as int);
                        assert(cs@.take(cs@.len() as int) =~= cs@);
                    }
                    return Err(ParseError::TooManyArguments);
                }
            },
            _ => {
                return Err(ParseError::StateMachineInvariant);
            },
        }
        i = i + 1;
    }
    assert(cs@.take(cs@.len() as int) =~= cs@);
    Ok(string_of(&arg))
}

/// Scans the text after a directive keyword for a bare name and a value,
/// bare or quoted. Gives the name, the raw value text, and whether it was
/// quoted.
pub fn scan_setting(line: &str) -> (r: Result<(String, Vec<char>, bool), ParseError>)
    ensures
        r matches Ok((a, b, q)) ==> (scan_two(line@) matches Ok(m) && m.first == a@ && m.second
            == b@ && m.quoted == q),
        r matches Err(e) ==> scan_two(line@) == Err::<ScanModel, ParseError>(e),
{
    let cs = chars_of(line);
    let mut state = ScanState::Idle;
    let mut quoted = false;
    let mut name: Vec<char> = Vec::new();
    let mut value: Vec<char> = Vec::new();
    let mut i: usize = 0;
    while i < cs.len()
        invariant
            cs@ == line@,
            i <= cs@.len(),
            scan_two(cs@.take(i as int)) == Ok::<ScanModel, ParseError>(
                ScanModel { state, quoted, first: name@, second: value@ },
            ),
        decreases cs@.len() - i,
    {
        let c = cs[i];
        assert(cs@.take(i + 1).drop_last() =~= cs@.take(i as int));
        assert(cs@.take(i + 1).last() == c);
        match state {
            ScanState::Idle => {
                if c == ' ' || c == '\t' {
                    state = ScanState::Arg1FirstChar;
                }
            },
            ScanState::Arg1FirstChar => {
                if c == ' ' || c == '\t' {
                } else if '0' <= c && c <= '9' {
                    proof {
                        lemma_two_error_sticks(cs@, i + 1, cs@.len() as int);
                        assert(cs@.take(cs@.len() as int) =~= cs@);
                    }
                    return Err(ParseError::ArgumentStartsWithDigit);
                } else if is_punct_char(c) && c != '_' {
                    proof {
                        lemma_two_error_sticks(cs@, i + 1, cs@.len() as int);
                        assert(cs@.take(cs@.len() as int) =~= cs@);
                    }
                    return Err(ParseError::ArgumentStartsWithInvalidSymbol);
                } else {
                    name.push(c);
                    state = ScanState::Arg1;
                }
            },
            ScanState::Arg1 => {
                if is_blank_char(c) {
                    state = ScanState::Arg1Finish;
                } else {
                    name.push(c);
                }
            },
            ScanState::Arg1Finish => {
                if is_blank_char(c) {
                } else if c == '"' {
                    quoted = true;
                    state = ScanState::Arg2;
                } else {
                    value.push(c);
                    state = ScanState::Arg2;
                }
            },
            ScanState::Arg2 => {
                if (quoted && c == '"') || (!quoted && is_blank_char(c)) {
                    state = ScanState::Finish;
                } else {
                    value.push(c);
                }
            },
            ScanState::Finish => {
                if !is_blank_char(c) {
                    proof {
                        lemma_two_error_sticks(cs@, i + 1, cs@.len() as int);
                        assert(cs@.take(cs@.len() as int) =~= cs@);
                    }
                    return Err(ParseError::TooManyArguments);
                }
            },
        }
        i = i + 1;
    }
    assert(cs@.take(cs@.len() as int) =~= cs@);
    Ok((string_of(&name), value, quoted))
}

/// Reads the tail of a `.SET` line into a setting name and its typed value.
pub fn two_args(line: &str) -> (r: Result<(String, SettingValue), ParseError>)
    ensures
        r matches Ok((n, v)) ==> parse_setting(line@) == Ok::<(Seq<char>, SettingView), ParseError>(
            (n@, v@),
        ),
        r matches Err(e) ==> parse_setting(line@) == Err::<(Seq<char>, SettingView), ParseError>(e),
{
    match scan_setting(line) {
        Ok((name, raw, quoted)) => match resolve_value(&raw, quoted) {
            Ok(v) => Ok((name, v)),
            Err(e) => Err(e),
        },
        Err(e) => Err(e),
    }
}

} // verus!
