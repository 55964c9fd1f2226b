//! Typed setting values and the numeric-literal grammar they are read with.
use vstd::prelude::*;

use crate::text::string_of;

verus! {

/// What a directive argument was found to be wrong with.
#[derive(Clone, Copy, Debug, PartialEq, Eq, Structural)]
pub enum ParseError {
    /// The first character of an argument is a decimal digit.
    ArgumentStartsWithDigit,
    /// The first character of an argument is punctuation other than `_`.
    ArgumentStartsWithInvalidSymbol,
    /// Something other than blanks follows the last expected argument.
    TooManyArguments,
    /// A numeric literal does not read under its radix, or does not fit a `usize`.
    MalformedNumber,
    /// A scanner reached a state it has no rule for.
    StateMachineInvariant,
    /// The directive keyword is not one the assembler knows.
    UnknownDirective,
    /// The directive keyword is known, but the assembler does not support it yet.
    UnsupportedDirective,
}

/// The value that a `.SET` directive gives a setting.
#[derive(Clone, Debug, PartialEq, Eq)]
pub enum SettingValue {
    Bool(bool),
    Num(usize),
    Str(String),
}

/// The mathematical content of a [`SettingValue`].
pub enum SettingView {
    Bool(bool),
    Num(usize),
    Str(Seq<char>),
}

impl View for SettingValue {
    type V = SettingView;

    open spec fn view(&self) -> SettingView {
        match self {
            SettingValue::Bool(b) => SettingView::Bool(*b),
            SettingValue::Num(n) => SettingView::Num(*n),
            SettingValue::Str(s) => SettingView::Str(s@),
        }
    }
}

/// Value of `c` as a digit in bases up to 36 (`0`..`9`, then letters of
/// either case); 36 for any other character.
pub open spec fn digit_value(c: char) -> nat {
    if '0' <= c <= '9' {
        (c as u32 - '0' as u32) as nat
    } else if 'a' <= c <= 'z' {
        (c as u32 - 'a' as u32 + 10) as nat
    } else if 'A' <= c <= 'Z' {
        (c as u32 - 'A' as u32 + 10) as nat
    } else {
        36
    }
}

/// Every character of `s` is a digit of `base`.
pub open spec fn all_digits(s: Seq<char>, base: nat) -> bool {
    forall|i: int| 0 <= i < s.len() ==> digit_value(#[trigger] s[i]) < base
}

/// The number that the digits `s` denote in `base`, most significant first.
pub open spec fn digits_value(s: Seq<char>, base: nat) -> nat
    decreases s.len(),
{
    if s.len() == 0 {
        0
    } else {
        digits_value(s.drop_last(), base) * base + digit_value(s.last())
    }
}

/// `s` read as a number in `base`: it needs at least one digit, only digits
/// of that base, and a value that fits a `usize`.
pub open spec fn parse_radix(s: Seq<char>, base: nat) -> Option<usize> {
    if s.len() > 0 && all_digits(s, base) && digits_value(s, base) <= usize::MAX {
        Some(digits_value(s, base) as usize)
    } else {
        None
    }
}

/// A numeric literal: a final `H` reads the rest in base 16, `O` in base 8,
/// `B` in base 2; without one of these suffixes the whole is decimal.
pub open spec fn parse_number(s: Seq<char>) -> Option<usize> {
    if s.len() > 0 && s.last() == 'H' {
        parse_radix(s.drop_last(), 16)
    } else if s.len() > 0 && s.last() == 'O' {
        parse_radix(s.drop_last(), 8)
    } else if s.len() > 0 && s.last() == 'B' {
        parse_radix(s.drop_last(), 2)
    } else {
        parse_radix(s, 10)
    }
}

/// `c` with an ASCII lower-case letter made upper-case.
pub open spec fn ascii_upper(c: char) -> char {
    if 'a' <= c <= 'z' {
        (c as u32 - 32) as char
    } else {
        c
    }
}

/// `s` equals the upper-case word `w` when ASCII case is ignored.
pub open spec fn same_word(s: Seq<char>, w: Seq<char>) -> bool {
    s.len() == w.len() && forall|i: int| 0 <= i < s.len() ==> ascii_upper(#[trigger] s[i]) == w[i]
}

pub open spec fn word_true() -> Seq<char> {
    seq!['T', 'R', 'U', 'E']
}

pub open spec fn word_false() -> Seq<char> {
    seq!['F', 'A', 'L', 'S', 'E']
}

/// The typed value of a raw `.SET` argument. A bare argument is a numeric
/// literal; a quoted one is a boolean when it spells `TRUE` or `FALSE` in
/// any case, and otherwise the quoted text itself.
pub open spec fn resolve(raw: Seq<char>, quoted: bool) -> Result<SettingView, ParseError> {
    if !quoted {
        match parse_number(raw) {
            Some(n) => Ok(SettingView::Num(n)),
            None => Err(ParseError::MalformedNumber),
        }
    } else if same_word(raw, word_true()) {
        Ok(SettingView::Bool(true))
    } else if same_word(raw, word_false()) {
        Ok(SettingView::Bool(false))
    } else {
        Ok(SettingView::Str(raw))
    }
}

proof fn lemma_digits_value_monotone(s: Seq<char>, base: nat, i: int, j: int)
    requires
        base >= 1,
        0 <= i <= j <= s.len(),
    ensures
        digits_value(s.take(i), base) <= digits_value(s.take(j), base),
    decreases j - i,
{
    if i < j {
        lemma_digits_value_monotone(s, base, i, j - 1);
        assert(s.take(j).drop_last() =~= s.take(j - 1));
        let v = digits_value(s.take(j - 1), base);
        assert(v * base >= v) by (nonlinear_arith)
            requires
                base >= 1,
        ;
    }
}

fn digit_of(c: char) -> (r: u32)
    ensures
        r == digit_value(c),
{
    if '0' <= c && c <= '9' {
        c as u32 - '0' as u32
    } else if 'a' <= c && c <= 'z' {
        c as u32 - 'a' as u32 + 10
    } else if 'A' <= c && c <= 'Z' {
        c as u32 - 'A' as u32 + 10
    } else {
        36
    }
}

/// Reads the characters `s[from..to]` as a number in `base`.
pub fn read_radix(s: &Vec<char>, from: usize, to: usize, base: usize) -> (r: Option<usize>)
    requires
        from <= to <= s@.len(),
        2 <= base <= 36,
    ensures
        r == parse_radix(s@.subrange(from as int, to as int), base as nat),
{
    let ghost t = s@.subrange(from as int, to as int);
    if from == to {
        return None;
    }
    let mut acc: usize = 0;
    let mut i: usize = from;
    while i < to
        invariant
            from <= i <= to <= s@.len(),
            2 <= base <= 36,
            t == s@.subrange(from as int, to as int),
            acc == digits_value(t.take(i - from), base as nat),
            all_digits(t.take(i - from), base as nat),
        decreases to - i,
    {
        let ghost k = i - from;
        assert(t.take(k + 1).drop_last() =~= t.take(k));
        assert(t.take(k + 1).last() == s@[i as int]);
        let d = digit_of(s[i]);
        if d as usize >= base {
            assert(!all_digits(t, base as nat)) by {
                assert(t[k] == s@[i as int]);
            }
            return None;
        }
        match acc.checked_mul(base) {
            Some(m) => match m.checked_add(d as usize) {
                Some(a) => {
                    acc = a;
                },
                None => {
                    proof {
                        lemma_digits_value_monotone(t, base as nat, k + 1, t.len() as int);
                        assert(t.take(t.len() as int) =~= t);
                    }
                    return None;
                },
            },
            None => {
                proof {
                    lemma_digits_value_monotone(t, base as nat, k + 1, t.len() as int);
                    assert(t.take(t.len() as int) =~= t);
                    let dv = digit_value(s@[i as int]);
                    assert(acc * base + dv >= acc * base) by (nonlinear_arith)
                        requires dv >= 0;
                }
                return None;
            },
        }
        assert(all_digits(t.take(k + 1), base as nat)) by {
            assert forall|j: int| 0 <= j < k + 1 implies digit_value(#[trigger] t.take(k + 1)[j])
                < base as nat by {
                if j < k {
                    assert(t.take(k + 1)[j] == t.take(k)[j]);
                }
            }
        }
        i = i + 1;
    }
    assert(t.take(t.len() as int) =~= t);
    Some(acc)
}

/// Reads a numeric literal with an optional radix suffix.
pub fn read_number(s: &Vec<char>) -> (r: Option<usize>)
    ensures
        r == parse_number(s@),
{
    let n = s.len();
    if n > 0 {
        let last = s[n - 1];
        assert(s@.drop_last() =~= s@.subrange(0, n - 1));
        if last == 'H' {
            return read_radix(s, 0, n - 1, 16);
        } else if last == 'O' {
            return read_radix(s, 0, n - 1, 8);
        } else if last == 'B' {
            return read_radix(s, 0, n - 1, 2);
        }
    }
    assert(s@.subrange(0, n as int) =~= s@);
    read_radix(s, 0, n, 10)
}

fn upper_of(c: char) -> (r: char)
    ensures
        r == ascii_upper(c),
{
    if 'a' <= c && c <= 'z' {
        ((c as u32 - 32) as u8) as char
    } else {
        c
    }
}

fn matches_word(s: &Vec<char>, w: &[char]) -> (r: bool)
    ensures
        r == same_word(s@, w@),
{
    if s.len() != w.len() {
        return false;
    }
    let mut i: usize = 0;
    while i < s.len()
        invariant
            s@.len() == w@.len(),
            i <= s@.len(),
            forall|j: int| 0 <= j < i ==> ascii_upper(#[trigger] s@[j]) == w@[j],
        decreases s@.len() - i,
    {
        if upper_of(s[i]) != w[i] {
            return false;
        }
        i = i + 1;
    }
    true
}

/// Turns the raw text of a `.SET` value into its typed value.
pub fn resolve_value(raw: &Vec<char>, quoted: bool) -> (r: Result<SettingValue, ParseError>)
    ensures
        r matches Ok(v) ==> resolve(raw@, quoted) == Ok::<SettingView, ParseError>(v@),
        r matches Err(e) ==> resolve(raw@, quoted) == Err::<SettingView, ParseError>(e),
{
    if !quoted {
        return match read_number(raw) {
            Some(n) => Ok(SettingValue::Num(n)),
            None => Err(ParseError::MalformedNumber),
        };
    }
    let t = ['T', 'R', 'U', 'E'];
    let f = ['F', 'A', 'L', 'S', 'E'];
    assert(t@ =~= word_true());
    assert(f@ =~= word_false());
    if matches_word(raw, &t) {
        Ok(SettingValue::Bool(true))
    } else if matches_word(raw, &f) {
        Ok(SettingValue::Bool(false))
    } else {
        Ok(SettingValue::Str(string_of(raw)))
    }
}

} // verus!
