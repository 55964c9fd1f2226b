//! The directive processor: it separates directive lines from instruction
//! lines, runs each directive, and keeps the settings registry.
use vstd::prelude::*;
use vstd::string::StrSliceExecFns;

use crate::scan::{is_blank, is_setting_name, lemma_scan_name_and_bare_value, parse_setting, two_args};
use crate::text::chars_of;
use crate::value::{all_digits, digit_value, digits_value, ParseError, SettingValue, SettingView};

verus! {

/// A source line: its number and its trimmed, comment-free text.
pub type Line = (usize, String);

pub open spec fn is_directive_line(l: Line) -> bool {
    l.1@.len() > 0 && l.1@[0] == '.'
}

pub open spec fn is_instruction_line(l: Line) -> bool {
    l.1@.len() > 0 && l.1@[0] != '.'
}

/// The directive lines among `s`, in order.
pub open spec fn directive_lines(s: Seq<Line>) -> Seq<Line>
    decreases s.len(),
{
    if s.len() == 0 {
        Seq::empty()
    } else if is_directive_line(s.last()) {
        directive_lines(s.drop_last()).push(s.last())
    } else {
        directive_lines(s.drop_last())
    }
}

/// The instruction lines among `s`, in order; blank lines are dropped.
pub open spec fn instruction_lines(s: Seq<Line>) -> Seq<Line>
    decreases s.len(),
{
    if s.len() == 0 {
        Seq::empty()
    } else if is_instruction_line(s.last()) {
        instruction_lines(s.drop_last()).push(s.last())
    } else {
        instruction_lines(s.drop_last())
    }
}

pub open spec fn keyword_set() -> Seq<char> {
    seq!['.', 'S', 'E', 'T']
}

pub open spec fn keyword_data() -> Seq<char> {
    seq!['.', 'D', 'A', 'T', 'A']
}

pub open spec fn keyword_array() -> Seq<char> {
    seq!['.', 'A', 'R', 'R', 'A', 'Y']
}

pub open spec fn keyword_define() -> Seq<char> {
    seq!['.', 'D', 'E', 'F', 'I', 'N', 'E']
}

/// `s` begins with the keyword `w`, followed by a separator or the end.
pub open spec fn has_keyword(s: Seq<char>, w: Seq<char>) -> bool {
    &&& s.len() >= w.len()
    &&& s.subrange(0, w.len() as int) == w
    &&& (s.len() == w.len() || s[w.len() as int] == ' ' || s[w.len() as int] == '\t')
}

/// What one directive line comes to: a setting for `.SET`, a failure for
/// the directives that are known but not supported and for unknown ones.
pub open spec fn directive_outcome(s: Seq<char>) -> Result<(Seq<char>, SettingView), ParseError> {
    if has_keyword(s, keyword_set()) {
        parse_setting(s.subrange(keyword_set().len() as int, s.len() as int))
    } else if has_keyword(s, keyword_data()) || has_keyword(s, keyword_array()) || has_keyword(
        s,
        keyword_define(),
    ) {
        Err(ParseError::UnsupportedDirective)
    } else {
        Err(ParseError::UnknownDirective)
    }
}

/// The registry `reg` after the directives `lines`, in order: each
/// successful `.SET` binds its name to its value, replacing an earlier one.
pub open spec fn apply_directives(reg: Map<Seq<char>, SettingView>, lines: Seq<Line>) -> Map<
    Seq<char>,
    SettingView,
>
    decreases lines.len(),
{
    if lines.len() == 0 {
        reg
    } else {
        let before = apply_directives(reg, lines.drop_last());
        match directive_outcome(lines.last().1@) {
            Ok((n, v)) => before.insert(n, v),
            Err(_) => before,
        }
    }
}

/// The failures of the directives `lines`, each with its line number, in order.
pub open spec fn directive_errors(lines: Seq<Line>) -> Seq<(usize, ParseError)>
    decreases lines.len(),
{
    if lines.len() == 0 {
        Seq::empty()
    } else {
        let before = directive_errors(lines.drop_last());
        match directive_outcome(lines.last().1@) {
            Ok(_) => before,
            Err(e) => before.push((lines.last().0, e)),
        }
    }
}

/// The registry that the entries `s` stand for; a later entry wins.
pub open spec fn entries_map(s: Seq<(String, SettingValue)>) -> Map<Seq<char>, SettingView>
    decreases s.len(),
{
    if s.len() == 0 {
        Map::empty()
    } else {
        entries_map(s.drop_last()).insert(s.last().0@, s.last().1@)
    }
}

pub open spec fn names_unique(s: Seq<(String, SettingValue)>) -> bool {
    forall|i: int, j: int| 0 <= i < s.len() && 0 <= j < s.len() && i != j ==> s[i].0@ != s[j].0@
}

proof fn lemma_entries_absent(s: Seq<(String, SettingValue)>, k: Seq<char>)
    requires
        forall|j: int| 0 <= j < s.len() ==> s[j].0@ != k,
    ensures
        !entries_map(s).contains_key(k),
    decreases s.len(),
{
    if s.len() > 0 {
        lemma_entries_absent(s.drop_last(), k);
    }
}

proof fn lemma_entries_at(s: Seq<(String, SettingValue)>, i: int)
    requires
        names_unique(s),
        0 <= i < s.len(),
    ensures
        entries_map(s).contains_key(s[i].0@),
        entries_map(s)[s[i].0@] == s[i].1@,
    decreases s.len(),
{
    if i < s.len() - 1 {
        lemma_entries_at(s.drop_last(), i);
    }
}

proof fn lemma_entries_update(s: Seq<(String, SettingValue)>, i: int, e: (String, SettingValue))
    requires
        names_unique(s),
        0 <= i < s.len(),
        e.0@ == s[i].0@,
    ensures
        entries_map(s.update(i, e)) == entries_map(s).insert(e.0@, e.1@),
    decreases s.len(),
{
    let t = s.update(i, e);
    if i == s.len() - 1 {
        assert(t.drop_last() =~= s.drop_last());
    } else {
        lemma_entries_update(s.drop_last(), i, e);
        assert(t.drop_last() =~= s.drop_last().update(i, e));
    }
    assert(entries_map(t) =~= entries_map(s).insert(e.0@, e.1@));
}

/// The registry after some directives is the starting registry overlaid with
/// what those directives set on their own.
pub proof fn lemma_apply_overlays(reg: Map<Seq<char>, SettingView>, lines: Seq<Line>)
    ensures
        apply_directives(reg, lines) == reg.union_prefer_right(
            apply_directives(Map::empty(), lines),
        ),
    decreases lines.len(),
{
    if lines.len() == 0 {
        assert(reg.union_prefer_right(Map::empty()) =~= reg);
    } else {
        lemma_apply_overlays(reg, lines.drop_last());
        let before = apply_directives(reg, lines.drop_last());
        let alone = apply_directives(Map::empty(), lines.drop_last());
        match directive_outcome(lines.last().1@) {
            Ok((n, v)) => {
                assert(before.insert(n, v) =~= reg.union_prefer_right(alone.insert(n, v)));
            },
            Err(_) => {},
        }
    }
}

/// Last write wins: when the final directive sets `n` to `v`, the registry
/// afterwards binds `n` to `v`, whatever came before.
pub proof fn lemma_last_set_wins(reg: Map<Seq<char>, SettingView>, lines: Seq<Line>, n: Seq<char>, v: SettingView)
    requires
        lines.len() > 0,
        directive_outcome(lines.last().1@) == Ok::<(Seq<char>, SettingView), ParseError>((n, v)),
    ensures
        apply_directives(reg, lines).contains_key(n),
        apply_directives(reg, lines)[n] == v,
{
}

/// Running the same directives again over the registry they produced leaves
/// it as it was.
pub proof fn lemma_rerun_keeps_registry(reg: Map<Seq<char>, SettingView>, lines: Seq<Line>)
    ensures
        apply_directives(apply_directives(reg, lines), lines) == apply_directives(reg, lines),
{
    lemma_apply_overlays(reg, lines);
    lemma_apply_overlays(apply_directives(reg, lines), lines);
    let alone = apply_directives(Map::empty(), lines);
    assert(reg.union_prefer_right(alone).union_prefer_right(alone) =~= reg.union_prefer_right(
        alone,
    ));
}

/// Two fresh processors over the same directive lines end with the same
/// registry and the same failures.
pub proof fn lemma_fresh_runs_agree(a: ProcessorView, b: ProcessorView)
    requires
        a.lines == b.lines,
        a.settings == Map::<Seq<char>, SettingView>::empty(),
        b.settings == Map::<Seq<char>, SettingView>::empty(),
        a.errors == Seq::<(usize, ParseError)>::empty(),
        b.errors == Seq::<(usize, ParseError)>::empty(),
    ensures
        apply_directives(a.settings, a.lines) == apply_directives(b.settings, b.lines),
        a.errors + directive_errors(a.lines) == b.errors + directive_errors(b.lines),
{
}

/// The suffix that selects `base` in a numeric literal; decimal has none.
pub open spec fn radix_suffix(base: nat) -> Seq<char> {
    if base == 16 {
        seq!['H']
    } else if base == 8 {
        seq!['O']
    } else if base == 2 {
        seq!['B']
    } else {
        Seq::empty()
    }
}

/// A `.SET` line whose name is well formed and whose value is digits of
/// base 2, 8, 10 or 16 followed by that base's suffix sets the name to the
/// number that the digits denote in that base.
pub proof fn lemma_set_numeric_literal(name: Seq<char>, digits: Seq<char>, base: nat)
    requires
        is_setting_name(name),
        base == 2 || base == 8 || base == 10 || base == 16,
        digits.len() > 0,
        all_digits(digits, base),
        digits_value(digits, base) <= usize::MAX,
    ensures
        directive_outcome(keyword_set() + seq![' '] + name + seq![' '] + digits + radix_suffix(base))
            == Ok::<(Seq<char>, SettingView), ParseError>(
            (name, SettingView::Num(digits_value(digits, base) as usize)),
        ),
{
    let lit = digits + radix_suffix(base);
    let tail = seq![' '] + name + seq![' '] + lit;
    let line = keyword_set() + seq![' '] + name + seq![' '] + digits + radix_suffix(base);
    assert(line =~= keyword_set() + tail);
    assert(line.subrange(0, 4) =~= keyword_set());
    assert(line.subrange(4, line.len() as int) =~= tail);
    assert forall|i: int| 0 <= i < lit.len() implies !is_blank(#[trigger] lit[i]) by {
        if i < digits.len() {
            assert(digit_value(digits[i]) < base);
        }
    }
    assert(digit_value(digits[0]) < base);
    lemma_scan_name_and_bare_value(name, lit);
    let last = digits[digits.len() - 1];
    assert(digit_value(last) < base);
    if base == 10 {
        assert(lit =~= digits);
    } else {
        assert(lit.drop_last() =~= digits);
    }
}

/// Sorts cleaned source lines into directives and instructions, and runs
/// the directives into a settings registry and a list of failures.
pub struct DotInstrctionsProcessor {
    dot_instrctions: Vec<Line>,
    set_info: Vec<(String, SettingValue)>,
    errors: Vec<(usize, ParseError)>,
}

/// The content of a [`DotInstrctionsProcessor`].
pub struct ProcessorView {
    pub lines: Seq<Line>,
    pub settings: Map<Seq<char>, SettingView>,
    pub errors: Seq<(usize, ParseError)>,
}

impl View for DotInstrctionsProcessor {
    type V = ProcessorView;

    closed spec fn view(&self) -> ProcessorView {
        ProcessorView {
            lines: self.dot_instrctions@,
            settings: entries_map(self.set_info@),
            errors: self.errors@,
        }
    }
}

fn starts_with_dot(s: &String) -> (r: bool)
    ensures
        r == (s@.len() > 0 && s@[0] == '.'),
{
    let t = s.as_str();
    t.unicode_len() > 0 && t.get_char(0) == '.'
}

fn has_keyword_chars(s: &Vec<char>, w: &[char]) -> (r: bool)
    ensures
        r == has_keyword(s@, w@),
{
    if s.len() < w.len() {
        return false;
    }
    let mut i: usize = 0;
    while i < w.len()
        invariant
            s@.len() >= w@.len(),
            i <= w@.len(),
            forall|j: int| 0 <= j < i ==> s@[j] == w@[j],
        decreases w@.len() - i,
    {
        if s[i] != w[i] {
            assert(s@.subrange(0, w@.len() as int)[i as int] != w@[i as int]);
            return false;
        }
        i = i + 1;
    }
    assert(s@.subrange(0, w@.len() as int) =~= w@);
    s.len() == w.len() || s[w.len()] == ' ' || s[w.len()] == '\t'
}

/// Runs one directive line.
pub fn run_directive(line: &str) -> (r: Result<(String, SettingValue), ParseError>)
    ensures
        r matches Ok((n, v)) ==> directive_outcome(line@) == Ok::<
            (Seq<char>, SettingView),
            ParseError,
        >((n@, v@)),
        r matches Err(e) ==> directive_outcome(line@) == Err::<(Seq<char>, SettingView), ParseError>(
            e,
        ),
{
    let cs = chars_of(line);
    let set = ['.', 'S', 'E', 'T'];
    let data = ['.', 'D', 'A', 'T', 'A'];
    let array = ['.', 'A', 'R', 'R', 'A', 'Y'];
    let define = ['.', 'D', 'E', 'F', 'I', 'N', 'E'];
    assert(set@ =~= keyword_set());
    assert(data@ =~= keyword_data());
    assert(array@ =~= keyword_array());
    assert(define@ =~= keyword_define());
    if has_keyword_chars(&cs, &set) {
        two_args(line.substring_char(4, cs.len()))
    } else if has_keyword_chars(&cs, &data) || has_keyword_chars(&cs, &array) || has_keyword_chars(
        &cs,
        &define,
    ) {
        Err(ParseError::UnsupportedDirective)
    } else {
        Err(ParseError::UnknownDirective)
    }
}

impl DotInstrctionsProcessor {
    /// The registry's entries carry distinct names.
    pub closed spec fn wf(&self) -> bool {
        names_unique(self.set_info@)
    }

    /// Keeps the directive lines of `orignal_data_in_line` and hands back
    /// its instruction lines, both in their original order; blank lines
    /// are dropped.
    pub fn new(orignal_data_in_line: Vec<Line>) -> (r: (DotInstrctionsProcessor, Vec<Line>))
        ensures
            r.0.wf(),
            r.0@.lines == directive_lines(orignal_data_in_line@),
            r.0@.settings == Map::<Seq<char>, SettingView>::empty(),
            r.0@.errors == Seq::<(usize, ParseError)>::empty(),
            r.1@ == instruction_lines(orignal_data_in_line@),
    {
        let mut dot_instrctions: Vec<Line> = Vec::new();
        let mut instrcutions: Vec<Line> = Vec::new();
        let ghost src = orignal_data_in_line@;
        let mut i: usize = 0;
        while i < orignal_data_in_line.len()
            invariant
                src == orignal_data_in_line@,
                i <= src.len(),
                dot_instrctions@ == directive_lines(src.take(i as int)),
                instrcutions@ == instruction_lines(src.take(i as int)),
            decreases src.len() - i,
        {
            assert(src.take(i + 1).drop_last() =~= src.take(i as int));
            let line_num = orignal_data_in_line[i].0;
            let line = orignal_data_in_line[i].1.clone();
            assert(src.take(i + 1).last() == (line_num, line));
            if starts_with_dot(&line) {
                dot_instrctions.push((line_num, line));
            } else if line.as_str().unicode_len() > 0 {
                instrcutions.push((line_num, line));
            }
            i = i + 1;
        }
        assert(src.take(src.len() as int) =~= src);
        let p = DotInstrctionsProcessor { dot_instrctions, set_info: Vec::new(), errors: Vec::new() };
        assert(p@.settings =~= Map::<Seq<char>, SettingView>::empty());
        (p, instrcutions)
    }

    /// Binds `name` to `value` in the registry, replacing an earlier value.
    fn upsert(&mut self, name: String, value: SettingValue)
        requires
            old(self).wf(),
        ensures
            final(self).wf(),
            final(self)@ == (ProcessorView {
                settings: old(self)@.settings.insert(name@, value@),
                ..old(self)@
            }),
    {
        match self.position(&name) {
            Some(i) => {
                proof {
                    lemma_entries_update(self.set_info@, i as int, (name, value));
                }
                self.set_info.set(i, (name, value));
                assert(names_unique(self.set_info@));
            },
            None => {
                let ghost before = self.set_info@;
                self.set_info.push((name, value));
                assert(self.set_info@.drop_last() =~= before);
            },
        }
    }

    /// Where the registry holds an entry named `name`.
    fn position(&self, name: &String) -> (r: Option<usize>)
        ensures
            r matches Some(i) ==> i < self.set_info@.len() && self.set_info@[i as int].0@ == name@,
            r is None ==> forall|j: int|
                0 <= j < self.set_info@.len() ==> self.set_info@[j].0@ != name@,
    {
        let mut i: usize = 0;
        while i < self.set_info.len()
            invariant
                i <= self.set_info@.len(),
                forall|j: int| 0 <= j < i ==> self.set_info@[j].0@ != name@,
            decreases self.set_info@.len() - i,
        {
            if self.set_info[i].0 == *name {
                return Some(i);
            }
            i = i + 1;
        }
        None
    }

    /// Runs every directive line in order: each `.SET` that reads updates
    /// the registry, and each failure is recorded with its line number.
    pub fn generate(&mut self)
        requires
            old(self).wf(),
        ensures
            final(self).wf(),
            final(self)@.lines == old(self)@.lines,
            final(self)@.settings == apply_directives(old(self)@.settings, old(self)@.lines),
            final(self)@.errors == old(self)@.errors + directive_errors(old(self)@.lines),
    {
        let ghost lines = self.dot_instrctions@;
        let ghost reg0 = self@.settings;
        let ghost errs0 = self@.errors;
        let mut i: usize = 0;
        while i < self.dot_instrctions.len()
            invariant
                self.wf(),
                self.dot_instrctions@ == lines,
                i <= lines.len(),
                self@.settings == apply_directives(reg0, lines.take(i as int)),
                self@.errors == errs0 + directive_errors(lines.take(i as int)),
            decreases lines.len() - i,
        {
            assert(lines.take(i + 1).drop_last() =~= lines.take(i as int));
            assert(lines.take(i + 1).last() == lines[i as int]);
            let line_num = self.dot_instrctions[i].0;
            match run_directive(self.dot_instrctions[i].1.as_str()) {
                Ok((name, value)) => {
                    self.upsert(name, value);
                },
                Err(e) => {
                    self.errors.push((line_num, e));
                    assert(self@.errors =~= errs0 + directive_errors(lines.take(i + 1)));
                },
            }
            i = i + 1;
        }
        assert(lines.take(lines.len() as int) =~= lines);
    }

    /// The value bound to `name` in the registry.
    pub fn get(&self, name: &str) -> (r: Option<&SettingValue>)
        requires
            self.wf(),
        ensures
            r matches Some(v) ==> self@.settings.contains_key(name@) && self@.settings[name@]
                == v@,
            r is None ==> !self@.settings.contains_key(name@),
    {
        match self.position(&name.to_owned()) {
            Some(i) => {
                proof {
                    lemma_entries_at(self.set_info@, i as int);
                }
                Some(&self.set_info[i].1)
            },
            None => {
                proof {
                    lemma_entries_absent(self.set_info@, name@);
                }
                None
            },
        }
    }

    /// The registry's entries, one per setting name.
    pub fn settings(&self) -> (r: &Vec<(String, SettingValue)>)
        requires
            self.wf(),
        ensures
            names_unique(r@),
            entries_map(r@) == self@.settings,
    {
        &self.set_info
    }

    /// The failures recorded so far, each with its line number.
    pub fn errors(&self) -> (r: &Vec<(usize, ParseError)>)
        ensures
            r@ == self@.errors,
    {
        &self.errors
    }

    /// The directive lines, in source order.
    pub fn lines(&self) -> (r: &Vec<Line>)
        ensures
            r@ == self@.lines,
    {
        &self.dot_instrctions
    }
}

} // verus!
