//! Cleaning of source text into numbered lines: each line is cut at its
//! first `;`, trimmed of white space, and dropped when nothing is left.
use vstd::prelude::*;

use crate::text::{chars_of, string_of};

verus! {

/// Unicode's `White_Space` property, which `str::trim` strips.
pub open spec fn is_white_space(c: char) -> bool {
    ('\u{9}' <= c <= '\u{d}') || c == ' ' || c == '\u{85}' || c == '\u{a0}' || c == '\u{1680}'
        || ('\u{2000}' <= c <= '\u{200a}') || c == '\u{2028}' || c == '\u{2029}' || c
        == '\u{202f}' || c == '\u{205f}' || c == '\u{3000}'
}

/// `t` split at each `\n`; the last piece is what follows the last `\n`.
pub open spec fn split_lines(t: Seq<char>) -> Seq<Seq<char>>
    decreases t.len(),
{
    if t.len() == 0 {
        seq![Seq::empty()]
    } else {
        let ls = split_lines(t.drop_last());
        if t.last() == '\n' {
            ls.push(Seq::empty())
        } else {
            ls.update(ls.len() - 1, ls.last().push(t.last()))
        }
    }
}

/// The part of `l` before its first `;`.
pub open spec fn before_comment(l: Seq<char>) -> Seq<char>
    decreases l.len(),
{
    if l.len() == 0 || l[0] == ';' {
        Seq::empty()
    } else {
        seq![l[0]] + before_comment(l.drop_first())
    }
}

pub open spec fn trim_start(s: Seq<char>) -> Seq<char>
    decreases s.len(),
{
    if s.len() > 0 && is_white_space(s[0]) {
        trim_start(s.drop_first())
    } else {
        s
    }
}

pub open spec fn trim_end(s: Seq<char>) -> Seq<char>
    decreases s.len(),
{
    if s.len() > 0 && is_white_space(s.last()) {
        trim_end(s.drop_last())
    } else {
        s
    }
}

/// The code on a source line: before the comment, without surrounding white space.
pub open spec fn clean_line(l: Seq<char>) -> Seq<char> {
    trim_end(trim_start(before_comment(l)))
}

/// The non-blank cleaned lines of `ls`, each with its index in `ls`.
pub open spec fn numbered_lines(ls: Seq<Seq<char>>) -> Seq<(usize, Seq<char>)>
    decreases ls.len(),
{
    if ls.len() == 0 {
        Seq::empty()
    } else if clean_line(ls.last()).len() > 0 {
        numbered_lines(ls.drop_last()).push(((ls.len() - 1) as usize, clean_line(ls.last())))
    } else {
        numbered_lines(ls.drop_last())
    }
}

pub open spec fn lines_view(v: Seq<(usize, String)>) -> Seq<(usize, Seq<char>)> {
    v.map_values(|p: (usize, String)| (p.0, p.1@))
}

fn white_space(c: char) -> (r: bool)
    ensures
        r == is_white_space(c),
{
    ('\u{9}' <= c && c <= '\u{d}') || c == ' ' || c == '\u{85}' || c == '\u{a0}' || c == '\u{1680}'
        || ('\u{2000}' <= c && c <= '\u{200a}') || c == '\u{2028}' || c == '\u{2029}' || c
        == '\u{202f}' || c == '\u{205f}' || c == '\u{3000}'
}

proof fn lemma_before_comment(l: Seq<char>, k: int)
    requires
        0 <= k <= l.len(),
        forall|j: int| 0 <= j < k ==> l[j] != ';',
        k == l.len() || l[k] == ';',
    ensures
        before_comment(l) == l.take(k),
    decreases k,
{
    if k > 0 {
        lemma_before_comment(l.drop_first(), k - 1);
        assert(l.take(k) =~= seq![l[0]] + l.drop_first().take(k - 1));
    } else {
        assert(l.take(0) =~= Seq::<char>::empty());
    }
}

proof fn lemma_trim_start(s: Seq<char>, a: int)
    requires
        0 <= a <= s.len(),
        forall|j: int| 0 <= j < a ==> is_white_space(s[j]),
        a == s.len() || !is_white_space(s[a]),
    ensures
        trim_start(s) == s.subrange(a, s.len() as int),
    decreases a,
{
    if a > 0 {
        lemma_trim_start(s.drop_first(), a - 1);
        assert(s.drop_first().subrange(a - 1, s.len() - 1) =~= s.subrange(a, s.len() as int));
    } else {
        assert(s.subrange(0, s.len() as int) =~= s);
    }
}

proof fn lemma_trim_end(s: Seq<char>, b: int)
    requires
        0 <= b <= s.len(),
        forall|j: int| b <= j < s.len() ==> is_white_space(s[j]),
        b == 0 || !is_white_space(s[b - 1]),
    ensures
        trim_end(s) == s.take(b),
    decreases s.len() - b,
{
    if b < s.len() {
        lemma_trim_end(s.drop_last(), b);
        assert(s.drop_last().take(b) =~= s.take(b));
    } else {
        assert(s.take(b) =~= s);
    }
}

/// The code on one source line, as `clean_line` describes it.
fn clean(l: &Vec<char>) -> (r: Vec<char>)
    ensures
        r@ == clean_line(l@),
{
    let mut k: usize = 0;
    while k < l.len() && l[k] != ';'
        invariant
            k <= l@.len(),
            forall|j: int| 0 <= j < k ==> l@[j] != ';',
        decreases l@.len() - k,
    {
        k = k + 1;
    }
    proof {
        lemma_before_comment(l@, k as int);
    }
    let ghost code = l@.take(k as int);
    let mut a: usize = 0;
    while a < k && white_space(l[a])
        invariant
            a <= k <= l@.len(),
            code == l@.take(k as int),
            forall|j: int| 0 <= j < a ==> is_white_space(code[j]),
        decreases k - a,
    {
        a = a + 1;
    }
    proof {
        lemma_trim_start(code, a as int);
    }
    let ghost rest = code.subrange(a as int, k as int);
    let mut b: usize = k;
    while b > a && white_space(l[b - 1])
        invariant
            a <= b <= k <= l@.len(),
            code == l@.take(k as int),
            rest == code.subrange(a as int, k as int),
            forall|j: int| b - a <= j < rest.len() ==> is_white_space(rest[j]),
        decreases b,
    {
        b = b - 1;
    }
    proof {
        lemma_trim_end(rest, b - a);
    }
    let mut out: Vec<char> = Vec::new();
    let mut i: usize = a;
    while i < b
        invariant
            a <= i <= b <= k <= l@.len(),
            out@ == l@.subrange(a as int, i as int),
        decreases b - i,
    {
        out.push(l[i]);
        i = i + 1;
    }
    assert(out@ =~= rest.take(b - a));
    out
}

/// Splits source text into its non-blank lines, numbered from 0 by their
/// place in the text, each cut at its first `;` and trimmed.
pub fn split_source(text: &str) -> (r: Vec<(usize, String)>)
    ensures
        lines_view(r@) == numbered_lines(split_lines(text@)),
{
    let cs = chars_of(text);
    let mut out: Vec<(usize, String)> = Vec::new();
    let mut cur: Vec<char> = Vec::new();
    let mut line_num: usize = 0;
    let mut i: usize = 0;
    while i < cs.len()
        invariant
            cs@ == text@,
            i <= cs@.len(),
            line_num <= i,
            split_lines(cs@.take(i as int)).len() == line_num + 1,
            split_lines(cs@.take(i as int)).last() == cur@,
            lines_view(out@) == numbered_lines(split_lines(cs@.take(i as int)).drop_last()),
        decreases cs@.len() - i,
    {
        let ghost ls = split_lines(cs@.take(i as int));
        assert(cs@.take(i + 1).drop_last() =~= cs@.take(i as int));
        let c = cs[i];
        if c == '\n' {
            let code = clean(&cur);
            let ghost before = out@;
            if code.len() > 0 {
                out.push((line_num, string_of(&code)));
                assert(lines_view(out@) =~= lines_view(before).push((line_num, code@)));
            }
            assert(ls.drop_last().push(ls.last()) =~= ls);
            assert(split_lines(cs@.take(i + 1)).drop_last() =~= ls);
            cur = Vec::new();
            line_num = line_num + 1;
        } else {
            cur.push(c);
            assert(split_lines(cs@.take(i + 1)).drop_last() =~= ls.drop_last());
        }
        i = i + 1;
    }
    assert(cs@.take(cs@.len() as int) =~= cs@);
    let ghost ls = split_lines(cs@);
    assert(ls.drop_last().push(ls.last()) =~= ls);
    let code = clean(&cur);
    if code.len() > 0 {
        let ghost before = out@;
        out.push((line_num, string_of(&code)));
        assert(lines_view(out@) =~= lines_view(before).push((line_num, code@)));
    }
    out
}

} // verus!
