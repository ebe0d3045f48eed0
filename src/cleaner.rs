//! Text cleaning before synthesis: typographic characters replaced by plain
//! ones, control characters dropped, whitespace normalised, runs of periods
//! collapsed.
use vstd::prelude::*;
use crate::chars::{chars_of, string_of};

verus! {

/// The plain text that stands for a typographic character, if it is one.
pub open spec fn replacement(c: char) -> Option<Seq<char>> {
    if c == '\u{2018}' || c == '\u{2019}' || c == '\u{2032}' {
        Some(seq!['\''])
    } else if c == '\u{201c}' || c == '\u{201d}' || c == '\u{2033}' || c == '\u{00ab}'
        || c == '\u{00bb}' {
        Some(seq!['"'])
    } else if c == '\u{2013}' || c == '\u{2014}' || c == '\u{2011}' || c == '\u{2012}'
        || c == '\u{2015}' {
        Some(seq!['-'])
    } else if c == '\u{2026}' {
        Some(seq!['.', '.', '.'])
    } else if c == '\u{00a0}' {
        Some(seq![' '])
    } else if c == '\u{200b}' || c == '\u{200c}' || c == '\u{200d}' || c == '\u{feff}' {
        Some(Seq::empty())
    } else if c == '\u{2039}' {
        Some(seq!['<'])
    } else if c == '\u{203a}' {
        Some(seq!['>'])
    } else {
        None
    }
}

/// The Unicode control characters (general category Cc).
pub open spec fn is_control(c: char) -> bool {
    (c as u32) <= 0x1f || (0x7f <= (c as u32) && (c as u32) <= 0x9f)
}

/// Characters kept as they are: newline, tab, and every non-control character.
pub open spec fn is_allowed(c: char) -> bool {
    c == '\n' || c == '\t' || !is_control(c)
}

/// The Unicode White_Space characters.
pub open spec fn is_whitespace(c: char) -> bool {
    let u = c as u32;
    (0x09 <= u && u <= 0x0d) || u == 0x20 || u == 0x85 || u == 0xa0 || u == 0x1680 || (0x2000 <= u
        && u <= 0x200a) || u == 0x2028 || u == 0x2029 || u == 0x202f || u == 0x205f || u == 0x3000
}

/// First pass: each character replaced, kept or dropped.
pub open spec fn replace_chars(s: Seq<char>) -> Seq<char>
    decreases s.len(),
{
    if s.len() == 0 {
        Seq::empty()
    } else {
        let c = s.last();
        replace_chars(s.drop_last()) + match replacement(c) {
            Some(r) => r,
            None => if is_allowed(c) {
                seq![c]
            } else {
                Seq::empty()
            },
        }
    }
}

/// Whitespace normalisation, character by character: the output so far,
/// whether the last character was a collapsed space, and the length of the
/// current run of newlines.
pub open spec fn collapse_ws(s: Seq<char>) -> (Seq<char>, bool, nat)
    decreases s.len(),
{
    if s.len() == 0 {
        (Seq::empty(), false, 0)
    } else {
        let (out, prev_space, newlines) = collapse_ws(s.drop_last());
        let c = s.last();
        if c == '\n' {
            if newlines + 1 <= 2 {
                (out.push('\n'), false, newlines + 1)
            } else {
                (out, false, newlines + 1)
            }
        } else if c == ' ' || c == '\t' {
            if !prev_space {
                (out.push(' '), true, 0)
            } else {
                (out, true, 0)
            }
        } else {
            (out.push(c), false, 0)
        }
    }
}

/// `s` without leading whitespace.
pub open spec fn trim_start(s: Seq<char>) -> Seq<char>
    decreases s.len(),
{
    if s.len() > 0 && is_whitespace(s[0]) {
        trim_start(s.skip(1))
    } else {
        s
    }
}

/// `s` without trailing whitespace.
pub open spec fn trim_end(s: Seq<char>) -> Seq<char>
    decreases s.len(),
{
    if s.len() > 0 && is_whitespace(s.last()) {
        trim_end(s.drop_last())
    } else {
        s
    }
}

/// Runs of periods reduced to one, with whether the output ends in a run.
pub open spec fn collapse_periods(s: Seq<char>) -> (Seq<char>, bool)
    decreases s.len(),
{
    if s.len() == 0 {
        (Seq::empty(), false)
    } else {
        let (out, in_run) = collapse_periods(s.drop_last());
        let c = s.last();
        if c == '.' {
            if in_run {
                (out, true)
            } else {
                (out.push('.'), true)
            }
        } else {
            (out.push(c), false)
        }
    }
}

/// The whole cleaning of a text.
pub open spec fn clean_spec(s: Seq<char>) -> Seq<char> {
    collapse_periods(trim_end(trim_start(collapse_ws(replace_chars(s)).0))).0
}

fn replacement_exec(c: char) -> (r: Option<Vec<char>>)
    ensures
        r matches Some(v) ==> replacement(c) == Some(v@),
        r is None ==> replacement(c) is None,
{
    if c == '\u{2018}' || c == '\u{2019}' || c == '\u{2032}' {
        Some(vec!['\''])
    } else if c == '\u{201c}' || c == '\u{201d}' || c == '\u{2033}' || c == '\u{00ab}'
        || c == '\u{00bb}' {
        Some(vec!['"'])
    } else if c == '\u{2013}' || c == '\u{2014}' || c == '\u{2011}' || c == '\u{2012}'
        || c == '\u{2015}' {
        Some(vec!['-'])
    } else if c == '\u{2026}' {
        Some(vec!['.', '.', '.'])
    } else if c == '\u{00a0}' {
        Some(vec![' '])
    } else if c == '\u{200b}' || c == '\u{200c}' || c == '\u{200d}' || c == '\u{feff}' {
        Some(Vec::new())
    } else if c == '\u{2039}' {
        Some(vec!['<'])
    } else if c == '\u{203a}' {
        Some(vec!['>'])
    } else {
        None
    }
}

/// Whether a character is kept as it is in text for synthesis.
pub fn is_allowed_char(c: char) -> (r: bool)
    ensures
        r == is_allowed(c),
{
    if c == '\n' || c == '\t' {
        return true;
    }
    let u = c as u32;
    !(u <= 0x1f || (0x7f <= u && u <= 0x9f))
}

pub(crate) fn is_whitespace_exec(c: char) -> (r: bool)
    ensures
        r == is_whitespace(c),
{
    let u = c as u32;
    (0x09 <= u && u <= 0x0d) || u == 0x20 || u == 0x85 || u == 0xa0 || u == 0x1680 || (0x2000 <= u
        && u <= 0x200a) || u == 0x2028 || u == 0x2029 || u == 0x202f || u == 0x205f || u == 0x3000
}

fn replace_pass(s: &Vec<char>) -> (r: Vec<char>)
    ensures
        r@ == replace_chars(s@),
{
    let mut out: Vec<char> = Vec::new();
    let mut i: usize = 0;
    while i < s.len()
        invariant
            i <= s@.len(),
            out@ == replace_chars(s@.take(i as int)),
        decreases s@.len() - i,
    {
        let c = s[i];
        assert(s@.take(i + 1).drop_last() =~= s@.take(i as int));
        assert(s@.take(i + 1).last() == c);
        let ghost before = out@;
        match replacement_exec(c) {
            Some(rep) => {
                let mut k: usize = 0;
                while k < rep.len()
                    invariant
                        k <= rep@.len(),
                        out@ == before + rep@.take(k as int),
                    decreases rep@.len() - k,
                {
                    out.push(rep[k]);
                    k = k + 1;
                    assert(out@ =~= before + rep@.take(k as int));
                }
                assert(rep@.take(k as int) =~= rep@);
            },
            None => {
                if is_allowed_char(c) {
                    out.push(c);
                    assert(out@ =~= before + seq![c]);
                } else {
                    assert(out@ =~= before + Seq::<char>::empty());
                }
            },
        }
        i = i + 1;
    }
    assert(s@.take(i as int) =~= s@);
    out
}

fn collapse_ws_pass(s: &Vec<char>) -> (r: Vec<char>)
    ensures
        r@ == collapse_ws(s@).0,
{
    let mut out: Vec<char> = Vec::new();
    let mut prev_space = false;
    let mut newlines: usize = 0;
    let mut i: usize = 0;
    while i < s.len()
        invariant
            i <= s@.len(),
            newlines <= i,
            collapse_ws(s@.take(i as int)) == (out@, prev_space, newlines as nat),
        decreases s@.len() - i,
    {
        let c = s[i];
        assert(s@.take(i + 1).drop_last() =~= s@.take(i as int));
        assert(s@.take(i + 1).last() == c);
        if c == '\n' {
            newlines = newlines + 1;
            prev_space = false;
            if newlines <= 2 {
                out.push('\n');
            }
        } else if c == ' ' || c == '\t' {
            newlines = 0;
            if !prev_space {
                out.push(' ');
                prev_space = true;
            }
        } else {
            newlines = 0;
            prev_space = false;
            out.push(c);
        }
        i = i + 1;
    }
    assert(s@.take(i as int) =~= s@);
    out
}

pub(crate) fn trim_pass(s: &Vec<char>) -> (r: Vec<char>)
    ensures
        r@ == trim_end(trim_start(s@)),
{
    let mut start: usize = 0;
    assert(s@.skip(0) =~= s@);
    while start < s.len() && is_whitespace_exec(s[start])
        invariant
            start <= s@.len(),
            trim_start(s@) == trim_start(s@.skip(start as int)),
        decreases s@.len() - start,
    {
        assert(s@.skip(start as int).skip(1) =~= s@.skip(start + 1));
        start = start + 1;
    }
    let ghost t = s@.skip(start as int);
    assert(trim_start(s@) == t) by {
        if t.len() > 0 {
            assert(t[0] == s@[start as int]);
        }
    }
    let mut end: usize = s.len();
    assert(t.take(t.len() as int) =~= t);
    while end > start && is_whitespace_exec(s[end - 1])
        invariant
            start <= end <= s@.len(),
            t == s@.skip(start as int),
            trim_end(t) == trim_end(t.take(end - start)),
        decreases end,
    {
        assert(t.take(end - start).drop_last() =~= t.take(end - start - 1));
        assert(t.take(end - start).last() == s@[end - 1]);
        end = end - 1;
    }
    let mut out: Vec<char> = Vec::new();
    let mut k: usize = start;
    while k < end
        invariant
            start <= k <= end <= s@.len(),
            out@ == s@.subrange(start as int, k as int),
        decreases end - k,
    {
        out.push(s[k]);
        k = k + 1;
        assert(out@ =~= s@.subrange(start as int, k as int));
    }
    assert(out@ =~= t.take(end - start));
    assert(trim_end(t.take(end - start)) == t.take(end - start)) by {
        if end > start {
            assert(t.take(end - start).last() == s@[end - 1]);
        }
    }
    out
}

fn collapse_periods_pass(s: &Vec<char>) -> (r: Vec<char>)
    ensures
        r@ == collapse_periods(s@).0,
{
    let mut out: Vec<char> = Vec::new();
    let mut in_run = false;
    let mut i: usize = 0;
    while i < s.len()
        invariant
            i <= s@.len(),
            collapse_periods(s@.take(i as int)) == (out@, in_run),
        decreases s@.len() - i,
    {
        let c = s[i];
        assert(s@.take(i + 1).drop_last() =~= s@.take(i as int));
        assert(s@.take(i + 1).last() == c);
        if c == '.' {
            if !in_run {
                out.push('.');
            }
            in_run = true;
        } else {
            in_run = false;
            out.push(c);
        }
        i = i + 1;
    }
    assert(s@.take(i as int) =~= s@);
    out
}

/// Collapses spaces and tabs into one space and newline runs into at most
/// two, then trims surrounding whitespace.
pub fn normalize_whitespace(text: &str) -> (r: String)
    ensures
        r@ == trim_end(trim_start(collapse_ws(text@).0)),
{
    let cs = chars_of(text);
    let a = collapse_ws_pass(&cs);
    let b = trim_pass(&a);
    string_of(&b)
}

/// Replaces each run of periods with a single period.
pub fn fix_multiple_periods(text: &str) -> (r: String)
    ensures
        r@ == collapse_periods(text@).0,
{
    let cs = chars_of(text);
    let a = collapse_periods_pass(&cs);
    string_of(&a)
}

/// Cleans text for synthesis.
pub fn clean_text(text: &str) -> (r: String)
    ensures
        r@ == clean_spec(text@),
{
    let cs = chars_of(text);
    let a = replace_pass(&cs);
    let b = collapse_ws_pass(&a);
    let c = trim_pass(&b);
    let d = collapse_periods_pass(&c);
    string_of(&d)
}

} // verus!
