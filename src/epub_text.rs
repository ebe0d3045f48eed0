//! Tidying of text extracted from a book's HTML: lines trimmed and joined,
//! paragraph breaks kept, common HTML entities decoded.
use vstd::prelude::*;
use crate::chars::{chars_of, string_of};
use crate::cleaner::{is_whitespace_exec, trim_end, trim_start};

verus! {

/// `s` cut at every `sep`; there is always at least one piece.
pub open spec fn split_on(s: Seq<char>, sep: char) -> Seq<Seq<char>>
    decreases s.len(),
{
    if s.len() == 0 {
        seq![Seq::empty()]
    } else {
        let p = split_on(s.drop_last(), sep);
        if s.last() == sep {
            p.push(Seq::empty())
        } else {
            p.update(p.len() - 1, p.last().push(s.last()))
        }
    }
}

/// The lines of `s` as `str::lines` yields them, before trimming: no line for
/// an empty text, and no empty last line after a final newline.
pub open spec fn lines_of(s: Seq<char>) -> Seq<Seq<char>> {
    if s.len() == 0 {
        Seq::empty()
    } else if s.last() == '\n' {
        split_on(s, '\n').drop_last()
    } else {
        split_on(s, '\n')
    }
}

/// Lines trimmed and joined by spaces; a run of blank lines becomes one
/// paragraph break, except at the start. Also returns whether the text ends
/// in such a break.
pub open spec fn join_lines(ls: Seq<Seq<char>>) -> (Seq<char>, bool)
    decreases ls.len(),
{
    if ls.len() == 0 {
        (Seq::empty(), false)
    } else {
        let (out, prev_break) = join_lines(ls.drop_last());
        let t = trim_end(trim_start(ls.last()));
        if t.len() == 0 {
            if !prev_break && out.len() > 0 {
                (out + seq!['\n', '\n'], true)
            } else {
                (out, prev_break)
            }
        } else if out.len() > 0 && out.last() != '\n' {
            (out + seq![' '] + t, false)
        } else {
            (out + t, false)
        }
    }
}

/// Every non-overlapping `pat`, left to right, replaced by `rep`.
pub open spec fn replace_all(s: Seq<char>, pat: Seq<char>, rep: Seq<char>) -> Seq<char>
    recommends
        pat.len() > 0,
    decreases s.len(),
{
    if pat.len() == 0 || s.len() < pat.len() {
        s
    } else if s.take(pat.len() as int) == pat {
        rep + replace_all(s.skip(pat.len() as int), pat, rep)
    } else {
        seq![s[0]] + replace_all(s.skip(1), pat, rep)
    }
}

/// The entity decoding, in this order.
pub open spec fn decode_entities(s: Seq<char>) -> Seq<char> {
    let s1 = replace_all(s, "&nbsp;"@, " "@);
    let s2 = replace_all(s1, "&amp;"@, "&"@);
    let s3 = replace_all(s2, "&lt;"@, "<"@);
    let s4 = replace_all(s3, "&gt;"@, ">"@);
    let s5 = replace_all(s4, "&quot;"@, "\""@);
    let s6 = replace_all(s5, "&#39;"@, "'"@);
    let s7 = replace_all(s6, "&mdash;"@, "\u{2014}"@);
    let s8 = replace_all(s7, "&ndash;"@, "\u{2013}"@);
    let s9 = replace_all(s8, "&hellip;"@, "..."@);
    let s10 = replace_all(s9, "&rsquo;"@, "'"@);
    let s11 = replace_all(s10, "&lsquo;"@, "'"@);
    let s12 = replace_all(s11, "&rdquo;"@, "\""@);
    replace_all(s12, "&ldquo;"@, "\""@)
}

/// The whole tidying of extracted text.
pub open spec fn tidy_spec(s: Seq<char>) -> Seq<char> {
    decode_entities(join_lines(lines_of(s)).0)
}

/// `s[from..to]` trimmed of whitespace at both ends.
fn trimmed(s: &Vec<char>, from: usize, to: usize) -> (r: Vec<char>)
    requires
        from <= to <= s@.len(),
    ensures
        r@ == trim_end(trim_start(s@.subrange(from as int, to as int))),
{
    let ghost seg = s@.subrange(from as int, to as int);
    let mut start: usize = from;
    assert(seg.skip(0) =~= seg);
    while start < to && is_whitespace_exec(s[start])
        invariant
            from <= start <= to <= s@.len(),
            seg == s@.subrange(from as int, to as int),
            trim_start(seg) == trim_start(seg.skip(start - from)),
        decreases to - start,
    {
        assert(seg.skip(start - from).skip(1) =~= seg.skip(start - from + 1));
        assert(seg.skip(start - from)[0] == s@[start as int]);
        start = start + 1;
    }
    let ghost t = seg.skip(start - from);
    assert(trim_start(seg) == t) by {
        if t.len() > 0 {
            assert(t[0] == s@[start as int]);
        }
    }
    let mut end: usize = to;
    assert(t.take(t.len() as int) =~= t);
    while end > start && is_whitespace_exec(s[end - 1])
        invariant
            from <= start <= end <= to <= s@.len(),
            t == s@.subrange(start as int, to as int),
            trim_end(t) == trim_end(t.take(end - start)),
        decreases end,
    {
        assert(t.take(end - start).drop_last() =~= t.take(end - start - 1));
        assert(t.take(end - start).last() == s@[end - 1]);
        end = end - 1;
    }
    assert(t =~= s@.subrange(start as int, to as int));
    let mut out: Vec<char> = Vec::new();
    let mut k: usize = start;
    while k < end
        invariant
            start <= k <= end <= s@.len(),
            out@ == s@.subrange(start as int, k as int),
        decreases end - k,
    {
        out.push(s[k]);
        k = k + 1;
        assert(out@ =~= s@.subrange(start as int, k as int));
    }
    assert(out@ =~= t.take(end - start));
    assert(trim_end(t.take(end - start)) == t.take(end - start)) by {
        if end > start {
            assert(t.take(end - start).last() == s@[end - 1]);
        }
    }
    out
}

/// Appends every character of `t` to `v`.
fn extend(v: &mut Vec<char>, t: &Vec<char>)
    ensures
        final(v)@ == old(v)@ + t@,
{
    let ghost before = v@;
    let mut i: usize = 0;
    while i < t.len()
        invariant
            i <= t@.len(),
            v@ == before + t@.take(i as int),
        decreases t@.len() - i,
    {
        v.push(t[i]);
        i = i + 1;
        assert(v@ =~= before + t@.take(i as int));
    }
    assert(t@.take(i as int) =~= t@);
}

/// One more character of the text: a separator opens a new piece, anything
/// else extends the last one.
proof fn lemma_split_step(s: Seq<char>, i: int, sep: char)
    requires
        0 <= i < s.len(),
    ensures
        split_on(s.take(i + 1), sep) == if s[i] == sep {
            split_on(s.take(i), sep).push(Seq::empty())
        } else {
            split_on(s.take(i), sep).update(
                split_on(s.take(i), sep).len() - 1,
                split_on(s.take(i), sep).last().push(s[i]),
            )
        },
{
    assert(s.take(i + 1).drop_last() =~= s.take(i));
    assert(s.take(i + 1).last() == s[i]);
}

fn join_exec(s: &Vec<char>) -> (r: Vec<char>)
    ensures
        r@ == join_lines(lines_of(s@)).0,
{
    // lines are delimited by `\n`; `start` is where the current line begins
    let mut out: Vec<char> = Vec::new();
    let mut prev_break = false;
    let mut start: usize = 0;
    let mut i: usize = 0;
    let ghost mut done: Seq<Seq<char>> = Seq::empty();
    proof {
        assert(s@.take(0) =~= Seq::<char>::empty());
    }
    while i < s.len()
        invariant
            start <= i <= s@.len(),
            start > 0 ==> s@[start - 1] == '\n',
            i > 0 && s@[i - 1] == '\n' ==> start == i,
            split_on(s@.take(i as int), '\n') == done.push(s@.subrange(start as int, i as int)),
            join_lines(done) == (out@, prev_break),
        decreases s@.len() - i,
    {
        proof {
            lemma_split_step(s@, i as int, '\n');
        }
        if s[i] == '\n' {
            let t = trimmed(s, start, i);
            let ghost line = s@.subrange(start as int, i as int);
            proof {
                assert(done.push(line).drop_last() =~= done);
            }
            if t.len() == 0 {
                if !prev_break && out.len() > 0 {
                    out.push('\n');
                    out.push('\n');
                    prev_break = true;
                }
            } else {
                if out.len() > 0 && out[out.len() - 1] != '\n' {
                    out.push(' ');
                }
                extend(&mut out, &t);
                prev_break = false;
            }
            proof {
                done = done.push(line);
                assert(s@.subrange(i + 1, i + 1) =~= Seq::<char>::empty());
                assert(join_lines(done) == (out@, prev_break));
            }
            start = i + 1;
        } else {
            proof {
                assert(s@.subrange(start as int, i + 1) =~= s@.subrange(start as int, i as int).push(
                    s@[i as int],
                ));
                assert(done.push(s@.subrange(start as int, i as int)).update(
                    done.len() as int,
                    s@.subrange(start as int, i + 1),
                ) =~= done.push(s@.subrange(start as int, i + 1)));
            }
        }
        i = i + 1;
    }
    assert(s@.take(i as int) =~= s@);
    // the last line, unless the text ended with a newline or was empty
    if start < s.len() {
        let t = trimmed(s, start, s.len());
        let ghost line = s@.subrange(start as int, s@.len() as int);
        proof {
            assert(lines_of(s@) == done.push(line));
            assert(done.push(line).drop_last() =~= done);
        }
        if t.len() == 0 {
            if !prev_break && out.len() > 0 {
                out.push('\n');
                out.push('\n');
            }
        } else {
            if out.len() > 0 && out[out.len() - 1] != '\n' {
                out.push(' ');
            }
            extend(&mut out, &t);
        }
    } else {
        proof {
            if s@.len() > 0 {
                assert(s@.last() == '\n');
                assert(lines_of(s@) == done);
            } else {
                assert(done =~= Seq::<Seq<char>>::empty());
            }
        }
    }
    out
}

fn replace_exec(s: &Vec<char>, pat: &str, rep: &str) -> (r: Vec<char>)
    requires
        pat@.len() > 0,
    ensures
        r@ == replace_all(s@, pat@, rep@),
{
    let p = chars_of(pat);
    let q = chars_of(rep);
    let mut out: Vec<char> = Vec::new();
    let mut i: usize = 0;
    assert(s@.skip(0) =~= s@);
    while i < s.len()
        invariant
            i <= s@.len(),
            p@ == pat@,
            q@ == rep@,
            p@.len() > 0,
            replace_all(s@, p@, q@) == out@ + replace_all(s@.skip(i as int), p@, q@),
        decreases s@.len() - i,
    {
        let ghost rest = s@.skip(i as int);
        let n = s.len();
        let mut m = p.len() <= n - i;
        let mut k: usize = 0;
        while m && k < p.len()
            invariant
                k <= p@.len(),
                n == s@.len(),
                m ==> i + p@.len() <= s@.len(),
                m ==> forall|j: int| 0 <= j < k ==> s@[i + j] == p@[j],
                !m ==> rest.len() < p@.len() || rest.take(p@.len() as int) != p@,
                rest == s@.skip(i as int),
            decreases p@.len() - k,
        {
            if s[i + k] != p[k] {
                m = false;
                assert(rest.take(p@.len() as int)[k as int] == s@[i + k]);
            }
            k = k + 1;
        }
        if m {
            assert(rest.take(p@.len() as int) =~= p@);
            extend(&mut out, &q);
            assert(rest.skip(p@.len() as int) =~= s@.skip(i + p@.len()));
            i = i + p.len();
        } else {
            assert(rest.skip(1) =~= s@.skip(i + 1));
            assert(rest[0] == s@[i as int]);
            out.push(s[i]);
            i = i + 1;
        }
    }
    assert(s@.skip(i as int) =~= Seq::<char>::empty());
    out
}

/// Tidies text extracted from HTML.
pub fn clean_text(text: &str) -> (r: String)
    ensures
        r@ == tidy_spec(text@),
{
    proof {
        reveal_strlit("&nbsp;");
        reveal_strlit("&amp;");
        reveal_strlit("&lt;");
        reveal_strlit("&gt;");
        reveal_strlit("&quot;");
        reveal_strlit("&#39;");
        reveal_strlit("&mdash;");
        reveal_strlit("&ndash;");
        reveal_strlit("&hellip;");
        reveal_strlit("&rsquo;");
        reveal_strlit("&lsquo;");
        reveal_strlit("&rdquo;");
        reveal_strlit("&ldquo;");
    }
    let s = chars_of(text);
    let a = join_exec(&s);
    let a = replace_exec(&a, "&nbsp;", " ");
    let a = replace_exec(&a, "&amp;", "&");
    let a = replace_exec(&a, "&lt;", "<");
    let a = replace_exec(&a, "&gt;", ">");
    let a = replace_exec(&a, "&quot;", "\"");
    let a = replace_exec(&a, "&#39;", "'");
    let a = replace_exec(&a, "&mdash;", "\u{2014}");
    let a = replace_exec(&a, "&ndash;", "\u{2013}");
    let a = replace_exec(&a, "&hellip;", "...");
    let a = replace_exec(&a, "&rsquo;", "'");
    let a = replace_exec(&a, "&lsquo;", "'");
    let a = replace_exec(&a, "&rdquo;", "\"");
    let a = replace_exec(&a, "&ldquo;", "\"");
    string_of(&a)
}

} // verus!
