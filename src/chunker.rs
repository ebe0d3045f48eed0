//! Chunking of chapter text for synthesis: sentences are packed into chunks
//! of a target size, and sentences that are too long are split at natural
//! break points, then at words, then at characters. Sizes are UTF-8 bytes.
//! Sentence detection itself is done by the caller.
use vstd::prelude::*;
use crate::chars::{chars_of, string_of};
use crate::cleaner::{is_whitespace_exec, is_whitespace, trim_end, trim_pass, trim_start};
use crate::session::TextChunk;

verus! {

/// Default target chunk size in bytes.
pub const DEFAULT_TARGET_SIZE: usize = 280;

/// Depth after which a long sentence is split at characters.
pub const MAX_SPLIT_DEPTH: usize = 10;

/// The UTF-8 length of a character.
pub open spec fn utf8_len(c: char) -> nat {
    if (c as u32) < 0x80 {
        1
    } else if (c as u32) < 0x800 {
        2
    } else if (c as u32) < 0x10000 {
        3
    } else {
        4
    }
}

/// The UTF-8 length of a text.
pub open spec fn byte_len(s: Seq<char>) -> nat
    decreases s.len(),
{
    if s.len() == 0 {
        0
    } else {
        byte_len(s.drop_last()) + utf8_len(s.last())
    }
}

fn utf8_len_exec(c: char) -> (r: u128)
    ensures
        r == utf8_len(c),
{
    let u = c as u32;
    if u < 0x80 {
        1
    } else if u < 0x800 {
        2
    } else if u < 0x10000 {
        3
    } else {
        4
    }
}

proof fn lemma_byte_len_bound(s: Seq<char>)
    ensures
        byte_len(s) <= 4 * s.len(),
    decreases s.len(),
{
    if s.len() > 0 {
        lemma_byte_len_bound(s.drop_last());
    }
}

fn bytes_of(s: &Vec<char>) -> (r: u128)
    ensures
        r == byte_len(s@),
{
    let mut n: u128 = 0;
    let mut i: usize = 0;
    while i < s.len()
        invariant
            i <= s@.len(),
            n == byte_len(s@.take(i as int)),
            n <= 4 * i,
        decreases s@.len() - i,
    {
        assert(s@.take(i + 1).drop_last() =~= s@.take(i as int));
        n = n + utf8_len_exec(s[i]);
        i = i + 1;
    }
    assert(s@.take(i as int) =~= s@);
    n
}

fn append(v: &mut Vec<char>, t: &Vec<char>)
    ensures
        final(v)@ == old(v)@ + t@,
{
    let ghost before = v@;
    let mut i: usize = 0;
    while i < t.len()
        invariant
            i <= t@.len(),
            v@ == before + t@.take(i as int),
        decreases t@.len() - i,
    {
        v.push(t[i]);
        i = i + 1;
        assert(v@ =~= before + t@.take(i as int));
    }
    assert(t@.take(i as int) =~= t@);
}

// ----- splitting at characters -----

/// Characters packed greedily into pieces of at most `max` bytes; a single
/// character longer than that stands alone. Returns the finished pieces and
/// the piece being filled.
pub open spec fn hard_split_state(s: Seq<char>, max: nat) -> (Seq<Seq<char>>, Seq<char>)
    decreases s.len(),
{
    if s.len() == 0 {
        (Seq::empty(), Seq::empty())
    } else {
        let (done, cur) = hard_split_state(s.drop_last(), max);
        let c = s.last();
        if byte_len(cur) + utf8_len(c) > max && cur.len() > 0 {
            (done.push(cur), seq![c])
        } else {
            (done, cur.push(c))
        }
    }
}

pub open spec fn hard_split_spec(s: Seq<char>, max: nat) -> Seq<Seq<char>> {
    let (done, cur) = hard_split_state(s, max);
    if cur.len() > 0 {
        done.push(cur)
    } else {
        done
    }
}

/// The views of a list of character vectors.
pub open spec fn char_views(v: Seq<Vec<char>>) -> Seq<Seq<char>> {
    v.map_values(|x: Vec<char>| x@)
}

fn hard_split_chars(s: &Vec<char>, max: usize) -> (r: Vec<Vec<char>>)
    ensures
        char_views(r@) == hard_split_spec(s@, max as nat),
{
    let mut done: Vec<Vec<char>> = Vec::new();
    let mut cur: Vec<char> = Vec::new();
    let mut cur_bytes: u128 = 0;
    let mut i: usize = 0;
    while i < s.len()
        invariant
            i <= s@.len(),
            hard_split_state(s@.take(i as int), max as nat) == (char_views(done@), cur@),
            cur_bytes == byte_len(cur@),
            cur@.len() <= i,
        decreases s@.len() - i,
    {
        assert(s@.take(i + 1).drop_last() =~= s@.take(i as int));
        let c = s[i];
        let n = utf8_len_exec(c);
        proof {
            lemma_byte_len_bound(cur@);
        }
        if cur_bytes + n > max as u128 && cur.len() > 0 {
            let ghost before = done@;
            let ghost cv = cur@;
            done.push(cur);
            assert(char_views(done@) =~= char_views(before).push(cv));
            cur = Vec::new();
            cur.push(c);
            cur_bytes = n;
            assert(cur@ =~= seq![c]);
            assert(byte_len(seq![c]) == utf8_len(c)) by {
                assert(seq![c].drop_last() =~= Seq::<char>::empty());
                assert(byte_len(Seq::<char>::empty()) == 0);
                assert(seq![c].last() == c);
            }
        } else {
            let ghost cv = cur@;
            cur.push(c);
            assert(cur@.drop_last() =~= cv);
            assert(cur@.last() == c);
            cur_bytes = cur_bytes + n;
        }
        i = i + 1;
    }
    assert(s@.take(i as int) =~= s@);
    if cur.len() > 0 {
        let ghost before = done@;
        let ghost cv = cur@;
        done.push(cur);
        assert(char_views(done@) =~= char_views(before).push(cv));
    }
    done
}

/// The views of a list of strings.
pub open spec fn string_views(v: Seq<String>) -> Seq<Seq<char>> {
    v.map_values(|x: String| x@)
}

fn to_strings(v: &Vec<Vec<char>>) -> (r: Vec<String>)
    ensures
        string_views(r@) == char_views(v@),
{
    let mut r: Vec<String> = Vec::new();
    let mut i: usize = 0;
    while i < v.len()
        invariant
            i <= v@.len(),
            string_views(r@) == char_views(v@.take(i as int)),
        decreases v@.len() - i,
    {
        let ghost before = r@;
        let t = string_of(&v[i]);
        let ghost tv = t@;
        r.push(t);
        assert(string_views(r@) =~= string_views(before).push(tv));
        assert(char_views(v@.take(i + 1)) =~= char_views(v@.take(i as int)).push(v@[i as int]@));
        i = i + 1;
    }
    assert(v@.take(i as int) =~= v@);
    r
}

/// Splits text at character boundaries into pieces of at most `max_length`
/// bytes (a longer single character stands alone).
pub fn hard_split(text: &str, max_length: usize) -> (r: Vec<String>)
    ensures
        string_views(r@) == hard_split_spec(text@, max_length as nat),
{
    let cs = chars_of(text);
    let pieces = hard_split_chars(&cs, max_length);
    to_strings(&pieces)
}

// ----- splitting at words -----

/// The whitespace-separated words of `s`, with the word being read.
pub open spec fn words_state(s: Seq<char>) -> (Seq<Seq<char>>, Seq<char>)
    decreases s.len(),
{
    if s.len() == 0 {
        (Seq::empty(), Seq::empty())
    } else {
        let (done, cur) = words_state(s.drop_last());
        let c = s.last();
        if is_whitespace(c) {
            if cur.len() > 0 {
                (done.push(cur), Seq::empty())
            } else {
                (done, cur)
            }
        } else {
            (done, cur.push(c))
        }
    }
}

pub open spec fn words_of(s: Seq<char>) -> Seq<Seq<char>> {
    let (done, cur) = words_state(s);
    if cur.len() > 0 {
        done.push(cur)
    } else {
        done
    }
}

/// Pieces packed greedily: a piece joins the current chunk, after a space,
/// while the result stays within `max` bytes. Returns the finished chunks
/// and the chunk being filled.
pub open spec fn pack_state(ps: Seq<Seq<char>>, max: nat) -> (Seq<Seq<char>>, Seq<char>)
    decreases ps.len(),
{
    if ps.len() == 0 {
        (Seq::empty(), Seq::empty())
    } else {
        let (done, cur) = pack_state(ps.drop_last(), max);
        let w = ps.last();
        if cur.len() == 0 {
            (done, w)
        } else if byte_len(cur) + byte_len(w) + 1 <= max {
            (done, cur + seq![' '] + w)
        } else {
            (done.push(cur), w)
        }
    }
}

pub open spec fn pack_spec(ps: Seq<Seq<char>>, max: nat) -> Seq<Seq<char>> {
    let (done, cur) = pack_state(ps, max);
    if cur.len() > 0 {
        done.push(cur)
    } else {
        done
    }
}

fn words_chars(s: &Vec<char>) -> (r: Vec<Vec<char>>)
    ensures
        char_views(r@) == words_of(s@),
{
    let mut done: Vec<Vec<char>> = Vec::new();
    let mut cur: Vec<char> = Vec::new();
    let mut i: usize = 0;
    while i < s.len()
        invariant
            i <= s@.len(),
            words_state(s@.take(i as int)) == (char_views(done@), cur@),
        decreases s@.len() - i,
    {
        assert(s@.take(i + 1).drop_last() =~= s@.take(i as int));
        let c = s[i];
        if is_whitespace_exec(c) {
            if cur.len() > 0 {
                let ghost before = done@;
                let ghost cv = cur@;
                done.push(cur);
                assert(char_views(done@) =~= char_views(before).push(cv));
                cur = Vec::new();
                assert(cur@ =~= Seq::<char>::empty());
            }
        } else {
            cur.push(c);
        }
        i = i + 1;
    }
    assert(s@.take(i as int) =~= s@);
    if cur.len() > 0 {
        let ghost before = done@;
        let ghost cv = cur@;
        done.push(cur);
        assert(char_views(done@) =~= char_views(before).push(cv));
    }
    done
}

fn pack(ps: &Vec<Vec<char>>, max: usize) -> (r: Vec<Vec<char>>)
    ensures
        char_views(r@) == pack_spec(char_views(ps@), max as nat),
{
    let mut done: Vec<Vec<char>> = Vec::new();
    let mut cur: Vec<char> = Vec::new();
    let mut i: usize = 0;
    while i < ps.len()
        invariant
            i <= ps@.len(),
            pack_state(char_views(ps@.take(i as int)), max as nat) == (char_views(done@), cur@),
        decreases ps@.len() - i,
    {
        assert(char_views(ps@.take(i + 1)).drop_last() =~= char_views(ps@.take(i as int)));
        let w = &ps[i];
        if cur.len() == 0 {
            cur = w.clone();
            assert(cur@ == w@);
        } else {
            let lc = cur.len();
            let lw = w.len();
            let a = bytes_of(&cur);
            let b = bytes_of(w);
            proof {
                lemma_byte_len_bound(cur@);
                lemma_byte_len_bound(w@);
            }
            if a + b + 1 <= max as u128 {
                cur.push(' ');
                append(&mut cur, w);
            } else {
                let ghost before = done@;
                let ghost cv = cur@;
                done.push(cur);
                assert(char_views(done@) =~= char_views(before).push(cv));
                cur = w.clone();
            }
        }
        i = i + 1;
    }
    assert(ps@.take(i as int) =~= ps@);
    if cur.len() > 0 {
        let ghost before = done@;
        let ghost cv = cur@;
        done.push(cur);
        assert(char_views(done@) =~= char_views(before).push(cv));
    }
    done
}

/// Splits text at whitespace into chunks of words joined by single spaces,
/// each within `max_length` bytes unless one word alone is longer.
pub fn split_on_words(text: &str, max_length: usize) -> (r: Vec<String>)
    ensures
        string_views(r@) == pack_spec(words_of(text@), max_length as nat),
{
    let cs = chars_of(text);
    let words = words_chars(&cs);
    let packed = pack(&words, max_length);
    to_strings(&packed)
}

// ----- splitting at delimiters -----

/// `s` cut at every non-overlapping `d`, left to right.
pub open spec fn split_str(s: Seq<char>, d: Seq<char>) -> Seq<Seq<char>>
    decreases s.len(),
{
    if d.len() == 0 || s.len() < d.len() {
        seq![s]
    } else if s.take(d.len() as int) == d {
        seq![Seq::<char>::empty()] + split_str(s.skip(d.len() as int), d)
    } else {
        let r = split_str(s.skip(1), d);
        r.update(0, seq![s[0]] + r[0])
    }
}

proof fn lemma_split_str_nonempty(s: Seq<char>, d: Seq<char>)
    ensures
        split_str(s, d).len() >= 1,
    decreases s.len(),
{
    if !(d.len() == 0 || s.len() < d.len()) {
        if s.take(d.len() as int) == d {
            lemma_split_str_nonempty(s.skip(d.len() as int), d);
        } else {
            lemma_split_str_nonempty(s.skip(1), d);
        }
    }
}

/// `r` with `p` put in front of its first piece.
pub open spec fn prepend_first(r: Seq<Seq<char>>, p: Seq<char>) -> Seq<Seq<char>> {
    r.update(0, p + r[0])
}

fn split_chars(s: &Vec<char>, d: &Vec<char>) -> (r: Vec<Vec<char>>)
    requires
        d@.len() > 0,
    ensures
        char_views(r@) == split_str(s@, d@),
{
    let mut done: Vec<Vec<char>> = Vec::new();
    let mut piece: Vec<char> = Vec::new();
    let mut i: usize = 0;
    let n = s.len();
    let dl = d.len();
    proof {
        lemma_split_str_nonempty(s@, d@);
        assert(s@.skip(0) =~= s@);
        let r = split_str(s@, d@);
        assert(prepend_first(r, Seq::empty()) =~= r);
    }
    while i < n && dl <= n - i
        invariant
            i <= n,
            n == s@.len(),
            dl == d@.len(),
            dl > 0,
            split_str(s@, d@) == char_views(done@) + prepend_first(
                split_str(s@.skip(i as int), d@),
                piece@,
            ),
        decreases n - i,
    {
        let ghost rest = s@.skip(i as int);
        let mut m = true;
        let mut k: usize = 0;
        while m && k < dl
            invariant
                k <= dl,
                dl == d@.len(),
                i + dl <= n,
                n == s@.len(),
                rest == s@.skip(i as int),
                m ==> forall|j: int| 0 <= j < k ==> rest[j] == d@[j],
                !m ==> rest.take(dl as int) != d@,
            decreases dl - k,
        {
            if s[i + k] != d[k] {
                m = false;
                assert(rest.take(dl as int)[k as int] == s@[i + k]);
            }
            k = k + 1;
        }
        proof {
            lemma_split_str_nonempty(s@.skip(i + dl), d@);
            lemma_split_str_nonempty(s@.skip(i + 1), d@);
        }
        if m {
            assert(rest.take(dl as int) =~= d@);
            assert(rest.skip(dl as int) =~= s@.skip(i + dl));
            let ghost before = done@;
            let ghost pv = piece@;
            done.push(piece);
            piece = Vec::new();
            proof {
                let tail = split_str(s@.skip(i + dl), d@);
                assert(char_views(done@) =~= char_views(before).push(pv));
                assert(prepend_first(seq![Seq::<char>::empty()] + tail, pv) =~= seq![pv] + tail);
                assert(prepend_first(tail, piece@) =~= tail);
                assert(char_views(before) + (seq![pv] + tail) =~= char_views(done@) + tail);
            }
            i = i + dl;
        } else {
            let c = s[i];
            assert(rest.skip(1) =~= s@.skip(i + 1));
            assert(rest[0] == c);
            let ghost pv = piece@;
            piece.push(c);
            proof {
                let tail = split_str(s@.skip(i + 1), d@);
                assert(pv + (seq![c] + tail[0]) =~= piece@ + tail[0]);
                assert(prepend_first(tail.update(0, seq![c] + tail[0]), pv) =~= prepend_first(
                    tail,
                    piece@,
                ));
            }
            i = i + 1;
        }
    }
    // fewer characters remain than the delimiter has: they end the last piece
    let ghost rest = s@.skip(i as int);
    assert(split_str(rest, d@) == seq![rest]);
    let mut j: usize = i;
    let ghost p0 = piece@;
    while j < n
        invariant
            i <= j <= n,
            n == s@.len(),
            piece@ == p0 + s@.subrange(i as int, j as int),
        decreases n - j,
    {
        piece.push(s[j]);
        j = j + 1;
        assert(piece@ =~= p0 + s@.subrange(i as int, j as int));
    }
    assert(s@.subrange(i as int, n as int) =~= rest);
    let ghost before = done@;
    let ghost pv = piece@;
    done.push(piece);
    assert(prepend_first(seq![rest], p0) =~= seq![pv]);
    assert(char_views(done@) =~= char_views(before).push(pv));
    assert(char_views(before) + seq![pv] =~= char_views(before).push(pv));
    done
}

/// The trimmed delimiter, or nothing for a whitespace-only one.
pub open spec fn glue(d: Seq<char>) -> Seq<char> {
    trim_end(trim_start(d))
}

/// Parts rejoined greedily into chunks of at most `max` bytes: each
/// non-blank part is trimmed and, but for the first, led by the trimmed
/// delimiter and a space.
pub open spec fn reassemble_state(ps: Seq<Seq<char>>, d: Seq<char>, max: nat) -> (Seq<Seq<char>>, Seq<char>)
    decreases ps.len(),
{
    if ps.len() == 0 {
        (Seq::empty(), Seq::empty())
    } else {
        let (done, cur) = reassemble_state(ps.drop_last(), d, max);
        let i = ps.len() - 1;
        let p = trim_end(trim_start(ps.last()));
        if p.len() == 0 {
            (done, cur)
        } else {
            let wd = if i > 0 && glue(d).len() > 0 {
                glue(d) + seq![' '] + p
            } else {
                p
            };
            if cur.len() == 0 {
                (done, wd)
            } else if byte_len(cur) + byte_len(wd) + 1 <= max {
                (done, cur + seq![' '] + wd)
            } else {
                (done.push(trim_end(trim_start(cur))), wd)
            }
        }
    }
}

pub open spec fn reassemble_spec(ps: Seq<Seq<char>>, d: Seq<char>, max: nat) -> Seq<Seq<char>> {
    let (done, cur) = reassemble_state(ps, d, max);
    if cur.len() > 0 {
        done.push(trim_end(trim_start(cur)))
    } else {
        done
    }
}

fn reassemble_chars(ps: &Vec<Vec<char>>, d: &Vec<char>, max: usize) -> (r: Vec<Vec<char>>)
    ensures
        char_views(r@) == reassemble_spec(char_views(ps@), d@, max as nat),
{
    let g = trim_pass(d);
    let mut done: Vec<Vec<char>> = Vec::new();
    let mut cur: Vec<char> = Vec::new();
    let mut i: usize = 0;
    while i < ps.len()
        invariant
            i <= ps@.len(),
            g@ == glue(d@),
            reassemble_state(char_views(ps@.take(i as int)), d@, max as nat) == (
                char_views(done@),
                cur@,
            ),
        decreases ps@.len() - i,
    {
        assert(char_views(ps@.take(i + 1)).drop_last() =~= char_views(ps@.take(i as int)));
        assert(char_views(ps@.take(i + 1)).last() == ps@[i as int]@);
        let p = trim_pass(&ps[i]);
        if p.len() > 0 {
            let mut wd: Vec<char> = Vec::new();
            if i > 0 && g.len() > 0 {
                append(&mut wd, &g);
                wd.push(' ');
            }
            append(&mut wd, &p);
            proof {
                if i > 0 && g@.len() > 0 {
                    assert(wd@ =~= glue(d@) + seq![' '] + p@);
                } else {
                    assert(wd@ =~= p@);
                }
            }
            if cur.len() == 0 {
                cur = wd;
            } else {
                let lc = cur.len();
                let lw = wd.len();
                let a = bytes_of(&cur);
                let b = bytes_of(&wd);
                proof {
                    lemma_byte_len_bound(cur@);
                    lemma_byte_len_bound(wd@);
                }
                if a + b + 1 <= max as u128 {
                    cur.push(' ');
                    append(&mut cur, &wd);
                } else {
                    let t = trim_pass(&cur);
                    let ghost before = done@;
                    let ghost tv = t@;
                    done.push(t);
                    assert(char_views(done@) =~= char_views(before).push(tv));
                    cur = wd;
                }
            }
        }
        i = i + 1;
    }
    assert(ps@.take(i as int) =~= ps@);
    if cur.len() > 0 {
        let t = trim_pass(&cur);
        let ghost before = done@;
        let ghost tv = t@;
        done.push(t);
        assert(char_views(done@) =~= char_views(before).push(tv));
    }
    done
}

/// Rejoins the parts of a split sentence into chunks within `max_length`
/// bytes, restoring the delimiter before every part but the first.
pub fn reassemble_parts(parts: &Vec<String>, delimiter: &str, max_length: usize) -> (r: Vec<String>)
    ensures
        string_views(r@) == reassemble_spec(string_views(parts@), delimiter@, max_length as nat),
{
    let mut ps: Vec<Vec<char>> = Vec::new();
    let mut i: usize = 0;
    while i < parts.len()
        invariant
            i <= parts@.len(),
            char_views(ps@) == string_views(parts@.take(i as int)),
        decreases parts@.len() - i,
    {
        let ghost before = ps@;
        let c = chars_of(parts[i].as_str());
        let ghost cv = c@;
        ps.push(c);
        assert(char_views(ps@) =~= char_views(before).push(cv));
        assert(string_views(parts@.take(i + 1)) =~= string_views(parts@.take(i as int)).push(
            parts@[i as int]@,
        ));
        i = i + 1;
    }
    assert(parts@.take(i as int) =~= parts@);
    let d = chars_of(delimiter);
    let r = reassemble_chars(&ps, &d, max_length);
    to_strings(&r)
}

fn strings_to_chars(v: &Vec<String>) -> (r: Vec<Vec<char>>)
    ensures
        char_views(r@) == string_views(v@),
{
    let mut ps: Vec<Vec<char>> = Vec::new();
    let mut i: usize = 0;
    while i < v.len()
        invariant
            i <= v@.len(),
            char_views(ps@) == string_views(v@.take(i as int)),
        decreases v@.len() - i,
    {
        let ghost before = ps@;
        let c = chars_of(v[i].as_str());
        let ghost cv = c@;
        ps.push(c);
        assert(char_views(ps@) =~= char_views(before).push(cv));
        assert(string_views(v@.take(i + 1)) =~= string_views(v@.take(i as int)).push(v@[i as int]@));
        i = i + 1;
    }
    assert(v@.take(i as int) =~= v@);
    ps
}

// ----- splitting long sentences -----

/// The break points tried, in order of preference.
pub open spec fn delimiter(k: nat) -> Seq<char> {
    if k == 0 {
        ";"@
    } else if k == 1 {
        ":"@
    } else if k == 2 {
        ","@
    } else if k == 3 {
        " - "@
    } else if k == 4 {
        " \u{2014} "@
    } else {
        " \u{2013} "@
    }
}

/// How many more levels of splitting at break points are allowed.
pub open spec fn depth_left(depth: nat) -> nat {
    if depth > MAX_SPLIT_DEPTH {
        0
    } else {
        (MAX_SPLIT_DEPTH + 1 - depth) as nat
    }
}

/// A sentence longer than `max` bytes split into pieces: at the first
/// break point whose parts rejoin into more than one chunk (pieces still too
/// long are split again, one level deeper), else at words (words still too
/// long are split at characters), else at characters. Past the depth limit
/// the split is at characters.
pub open spec fn split_long_spec(s: Seq<char>, max: nat, depth: nat) -> Seq<Seq<char>>
    decreases depth_left(depth), 2nat, 0nat,
{
    if depth > MAX_SPLIT_DEPTH {
        hard_split_spec(s, max)
    } else if byte_len(s) <= max {
        seq![s]
    } else {
        split_at_breaks(s, max, depth, 0)
    }
}

/// Splitting at break point `k` and the later ones, then at words.
pub open spec fn split_at_breaks(s: Seq<char>, max: nat, depth: nat, k: nat) -> Seq<Seq<char>>
    decreases depth_left(depth), 1nat, (6 - k) as nat,
{
    if depth > MAX_SPLIT_DEPTH {
        hard_split_spec(s, max)
    } else if k >= 6 {
        let ws = pack_spec(words_of(s), max);
        if ws.len() > 1 {
            split_words(ws, max)
        } else {
            hard_split_spec(s, max)
        }
    } else {
        let parts = split_str(s, delimiter(k));
        let chunks = reassemble_spec(parts, delimiter(k), max);
        if parts.len() > 1 && chunks.len() > 1 {
            split_chunks(chunks, max, depth + 1)
        } else {
            split_at_breaks(s, max, depth, k + 1)
        }
    }
}

/// Chunks kept, dropped when empty, or split again at `depth` when too long.
pub open spec fn split_chunks(cs: Seq<Seq<char>>, max: nat, depth: nat) -> Seq<Seq<char>>
    decreases depth_left(depth), 3nat, cs.len(),
{
    if cs.len() == 0 {
        Seq::empty()
    } else {
        let c = cs.last();
        split_chunks(cs.drop_last(), max, depth) + if byte_len(c) > max {
            split_long_spec(c, max, depth)
        } else if c.len() > 0 {
            seq![c]
        } else {
            Seq::empty()
        }
    }
}

/// Word chunks kept, dropped when empty, or split at characters when too long.
pub open spec fn split_words(cs: Seq<Seq<char>>, max: nat) -> Seq<Seq<char>>
    decreases cs.len(),
{
    if cs.len() == 0 {
        Seq::empty()
    } else {
        let c = cs.last();
        split_words(cs.drop_last(), max) + if byte_len(c) > max {
            hard_split_spec(c, max)
        } else if c.len() > 0 {
            seq![c]
        } else {
            Seq::empty()
        }
    }
}

fn delimiter_chars(k: usize) -> (r: Vec<char>)
    requires
        k < 6,
    ensures
        r@ == delimiter(k as nat),
        r@.len() > 0,
{
    proof {
        reveal_strlit(";");
        reveal_strlit(":");
        reveal_strlit(",");
        reveal_strlit(" - ");
        reveal_strlit(" \u{2014} ");
        reveal_strlit(" \u{2013} ");
    }
    if k == 0 {
        chars_of(";")
    } else if k == 1 {
        chars_of(":")
    } else if k == 2 {
        chars_of(",")
    } else if k == 3 {
        chars_of(" - ")
    } else if k == 4 {
        chars_of(" \u{2014} ")
    } else {
        chars_of(" \u{2013} ")
    }
}

fn extend_pieces(out: &mut Vec<Vec<char>>, more: Vec<Vec<char>>)
    ensures
        char_views(final(out)@) == char_views(old(out)@) + char_views(more@),
{
    let ghost before = char_views(out@);
    let ghost all = char_views(more@);
    let mut more = more;
    let mut rev: Vec<Vec<char>> = Vec::new();
    while more.len() > 0
        invariant
            all == char_views(more@) + char_views(rev@).reverse(),
            char_views(out@) == before,
        decreases more@.len(),
    {
        let ghost m0 = more@;
        let x = more.pop().unwrap();
        let ghost r0 = rev@;
        rev.push(x);
        assert(char_views(m0) =~= char_views(more@).push(x@));
        assert(char_views(rev@).reverse() =~= seq![x@] + char_views(r0).reverse());
    }
    assert(all =~= char_views(rev@).reverse());
    while rev.len() > 0
        invariant
            char_views(out@) + char_views(rev@).reverse() == before + all,
        decreases rev@.len(),
    {
        let ghost r0 = rev@;
        let ghost o0 = out@;
        let x = rev.pop().unwrap();
        out.push(x);
        assert(char_views(r0).reverse() =~= seq![x@] + char_views(rev@).reverse());
        assert(char_views(out@) =~= char_views(o0).push(x@));
        assert(char_views(out@) + char_views(rev@).reverse() =~= char_views(o0) + char_views(
            r0,
        ).reverse());
    }
    assert(char_views(rev@).reverse() =~= Seq::<Seq<char>>::empty());
    assert(char_views(out@) =~= before + all);
}

fn split_long_chars(s: &Vec<char>, max: usize, depth: usize) -> (r: Vec<Vec<char>>)
    ensures
        char_views(r@) == split_long_spec(s@, max as nat, depth as nat),
    decreases depth_left(depth as nat), 2nat, 0nat,
{
    if depth > MAX_SPLIT_DEPTH {
        return hard_split_chars(s, max);
    }
    let lc = s.len();
    let b = bytes_of(s);
    proof {
        lemma_byte_len_bound(s@);
    }
    if b <= max as u128 {
        let mut r: Vec<Vec<char>> = Vec::new();
        r.push(s.clone());
        assert(char_views(r@) =~= seq![s@]);
        return r;
    }
    split_at_breaks_chars(s, max, depth, 0)
}

fn split_at_breaks_chars(s: &Vec<char>, max: usize, depth: usize, k: usize) -> (r: Vec<Vec<char>>)
    requires
        k <= 6,
    ensures
        char_views(r@) == split_at_breaks(s@, max as nat, depth as nat, k as nat),
    decreases depth_left(depth as nat), 1nat, (6 - k) as nat,
{
    if depth > MAX_SPLIT_DEPTH {
        return hard_split_chars(s, max);
    }
    if k >= 6 {
        let words = words_chars(s);
        let ws = pack(&words, max);
        if ws.len() > 1 {
            return split_words_chars(&ws, max);
        } else {
            return hard_split_chars(s, max);
        }
    }
    let d = delimiter_chars(k);
    let parts = split_chars(s, &d);
    let chunks = reassemble_chars(&parts, &d, max);
    if parts.len() > 1 && chunks.len() > 1 {
        split_chunks_chars(&chunks, max, depth + 1)
    } else {
        split_at_breaks_chars(s, max, depth, k + 1)
    }
}

fn split_chunks_chars(cs: &Vec<Vec<char>>, max: usize, depth: usize) -> (r: Vec<Vec<char>>)
    ensures
        char_views(r@) == split_chunks(char_views(cs@), max as nat, depth as nat),
    decreases depth_left(depth as nat), 3nat, cs@.len(),
{
    let mut out: Vec<Vec<char>> = Vec::new();
    let mut i: usize = 0;
    while i < cs.len()
        invariant
            i <= cs@.len(),
            char_views(out@) == split_chunks(char_views(cs@.take(i as int)), max as nat, depth as nat),
        decreases cs@.len() - i,
    {
        assert(char_views(cs@.take(i + 1)).drop_last() =~= char_views(cs@.take(i as int)));
        assert(char_views(cs@.take(i + 1)).last() == cs@[i as int]@);
        let c = &cs[i];
        let lc = c.len();
        let b = bytes_of(c);
        proof {
            lemma_byte_len_bound(c@);
        }
        if b > max as u128 {
            let more = split_long_chars(c, max, depth);
            extend_pieces(&mut out, more);
        } else if c.len() > 0 {
            let ghost before = out@;
            out.push(c.clone());
            assert(char_views(out@) =~= char_views(before) + seq![c@]);
        } else {
            assert(char_views(out@) =~= char_views(out@) + Seq::<Seq<char>>::empty());
        }
        i = i + 1;
    }
    assert(cs@.take(i as int) =~= cs@);
    out
}

fn split_words_chars(cs: &Vec<Vec<char>>, max: usize) -> (r: Vec<Vec<char>>)
    ensures
        char_views(r@) == split_words(char_views(cs@), max as nat),
{
    let mut out: Vec<Vec<char>> = Vec::new();
    let mut i: usize = 0;
    while i < cs.len()
        invariant
            i <= cs@.len(),
            char_views(out@) == split_words(char_views(cs@.take(i as int)), max as nat),
        decreases cs@.len() - i,
    {
        assert(char_views(cs@.take(i + 1)).drop_last() =~= char_views(cs@.take(i as int)));
        assert(char_views(cs@.take(i + 1)).last() == cs@[i as int]@);
        let c = &cs[i];
        let lc = c.len();
        let b = bytes_of(c);
        proof {
            lemma_byte_len_bound(c@);
        }
        if b > max as u128 {
            let more = hard_split_chars(c, max);
            extend_pieces(&mut out, more);
        } else if c.len() > 0 {
            let ghost before = out@;
            out.push(c.clone());
            assert(char_views(out@) =~= char_views(before) + seq![c@]);
        } else {
            assert(char_views(out@) =~= char_views(out@) + Seq::<Seq<char>>::empty());
        }
        i = i + 1;
    }
    assert(cs@.take(i as int) =~= cs@);
    out
}

/// Splits a sentence longer than `max_length` bytes into pieces at natural
/// break points, then at words, then at characters.
pub fn split_long_sentence(sentence: &str, max_length: usize, depth: usize) -> (r: Vec<String>)
    ensures
        string_views(r@) == split_long_spec(sentence@, max_length as nat, depth as nat),
{
    let cs = chars_of(sentence);
    let pieces = split_long_chars(&cs, max_length, depth);
    to_strings(&pieces)
}

// ----- packing sentences -----

/// The pieces that are not empty, in order.
pub open spec fn non_empty(ps: Seq<Seq<char>>) -> Seq<Seq<char>>
    decreases ps.len(),
{
    if ps.len() == 0 {
        Seq::empty()
    } else if ps.last().len() > 0 {
        non_empty(ps.drop_last()).push(ps.last())
    } else {
        non_empty(ps.drop_last())
    }
}

/// The current chunk, trimmed, appended when it is not empty.
pub open spec fn flush(done: Seq<Seq<char>>, cur: Seq<char>) -> Seq<Seq<char>> {
    if cur.len() > 0 {
        done.push(trim_end(trim_start(cur)))
    } else {
        done
    }
}

/// Sentences packed into chunks of about `target` bytes: a sentence joins
/// the current chunk while the chunk stays within `target`; a sentence
/// longer than `max` is split on its own, at `target`. Returns the finished
/// chunks and the chunk being filled.
pub open spec fn chunk_state(ss: Seq<Seq<char>>, target: nat, max: nat) -> (Seq<Seq<char>>, Seq<char>)
    decreases ss.len(),
{
    if ss.len() == 0 {
        (Seq::empty(), Seq::empty())
    } else {
        let (done, cur) = chunk_state(ss.drop_last(), target, max);
        let s = ss.last();
        if byte_len(s) > max {
            (flush(done, cur) + non_empty(split_long_spec(s, target, 0)), Seq::empty())
        } else if byte_len(cur) + byte_len(s) + 1 <= target {
            (done, if cur.len() > 0 {
                cur + seq![' '] + s
            } else {
                s
            })
        } else {
            (flush(done, cur), s)
        }
    }
}

/// The chunks of a sentence list.
pub open spec fn chunk_spec(ss: Seq<Seq<char>>, target: nat, max: nat) -> Seq<Seq<char>> {
    let (done, cur) = chunk_state(ss, target, max);
    if trim_end(trim_start(cur)).len() > 0 {
        done.push(trim_end(trim_start(cur)))
    } else {
        done
    }
}

fn push_non_empty(out: &mut Vec<Vec<char>>, ps: Vec<Vec<char>>)
    ensures
        char_views(final(out)@) == char_views(old(out)@) + non_empty(char_views(ps@)),
{
    let ghost before = char_views(out@);
    let mut kept: Vec<Vec<char>> = Vec::new();
    let mut i: usize = 0;
    while i < ps.len()
        invariant
            i <= ps@.len(),
            char_views(kept@) == non_empty(char_views(ps@.take(i as int))),
        decreases ps@.len() - i,
    {
        assert(char_views(ps@.take(i + 1)).drop_last() =~= char_views(ps@.take(i as int)));
        assert(char_views(ps@.take(i + 1)).last() == ps@[i as int]@);
        if ps[i].len() > 0 {
            let ghost k0 = kept@;
            kept.push(ps[i].clone());
            assert(char_views(kept@) =~= char_views(k0).push(ps@[i as int]@));
        }
        i = i + 1;
    }
    assert(ps@.take(i as int) =~= ps@);
    extend_pieces(out, kept);
}

fn flush_exec(done: &mut Vec<Vec<char>>, cur: &Vec<char>)
    ensures
        char_views(final(done)@) == flush(char_views(old(done)@), cur@),
{
    if cur.len() > 0 {
        let t = trim_pass(cur);
        let ghost before = done@;
        let ghost tv = t@;
        done.push(t);
        assert(char_views(done@) =~= char_views(before).push(tv));
    }
}

fn chunk_chars(ss: &Vec<Vec<char>>, target: usize, max: usize) -> (r: Vec<Vec<char>>)
    ensures
        char_views(r@) == chunk_spec(char_views(ss@), target as nat, max as nat),
{
    let mut done: Vec<Vec<char>> = Vec::new();
    let mut cur: Vec<char> = Vec::new();
    let mut i: usize = 0;
    while i < ss.len()
        invariant
            i <= ss@.len(),
            chunk_state(char_views(ss@.take(i as int)), target as nat, max as nat) == (
                char_views(done@),
                cur@,
            ),
        decreases ss@.len() - i,
    {
        assert(char_views(ss@.take(i + 1)).drop_last() =~= char_views(ss@.take(i as int)));
        assert(char_views(ss@.take(i + 1)).last() == ss@[i as int]@);
        let s = &ss[i];
        let ls = s.len();
        let lc = cur.len();
        let bs = bytes_of(s);
        let bc = bytes_of(&cur);
        proof {
            lemma_byte_len_bound(s@);
            lemma_byte_len_bound(cur@);
        }
        if bs > max as u128 {
            flush_exec(&mut done, &cur);
            cur = Vec::new();
            let parts = split_long_chars(s, target, 0);
            push_non_empty(&mut done, parts);
            assert(cur@ =~= Seq::<char>::empty());
        } else if bc + bs + 1 <= target as u128 {
            if cur.len() > 0 {
                cur.push(' ');
            }
            append(&mut cur, s);
            proof {
                if lc == 0 {
                    assert(cur@ =~= s@);
                }
            }
        } else {
            flush_exec(&mut done, &cur);
            cur = s.clone();
        }
        i = i + 1;
    }
    assert(ss@.take(i as int) =~= ss@);
    let t = trim_pass(&cur);
    if t.len() > 0 {
        let ghost before = done@;
        let ghost tv = t@;
        done.push(t);
        assert(char_views(done@) =~= char_views(before).push(tv));
    }
    done
}

/// Packs detected sentences into chunks of about `target_size` bytes;
/// sentences longer than `max_size` are split at natural break points.
pub fn chunk_sentences(sentences: &Vec<String>, target_size: usize, max_size: usize) -> (r: Vec<String>)
    ensures
        string_views(r@) == chunk_spec(string_views(sentences@), target_size as nat, max_size as nat),
{
    let ss = strings_to_chars(sentences);
    let chunks = chunk_chars(&ss, target_size, max_size);
    to_strings(&chunks)
}

/// The chunks of a chapter, numbered from zero, from its detected
/// sentences; sentences longer than `target_size + 70` bytes are split.
pub fn process_chapter(chapter_id: usize, sentences: &Vec<String>, target_size: usize) -> (r: Vec<TextChunk>)
    requires
        target_size <= usize::MAX - 70,
    ensures
        r@.len() == chunk_spec(string_views(sentences@), target_size as nat, (target_size + 70) as nat).len(),
        forall|i: int|
            0 <= i < r@.len() ==> {
                let c = #[trigger] r@[i];
                &&& c.chapter_id == chapter_id
                &&& c.chunk_id == i
                &&& c.text@ == chunk_spec(string_views(sentences@), target_size as nat, (target_size + 70) as nat)[i]
            },
{
    let raw = chunk_sentences(sentences, target_size, target_size + 70);
    let ghost spec = chunk_spec(string_views(sentences@), target_size as nat, (target_size + 70) as nat);
    let mut raw = raw;
    let ghost all = raw@;
    let mut rev: Vec<String> = Vec::new();
    while raw.len() > 0
        invariant
            all == raw@ + rev@.reverse(),
        decreases raw@.len(),
    {
        let x = raw.pop().unwrap();
        proof {
            assert(rev@.push(x).reverse() =~= seq![x] + rev@.reverse());
        }
        rev.push(x);
    }
    assert(all =~= rev@.reverse());
    let n = rev.len();
    let mut r: Vec<TextChunk> = Vec::new();
    let mut i: usize = 0;
    while i < n
        invariant
            n == all.len(),
            i <= n,
            rev@.len() == n - i,
            forall|k: int| 0 <= k < rev@.len() ==> #[trigger] rev@[k] == all[n - 1 - k],
            string_views(all) == spec,
            r@.len() == i,
            forall|k: int|
                0 <= k < i ==> {
                    let c = #[trigger] r@[k];
                    &&& c.chapter_id == chapter_id
                    &&& c.chunk_id == k
                    &&& c.text@ == spec[k]
                },
        decreases n - i,
    {
        let text = rev.pop().unwrap();
        assert(text == all[i as int]);
        assert(string_views(all)[i as int] == text@);
        r.push(TextChunk::new(chapter_id, i, text));
        i = i + 1;
    }
    r
}

/// `text` cut at every non-overlapping `sep`, left to right.
pub fn split_text(text: &str, sep: &str) -> (r: Vec<String>)
    requires
        sep@.len() > 0,
    ensures
        string_views(r@) == split_str(text@, sep@),
{
    let cs = chars_of(text);
    let d = chars_of(sep);
    let pieces = split_chars(&cs, &d);
    to_strings(&pieces)
}

} // verus!
