//! The book model and the small parsers around it: chapter titles in HTML,
//! tag stripping, word counts, chapter ranges and cover image kinds.
use vstd::prelude::*;
use crate::chars::{chars_of, digits_value, fit_usize, parse_digits, string_of};
use crate::cleaner::{is_whitespace, is_whitespace_exec, trim_end, trim_pass, trim_start};

verus! {

/// A chapter of a book.
#[derive(Debug, Clone)]
pub struct Chapter {
    pub title: Option<String>,
    /// Plain text content.
    pub content: String,
}

/// A parsed book.
#[derive(Debug)]
pub struct Book {
    pub title: String,
    pub author: Option<String>,
    /// Chapters in reading order.
    pub chapters: Vec<Chapter>,
    /// Cover image bytes, if the book has one.
    pub cover_image: Option<Vec<u8>>,
}

/// The number of whitespace-separated words of `s`.
pub open spec fn word_count(s: Seq<char>) -> nat
    decreases s.len(),
{
    if s.len() == 0 {
        0
    } else {
        let starts = !is_whitespace(s.last()) && (s.len() == 1 || is_whitespace(s[s.len() - 2]));
        word_count(s.drop_last()) + (if starts {
            1nat
        } else {
            0nat
        })
    }
}

/// Total words over chapters.
pub open spec fn total_word_count(cs: Seq<Chapter>) -> nat
    decreases cs.len(),
{
    if cs.len() == 0 {
        0
    } else {
        total_word_count(cs.drop_last()) + word_count(cs.last().content@)
    }
}

/// The number of whitespace-separated words of `text`.
pub fn count_words(text: &str) -> (r: usize)
    ensures
        r == word_count(text@),
{
    let cs = chars_of(text);
    let mut n: usize = 0;
    let mut i: usize = 0;
    while i < cs.len()
        invariant
            i <= cs@.len(),
            n == word_count(cs@.take(i as int)),
            n <= i,
        decreases cs@.len() - i,
    {
        let ghost t = cs@.take(i + 1);
        assert(t.drop_last() =~= cs@.take(i as int));
        assert(t.last() == cs@[i as int]);
        assert(i >= 1 ==> t[t.len() - 2] == cs@[i - 1]);
        if !is_whitespace_exec(cs[i]) && (i == 0 || is_whitespace_exec(cs[i - 1])) {
            n = n + 1;
        }
        i = i + 1;
    }
    assert(cs@.take(i as int) =~= cs@);
    n
}

impl Book {
    /// Approximate total word count across chapters.
    pub fn total_words(&self) -> (r: usize)
        requires
            total_word_count(self.chapters@) <= usize::MAX,
        ensures
            r == total_word_count(self.chapters@),
    {
        let mut total: usize = 0;
        let mut i: usize = 0;
        while i < self.chapters.len()
            invariant
                i <= self.chapters@.len(),
                total == total_word_count(self.chapters@.take(i as int)),
                total_word_count(self.chapters@) <= usize::MAX,
            decreases self.chapters@.len() - i,
        {
            assert(self.chapters@.take(i + 1).drop_last() =~= self.chapters@.take(i as int));
            proof {
                lemma_total_prefix(self.chapters@, i + 1);
            }
            let w = count_words(self.chapters[i].content.as_str());
            total = total + w;
            i = i + 1;
        }
        assert(self.chapters@.take(i as int) =~= self.chapters@);
        total
    }
}

proof fn lemma_total_prefix(cs: Seq<Chapter>, n: int)
    requires
        0 <= n <= cs.len(),
    ensures
        total_word_count(cs.take(n)) <= total_word_count(cs),
    decreases cs.len(),
{
    if n < cs.len() {
        assert(cs.drop_last().take(n) =~= cs.take(n));
        lemma_total_prefix(cs.drop_last(), n);
    } else {
        assert(cs.take(n) =~= cs);
    }
}

/// The text outside `<...>` tags, with whether the end is inside a tag.
pub open spec fn strip_tags_state(s: Seq<char>) -> (Seq<char>, bool)
    decreases s.len(),
{
    if s.len() == 0 {
        (Seq::empty(), false)
    } else {
        let (out, in_tag) = strip_tags_state(s.drop_last());
        let c = s.last();
        if c == '<' {
            (out, true)
        } else if c == '>' {
            (out, false)
        } else if !in_tag {
            (out.push(c), in_tag)
        } else {
            (out, in_tag)
        }
    }
}

fn strip_tags_chars(s: &Vec<char>, from: usize, to: usize) -> (r: Vec<char>)
    requires
        from <= to <= s@.len(),
    ensures
        r@ == strip_tags_state(s@.subrange(from as int, to as int)).0,
{
    let mut out: Vec<char> = Vec::new();
    let mut in_tag = false;
    let mut i: usize = from;
    while i < to
        invariant
            from <= i <= to <= s@.len(),
            strip_tags_state(s@.subrange(from as int, i as int)) == (out@, in_tag),
        decreases to - i,
    {
        let c = s[i];
        assert(s@.subrange(from as int, i + 1).drop_last() =~= s@.subrange(from as int, i as int));
        assert(s@.subrange(from as int, i + 1).last() == c);
        if c == '<' {
            in_tag = true;
        } else if c == '>' {
            in_tag = false;
        } else if !in_tag {
            out.push(c);
        }
        i = i + 1;
    }
    out
}

/// The text of an HTML fragment without its tags.
pub fn strip_html_tags(html: &str) -> (r: String)
    ensures
        r@ == strip_tags_state(html@).0,
{
    let cs = chars_of(html);
    assert(cs@.subrange(0, cs@.len() as int) =~= cs@);
    let out = strip_tags_chars(&cs, 0, cs.len());
    string_of(&out)
}

/// `c` equals the pattern character `p`, or is the capital of the lowercase
/// ASCII letter `p`.
pub open spec fn ci_eq(c: char, p: char) -> bool {
    c == p || ('a' <= p && p <= 'z' && (c as u32) + 32 == (p as u32))
}

/// `pat` (lowercase) stands at position `i` of `s`, ignoring ASCII case.
pub open spec fn matches_at(s: Seq<char>, i: int, pat: Seq<char>) -> bool {
    &&& 0 <= i
    &&& i + pat.len() <= s.len()
    &&& forall|k: int| 0 <= k < pat.len() ==> ci_eq(#[trigger] s[i + k], pat[k])
}

/// The first position at or after `from` where `pat` stands, or -1.
pub open spec fn find_from(s: Seq<char>, pat: Seq<char>, from: int) -> int
    decreases s.len() - from,
{
    if from < 0 || from + pat.len() > s.len() {
        -1
    } else if matches_at(s, from, pat) {
        from
    } else {
        find_from(s, pat, from + 1)
    }
}

fn ci_eq_exec(c: char, p: char) -> (r: bool)
    ensures
        r == ci_eq(c, p),
{
    c == p || ('a' <= p && p <= 'z' && (c as u32) + 32 == (p as u32))
}

fn matches_at_exec(s: &Vec<char>, i: usize, pat: &Vec<char>) -> (r: bool)
    ensures
        r == matches_at(s@, i as int, pat@),
{
    if i > s.len() || pat.len() > s.len() - i {
        return false;
    }
    let mut k: usize = 0;
    let n = s.len();
    while k < pat.len()
        invariant
            k <= pat@.len(),
            n == s@.len(),
            i + pat@.len() <= s@.len(),
            forall|j: int| 0 <= j < k ==> ci_eq(#[trigger] s@[i + j], pat@[j]),
        decreases pat@.len() - k,
    {
        if !ci_eq_exec(s[i + k], pat[k]) {
            return false;
        }
        k = k + 1;
    }
    true
}

fn find_exec(s: &Vec<char>, pat: &Vec<char>, from: usize) -> (r: Option<usize>)
    ensures
        r matches Some(i) ==> i as int == find_from(s@, pat@, from as int),
        r is None ==> find_from(s@, pat@, from as int) == -1,
{
    let mut i: usize = from;
    while i <= s.len() && pat.len() <= s.len() - i
        invariant
            from <= i,
            find_from(s@, pat@, from as int) == find_from(s@, pat@, i as int),
        decreases s@.len() - i,
    {
        if matches_at_exec(s, i, pat) {
            return Some(i);
        }
        i = i + 1;
    }
    None
}

/// The trimmed, tag-free content of the first `<tag ...>...</tag>` element, if
/// it is not empty.
pub open spec fn heading_text(s: Seq<char>, open: Seq<char>, close: Seq<char>) -> Option<Seq<char>> {
    let start = find_from(s, open, 0);
    if start < 0 {
        None
    } else {
        let gt = find_from(s, seq!['>'], start);
        if gt < 0 {
            None
        } else {
            let cs = gt + 1;
            let end = find_from(s, close, cs);
            if end < 0 {
                None
            } else {
                let t = trim_end(trim_start(strip_tags_state(s.subrange(cs, end)).0));
                if t.len() == 0 {
                    None
                } else {
                    Some(t)
                }
            }
        }
    }
}

/// The title of an HTML chapter: the first level-one heading, else the
/// first level-two heading. Tag names match regardless of ASCII case.
pub open spec fn html_title(s: Seq<char>) -> Option<Seq<char>> {
    match heading_text(s, "<h1"@, "</h1>"@) {
        Some(t) => Some(t),
        None => heading_text(s, "<h2"@, "</h2>"@),
    }
}

proof fn lemma_find_from_bounds(s: Seq<char>, pat: Seq<char>, from: int)
    ensures
        find_from(s, pat, from) == -1 || (from <= find_from(s, pat, from) && find_from(s, pat, from)
            + pat.len() <= s.len()),
    decreases s.len() - from,
{
    if !(from < 0 || from + pat.len() > s.len()) && !matches_at(s, from, pat) {
        lemma_find_from_bounds(s, pat, from + 1);
    }
}

fn heading_exec(s: &Vec<char>, open: &Vec<char>, close: &Vec<char>) -> (r: Option<String>)
    ensures
        r matches Some(t) ==> heading_text(s@, open@, close@) == Some(t@),
        r is None ==> heading_text(s@, open@, close@) is None,
{
    let start = match find_exec(s, open, 0) {
        Some(i) => i,
        None => {
            return None;
        },
    };
    let gt_pat: Vec<char> = vec!['>'];
    assert(gt_pat@ =~= seq!['>']);
    let gt = match find_exec(s, &gt_pat, start) {
        Some(i) => i,
        None => {
            return None;
        },
    };
    proof {
        lemma_find_from_bounds(s@, seq!['>'], start as int);
    }
    let len = s.len();
    assert(gt < len);
    let cs = gt + 1;
    let end = match find_exec(s, close, cs) {
        Some(i) => i,
        None => {
            return None;
        },
    };
    proof {
        lemma_find_from_bounds(s@, close@, cs as int);
    }
    let stripped = strip_tags_chars(s, cs, end);
    let t = trim_pass(&stripped);
    if t.len() == 0 {
        None
    } else {
        Some(string_of(&t))
    }
}

/// The chapter title found in an HTML document, if any.
pub fn extract_title_from_html(html: &str) -> (r: Option<String>)
    ensures
        r matches Some(t) ==> html_title(html@) == Some(t@),
        r is None ==> html_title(html@) is None,
{
    let s = chars_of(html);
    let h1 = chars_of("<h1");
    let h1_end = chars_of("</h1>");
    match heading_exec(&s, &h1, &h1_end) {
        Some(t) => Some(t),
        None => {
            let h2 = chars_of("<h2");
            let h2_end = chars_of("</h2>");
            heading_exec(&s, &h2, &h2_end)
        },
    }
}

/// Why a chapter range was refused.
#[derive(Debug, Clone, Copy, PartialEq, Eq, Structural)]
pub enum RangeError {
    /// More than one `-`.
    InvalidFormat,
    InvalidStart,
    InvalidEnd,
    InvalidChapter,
}

/// A decimal number as `str::parse::<usize>` reads it: an optional `+`,
/// then at least one digit.
pub open spec fn parse_usize_spec(s: Seq<char>) -> Option<usize> {
    if s.len() > 0 && s[0] == '+' {
        fit_usize(digits_value(s.skip(1)))
    } else {
        fit_usize(digits_value(s))
    }
}

fn parse_usize_range(s: &Vec<char>, from: usize, to: usize) -> (r: Option<usize>)
    requires
        from <= to <= s@.len(),
    ensures
        r == parse_usize_spec(s@.subrange(from as int, to as int)),
{
    let ghost seg = s@.subrange(from as int, to as int);
    if from < to && s[from] == '+' {
        assert(seg.skip(1) =~= s@.subrange(from + 1, to as int));
        parse_digits(s, from + 1, to)
    } else {
        parse_digits(s, from, to)
    }
}

/// Number of `-` in `s`.
pub open spec fn dash_count(s: Seq<char>) -> nat
    decreases s.len(),
{
    if s.len() == 0 {
        0
    } else {
        dash_count(s.drop_last()) + (if s.last() == '-' {
            1nat
        } else {
            0nat
        })
    }
}

/// Position of the first `-` in `s`, or -1.
pub open spec fn first_dash(s: Seq<char>) -> int
    decreases s.len(),
{
    if s.len() == 0 {
        -1
    } else if first_dash(s.drop_last()) >= 0 {
        first_dash(s.drop_last())
    } else if s.last() == '-' {
        s.len() - 1
    } else {
        -1
    }
}

/// `min(n + 1, total)` without overflow.
pub open spec fn next_capped(n: usize, total: usize) -> usize {
    if n >= total {
        total
    } else {
        (n + 1) as usize
    }
}

/// The chapters to process: all of them without a range; `"a-b"` for
/// chapters `a` through `b`; `"n"` for chapter `n` alone. Bounds are capped
/// at `total`, and the end is exclusive.
pub open spec fn chapter_range_spec(range: Option<Seq<char>>, total: usize) -> Result<(usize, usize), RangeError> {
    match range {
        None => Ok((0, total)),
        Some(r) => if dash_count(r) > 0 {
            if dash_count(r) != 1 {
                Err(RangeError::InvalidFormat)
            } else {
                let d = first_dash(r);
                match parse_usize_spec(r.take(d)) {
                    None => Err(RangeError::InvalidStart),
                    Some(start) => match parse_usize_spec(r.skip(d + 1)) {
                        None => Err(RangeError::InvalidEnd),
                        Some(end) => Ok(
                            (if start < total { start } else { total }, next_capped(end, total)),
                        ),
                    },
                }
            }
        } else {
            match parse_usize_spec(r) {
                None => Err(RangeError::InvalidChapter),
                Some(ch) => Ok((if ch < total { ch } else { total }, next_capped(ch, total))),
            }
        },
    }
}

proof fn lemma_first_dash(s: Seq<char>)
    ensures
        -1 <= first_dash(s) < s.len(),
        first_dash(s) >= 0 ==> s[first_dash(s)] == '-' && dash_count(s.take(first_dash(s))) == 0,
        first_dash(s) < 0 ==> dash_count(s) == 0,
        first_dash(s) >= 0 ==> dash_count(s) > 0,
    decreases s.len(),
{
    if s.len() > 0 {
        lemma_first_dash(s.drop_last());
        if first_dash(s.drop_last()) >= 0 {
            let f = first_dash(s);
            assert(s.take(f) =~= s.drop_last().take(f));
        } else if s.last() == '-' {
            assert(s.take(s.len() - 1) =~= s.drop_last());
        }
    }
}

/// Reads a chapter range given on the command line.
pub fn parse_chapter_range(range: &Option<String>, total: usize) -> (r: Result<(usize, usize), RangeError>)
    ensures
        r == chapter_range_spec(
            match range {
                Some(s) => Some(s@),
                None => None,
            },
            total,
        ),
{
    let r = match range {
        None => {
            return Ok((0, total));
        },
        Some(r) => r,
    };
    let s = chars_of(r.as_str());
    let mut dashes: usize = 0;
    let mut first: usize = s.len();
    let mut i: usize = 0;
    while i < s.len()
        invariant
            i <= s@.len(),
            dashes == dash_count(s@.take(i as int)),
            dashes <= i,
            first_dash(s@.take(i as int)) < 0 ==> first == s@.len(),
            first_dash(s@.take(i as int)) >= 0 ==> first as int == first_dash(s@.take(i as int)),
        decreases s@.len() - i,
    {
        assert(s@.take(i + 1).drop_last() =~= s@.take(i as int));
        if s[i] == '-' {
            if dashes == 0 {
                first = i;
            }
            dashes = dashes + 1;
        }
        proof {
            lemma_first_dash(s@.take(i as int));
        }
        i = i + 1;
    }
    assert(s@.take(i as int) =~= s@);
    if dashes > 0 {
        if dashes != 1 {
            return Err(RangeError::InvalidFormat);
        }
        proof {
            lemma_first_dash(s@);
        }
        assert(s@.subrange(0, first as int) =~= s@.take(first as int));
        assert(s@.subrange(first + 1, s@.len() as int) =~= s@.skip(first + 1));
        let start = match parse_usize_range(&s, 0, first) {
            Some(v) => v,
            None => {
                return Err(RangeError::InvalidStart);
            },
        };
        let end = match parse_usize_range(&s, first + 1, s.len()) {
            Some(v) => v,
            None => {
                return Err(RangeError::InvalidEnd);
            },
        };
        let a = if start < total { start } else { total };
        let b = if end >= total { total } else { end + 1 };
        Ok((a, b))
    } else {
        assert(s@.subrange(0, s@.len() as int) =~= s@);
        let ch = match parse_usize_range(&s, 0, s.len()) {
            Some(v) => v,
            None => {
                return Err(RangeError::InvalidChapter);
            },
        };
        let a = if ch < total { ch } else { total };
        let b = if ch >= total { total } else { ch + 1 };
        Ok((a, b))
    }
}

/// The cover file name for image bytes, by their signature: JPEG, PNG, GIF
/// or WebP, and JPEG when none matches.
pub fn detect_cover_filename(data: &[u8]) -> (r: &'static str)
    ensures
        (data@.len() >= 3 && data@[0] == 0xff && data@[1] == 0xd8 && data@[2] == 0xff) ==> r@
            == "cover.jpg"@,
        !(data@.len() >= 3 && data@[0] == 0xff && data@[1] == 0xd8 && data@[2] == 0xff) && (
        data@.len() >= 4 && data@[0] == 0x89 && data@[1] == 0x50 && data@[2] == 0x4e && data@[3]
            == 0x47) ==> r@ == "cover.png"@,
{
    let n = data.len();
    if n >= 3 && data[0] == 0xff && data[1] == 0xd8 && data[2] == 0xff {
        "cover.jpg"
    } else if n >= 4 && data[0] == 0x89 && data[1] == 0x50 && data[2] == 0x4e && data[3] == 0x47 {
        "cover.png"
    } else if n >= 3 && data[0] == 0x47 && data[1] == 0x49 && data[2] == 0x46 {
        "cover.gif"
    } else if n > 12 && data[0] == 0x52 && data[1] == 0x49 && data[2] == 0x46 && data[3] == 0x46
        && data[8] == 0x57 && data[9] == 0x45 && data[10] == 0x42 && data[11] == 0x50 {
        "cover.webp"
    } else {
        "cover.jpg"
    }
}

} // verus!
