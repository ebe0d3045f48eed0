//! Chapter markers of the assembled audiobook, in FFmpeg's metadata format.
use vstd::prelude::*;
use crate::chars::{chars_of, dec, dec_padded, push_all, string_of};

verus! {

/// A chapter marker: its title and its span in milliseconds.
#[derive(Debug, Clone)]
pub struct ChapterInfo {
    pub title: String,
    pub start_ms: u64,
    pub end_ms: u64,
}

impl ChapterInfo {
    pub fn new(title: &str, start_ms: u64, end_ms: u64) -> (r: Self)
        ensures
            r.title@ == title@,
            r.start_ms == start_ms,
            r.end_ms == end_ms,
    {
        ChapterInfo { title: title.to_owned(), start_ms, end_ms }
    }
}

/// A metadata value with `=`, `;`, `#` and `\` escaped by a backslash,
/// newlines written as `\n`, and carriage returns dropped.
pub open spec fn escape_spec(s: Seq<char>) -> Seq<char>
    decreases s.len(),
{
    if s.len() == 0 {
        Seq::empty()
    } else {
        let c = s.last();
        escape_spec(s.drop_last()) + if c == '=' || c == ';' || c == '#' || c == '\\' {
            seq!['\\', c]
        } else if c == '\n' {
            seq!['\\', 'n']
        } else if c == '\r' {
            Seq::empty()
        } else {
            seq![c]
        }
    }
}

/// Escapes a value for FFmpeg's metadata format.
pub fn escape_metadata_value(value: &str) -> (r: String)
    ensures
        r@ == escape_spec(value@),
{
    let cs = chars_of(value);
    let mut out: Vec<char> = Vec::new();
    let mut i: usize = 0;
    while i < cs.len()
        invariant
            i <= cs@.len(),
            out@ == escape_spec(cs@.take(i as int)),
        decreases cs@.len() - i,
    {
        let c = cs[i];
        assert(cs@.take(i + 1).drop_last() =~= cs@.take(i as int));
        assert(cs@.take(i + 1).last() == c);
        let ghost before = out@;
        if c == '=' || c == ';' || c == '#' || c == '\\' {
            out.push('\\');
            out.push(c);
            assert(out@ =~= before + seq!['\\', c]);
        } else if c == '\n' {
            out.push('\\');
            out.push('n');
            assert(out@ =~= before + seq!['\\', 'n']);
        } else if c == '\r' {
            assert(out@ =~= before + Seq::<char>::empty());
        } else {
            out.push(c);
            assert(out@ =~= before + seq![c]);
        }
        i = i + 1;
    }
    assert(cs@.take(i as int) =~= cs@);
    string_of(&out)
}

/// Sum of the first `n` durations.
pub open spec fn prefix_sum(d: Seq<u64>, n: int) -> nat
    decreases n,
{
    if n <= 0 {
        0
    } else {
        prefix_sum(d, n - 1) + d[n - 1] as nat
    }
}

proof fn lemma_prefix_sum_monotone(d: Seq<u64>, a: int, b: int)
    requires
        0 <= a <= b,
    ensures
        prefix_sum(d, a) <= prefix_sum(d, b),
    decreases b - a,
{
    if a < b {
        lemma_prefix_sum_monotone(d, a, b - 1);
    }
}

fn sum_first(d: &Vec<u64>, n: usize) -> (r: u64)
    requires
        n <= d@.len(),
        prefix_sum(d@, d@.len() as int) <= u64::MAX,
    ensures
        r == prefix_sum(d@, n as int),
{
    let mut s: u64 = 0;
    let mut i: usize = 0;
    while i < n
        invariant
            i <= n <= d@.len(),
            s == prefix_sum(d@, i as int),
            prefix_sum(d@, d@.len() as int) <= u64::MAX,
        decreases n - i,
    {
        proof {
            lemma_prefix_sum_monotone(d@, i + 1, d@.len() as int);
        }
        s = s + d[i];
        i = i + 1;
    }
    s
}

/// The end chunk of chapter `i`: the first chunk of the next chapter, or
/// the number of chunks for the last chapter.
pub open spec fn chapter_end(b: Seq<(String, usize)>, n_chunks: nat, i: int) -> nat {
    if i + 1 < b.len() {
        b[i + 1].1 as nat
    } else {
        n_chunks
    }
}

/// Chapter markers from chunk durations and `(title, first chunk)` boundaries.
pub fn build_chapter_info(
    chunk_durations_ms: &Vec<u64>,
    chapter_boundaries: &Vec<(String, usize)>,
) -> (r: Vec<ChapterInfo>)
    requires
        prefix_sum(chunk_durations_ms@, chunk_durations_ms@.len() as int) <= u64::MAX,
        forall|i: int|
            0 <= i < chapter_boundaries@.len() ==> (#[trigger] chapter_boundaries@[i]).1
                <= chunk_durations_ms@.len(),
    ensures
        r@.len() == chapter_boundaries@.len(),
        forall|i: int|
            0 <= i < r@.len() ==> {
                let c = #[trigger] r@[i];
                &&& c.title@ == chapter_boundaries@[i].0@
                &&& c.start_ms == prefix_sum(chunk_durations_ms@, chapter_boundaries@[i].1 as int)
                &&& c.end_ms == prefix_sum(
                    chunk_durations_ms@,
                    chapter_end(chapter_boundaries@, chunk_durations_ms@.len(), i) as int,
                )
            },
{
    let mut r: Vec<ChapterInfo> = Vec::new();
    let mut i: usize = 0;
    while i < chapter_boundaries.len()
        invariant
            i <= chapter_boundaries@.len(),
            r@.len() == i,
            prefix_sum(chunk_durations_ms@, chunk_durations_ms@.len() as int) <= u64::MAX,
            forall|k: int|
                0 <= k < chapter_boundaries@.len() ==> (#[trigger] chapter_boundaries@[k]).1
                    <= chunk_durations_ms@.len(),
            forall|k: int|
                0 <= k < i ==> {
                    let c = #[trigger] r@[k];
                    &&& c.title@ == chapter_boundaries@[k].0@
                    &&& c.start_ms == prefix_sum(
                        chunk_durations_ms@,
                        chapter_boundaries@[k].1 as int,
                    )
                    &&& c.end_ms == prefix_sum(
                        chunk_durations_ms@,
                        chapter_end(chapter_boundaries@, chunk_durations_ms@.len(), k) as int,
                    )
                },
        decreases chapter_boundaries@.len() - i,
    {
        let end_chunk = if i + 1 < chapter_boundaries.len() {
            chapter_boundaries[i + 1].1
        } else {
            chunk_durations_ms.len()
        };
        let start_ms = sum_first(chunk_durations_ms, chapter_boundaries[i].1);
        let end_ms = sum_first(chunk_durations_ms, end_chunk);
        r.push(ChapterInfo { title: chapter_boundaries[i].0.clone(), start_ms, end_ms });
        i = i + 1;
    }
    r
}

fn push_number(s: &mut String, n: u64)
    ensures
        final(s)@ == old(s)@ + dec(n as nat),
{
    let d = dec_padded(n, 0);
    let t = string_of(&d);
    push_all(s, t.as_str());
}

/// The lines of one chapter marker.
pub open spec fn chapter_block(c: ChapterInfo) -> Seq<char> {
    "[CHAPTER]\nTIMEBASE=1/1000\nSTART="@ + dec(c.start_ms as nat) + "\nEND="@ + dec(
        c.end_ms as nat,
    ) + "\ntitle="@ + escape_spec(c.title@) + "\n\n"@
}

pub open spec fn chapter_blocks(cs: Seq<ChapterInfo>) -> Seq<char>
    decreases cs.len(),
{
    if cs.len() == 0 {
        Seq::empty()
    } else {
        chapter_blocks(cs.drop_last()) + chapter_block(cs.last())
    }
}

/// The whole metadata document: header, book tags, then one block per chapter.
pub open spec fn metadata_spec(title: Seq<char>, author: Seq<char>, cs: Seq<ChapterInfo>) -> Seq<char> {
    ";FFMETADATA1\ntitle="@ + escape_spec(title) + "\nartist="@ + escape_spec(author)
        + "\nalbum="@ + escape_spec(title) + "\ngenre=Audiobook\n\n"@ + chapter_blocks(cs)
}

/// The FFmpeg metadata document for a book and its chapter markers; the
/// caller writes it to a file.
pub fn ffmpeg_metadata(title: &str, author: &str, chapters: &Vec<ChapterInfo>) -> (r: String)
    ensures
        r@ == metadata_spec(title@, author@, chapters@),
{
    let mut r = ";FFMETADATA1\ntitle=".to_owned();
    push_all(&mut r, escape_metadata_value(title).as_str());
    push_all(&mut r, "\nartist=");
    push_all(&mut r, escape_metadata_value(author).as_str());
    push_all(&mut r, "\nalbum=");
    push_all(&mut r, escape_metadata_value(title).as_str());
    push_all(&mut r, "\ngenre=Audiobook\n\n");
    let ghost head = r@;
    let mut i: usize = 0;
    while i < chapters.len()
        invariant
            i <= chapters@.len(),
            r@ == head + chapter_blocks(chapters@.take(i as int)),
        decreases chapters@.len() - i,
    {
        let c = &chapters[i];
        let ghost before = r@;
        push_all(&mut r, "[CHAPTER]\nTIMEBASE=1/1000\nSTART=");
        push_number(&mut r, c.start_ms);
        push_all(&mut r, "\nEND=");
        push_number(&mut r, c.end_ms);
        push_all(&mut r, "\ntitle=");
        push_all(&mut r, escape_metadata_value(c.title.as_str()).as_str());
        push_all(&mut r, "\n\n");
        assert(chapters@.take(i + 1).drop_last() =~= chapters@.take(i as int));
        assert(r@ =~= before + chapter_block(chapters@[i as int]));
        i = i + 1;
    }
    assert(chapters@.take(i as int) =~= chapters@);
    r
}

} // verus!
