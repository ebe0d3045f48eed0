//! From chapters to numbered chunks: the text read for a chapter, and the
//! chunks of a range of chapters.
use vstd::prelude::*;
use crate::book::Chapter;
use crate::chars::push_all;
use crate::chunker::{DEFAULT_TARGET_SIZE, chunk_spec, process_chapter, string_views};
use crate::session::TextChunk;

verus! {

/// A chapter's text as read aloud: `"<title>. <content>"`, or the content
/// alone for an untitled chapter.
pub open spec fn chapter_text_spec(c: Chapter) -> Seq<char> {
    match c.title {
        Some(t) => t@ + seq!['.', ' '] + c.content@,
        None => c.content@,
    }
}

pub fn chapter_text(chapter: &Chapter) -> (r: String)
    ensures
        r@ == chapter_text_spec(*chapter),
{
    match &chapter.title {
        Some(t) => {
            let mut r = t.clone();
            r.push('.');
            r.push(' ');
            push_all(&mut r, chapter.content.as_str());
            r
        },
        None => chapter.content.clone(),
    }
}

/// The chunks of consecutive chapters, numbered from `start_chapter`, given
/// the detected sentences of each chapter's text.
pub open spec fn book_chunks_spec(start: nat, ss: Seq<Seq<String>>) -> Seq<(nat, nat, Seq<char>)>
    decreases ss.len(),
{
    if ss.len() == 0 {
        Seq::empty()
    } else {
        let ch = start + ss.len() - 1;
        let cs = chunk_spec(
            string_views(ss.last()),
            DEFAULT_TARGET_SIZE as nat,
            (DEFAULT_TARGET_SIZE + 70) as nat,
        );
        book_chunks_spec(start, ss.drop_last()) + Seq::new(
            cs.len(),
            |i: int| (ch as nat, i as nat, cs[i]),
        )
    }
}

/// What a chunk stands for: chapter, chunk number and text.
pub open spec fn chunk_triples(v: Seq<TextChunk>) -> Seq<(nat, nat, Seq<char>)> {
    v.map_values(|c: TextChunk| (c.chapter_id as nat, c.chunk_id as nat, c.text@))
}

/// Chunks chapters `start_chapter`, `start_chapter + 1`, ... from their
/// detected sentences, at the default target size.
pub fn process_book_chapters(start_chapter: usize, chapter_sentences: &Vec<Vec<String>>) -> (r: Vec<TextChunk>)
    requires
        start_chapter + chapter_sentences@.len() <= usize::MAX,
    ensures
        chunk_triples(r@) == book_chunks_spec(
            start_chapter as nat,
            chapter_sentences@.map_values(|v: Vec<String>| v@),
        ),
{
    let ghost all = chapter_sentences@.map_values(|v: Vec<String>| v@);
    let mut out: Vec<TextChunk> = Vec::new();
    let mut i: usize = 0;
    while i < chapter_sentences.len()
        invariant
            i <= chapter_sentences@.len(),
            start_chapter + chapter_sentences@.len() <= usize::MAX,
            all == chapter_sentences@.map_values(|v: Vec<String>| v@),
            chunk_triples(out@) == book_chunks_spec(start_chapter as nat, all.take(i as int)),
        decreases chapter_sentences@.len() - i,
    {
        let chapter_id = start_chapter + i;
        let chunks = process_chapter(chapter_id, &chapter_sentences[i], DEFAULT_TARGET_SIZE);
        let ghost before = out@;
        let ghost cs = chunk_spec(
            string_views(chapter_sentences@[i as int]@),
            DEFAULT_TARGET_SIZE as nat,
            (DEFAULT_TARGET_SIZE + 70) as nat,
        );
        let mut k: usize = 0;
        while k < chunks.len()
            invariant
                k <= chunks@.len(),
                chunks@.len() == cs.len(),
                forall|j: int|
                    0 <= j < chunks@.len() ==> {
                        let c = #[trigger] chunks@[j];
                        &&& c.chapter_id == chapter_id
                        &&& c.chunk_id == j
                        &&& c.text@ == cs[j]
                    },
                chunk_triples(out@) == chunk_triples(before) + Seq::new(
                    k as nat,
                    |j: int| (chapter_id as nat, j as nat, cs[j]),
                ),
            decreases chunks@.len() - k,
        {
            let c = &chunks[k];
            let ghost o0 = out@;
            out.push(TextChunk { chapter_id: c.chapter_id, chunk_id: c.chunk_id, text: c.text.clone() });
            assert(chunk_triples(out@) =~= chunk_triples(o0).push(
                (chapter_id as nat, k as nat, cs[k as int]),
            ));
            k = k + 1;
            assert(chunk_triples(out@) =~= chunk_triples(before) + Seq::new(
                k as nat,
                |j: int| (chapter_id as nat, j as nat, cs[j]),
            ));
        }
        proof {
            let t = all.take(i + 1);
            assert(t.drop_last() =~= all.take(i as int));
            assert(t.last() == chapter_sentences@[i as int]@);
            assert(start_chapter + t.len() - 1 == chapter_id);
        }
        i = i + 1;
    }
    assert(all.take(i as int) =~= all);
    out
}

} // verus!
