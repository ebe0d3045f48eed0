//! Preparing a run: the paragraphs of a plain text, and the chunks of a
//! session that still need synthesis.
use vstd::prelude::*;
use crate::chars::chars_of;
use crate::chunker::{non_empty, split_str, string_views};
use crate::cleaner::{trim_end, trim_pass, trim_start};
use crate::session::{ChunkStatus, Session, TextChunk};

verus! {

/// The blank-line separated paragraphs of `s`, trimmed, without empty ones.
pub open spec fn paragraphs_spec(s: Seq<char>) -> Seq<Seq<char>> {
    non_empty(split_str(s, seq!['\n', '\n']).map_values(|p: Seq<char>| trim_end(trim_start(p))))
}

/// The paragraphs of a text: pieces between blank lines, trimmed, without
/// empty ones.
pub fn paragraphs(text: &str) -> (r: Vec<String>)
    ensures
        string_views(r@) == paragraphs_spec(text@),
{
    let ghost s = text@;
    let sep = "\n\n";
    proof {
        reveal_strlit("\n\n");
    }
    let pieces = crate::chunker::split_text(text, sep);
    assert(sep@ =~= seq!['\n', '\n']);
    let mut r: Vec<String> = Vec::new();
    let mut i: usize = 0;
    let ghost trimmed = string_views(pieces@).map_values(|p: Seq<char>| trim_end(trim_start(p)));
    while i < pieces.len()
        invariant
            i <= pieces@.len(),
            string_views(pieces@) == split_str(s, seq!['\n', '\n']),
            trimmed == string_views(pieces@).map_values(|p: Seq<char>| trim_end(trim_start(p))),
            string_views(r@) == non_empty(trimmed.take(i as int)),
        decreases pieces@.len() - i,
    {
        let cs = chars_of(pieces[i].as_str());
        let t = trim_pass(&cs);
        assert(trimmed.take(i + 1).drop_last() =~= trimmed.take(i as int));
        assert(trimmed.take(i + 1).last() == t@);
        if t.len() > 0 {
            let ghost before = r@;
            let ts = crate::chars::string_of(&t);
            let ghost tv = ts@;
            r.push(ts);
            assert(string_views(r@) =~= string_views(before).push(tv));
        }
        i = i + 1;
    }
    assert(trimmed.take(i as int) =~= trimmed);
    r
}

/// For each incomplete chunk of the session, in order, its text: the first
/// text chunk of the same chapter and number; chunks without text, or whose
/// text is empty, are skipped.
pub open spec fn pending_spec(cs: Seq<ChunkStatus>, ts: Seq<TextChunk>) -> Seq<(usize, usize, Seq<char>)>
    decreases cs.len(),
{
    if cs.len() == 0 {
        Seq::empty()
    } else {
        let c = cs.last();
        let rest = pending_spec(cs.drop_last(), ts);
        let k = text_position(ts, c.chapter_id, c.chunk_id);
        if !c.completed && k >= 0 && ts[k].text@.len() > 0 {
            rest.push((c.chapter_id, c.chunk_id, ts[k].text@))
        } else {
            rest
        }
    }
}

/// Position of the first text chunk `(chapter_id, chunk_id)`, or -1.
pub open spec fn text_position(ts: Seq<TextChunk>, chapter_id: usize, chunk_id: usize) -> int
    decreases ts.len(),
{
    if ts.len() == 0 {
        -1
    } else if text_position(ts.drop_last(), chapter_id, chunk_id) >= 0 {
        text_position(ts.drop_last(), chapter_id, chunk_id)
    } else if ts.last().chapter_id == chapter_id && ts.last().chunk_id == chunk_id {
        ts.len() - 1
    } else {
        -1
    }
}

proof fn lemma_text_position(ts: Seq<TextChunk>, chapter_id: usize, chunk_id: usize)
    ensures
        -1 <= text_position(ts, chapter_id, chunk_id) < ts.len(),
        text_position(ts, chapter_id, chunk_id) >= 0 ==> ts[text_position(ts, chapter_id, chunk_id)].chapter_id
            == chapter_id && ts[text_position(ts, chapter_id, chunk_id)].chunk_id == chunk_id,
        forall|k: int|
            0 <= k < ts.len() && (k < text_position(ts, chapter_id, chunk_id) || text_position(
                ts,
                chapter_id,
                chunk_id,
            ) < 0) ==> !((#[trigger] ts[k]).chapter_id == chapter_id && ts[k].chunk_id == chunk_id),
    decreases ts.len(),
{
    if ts.len() > 0 {
        let t = ts.drop_last();
        lemma_text_position(t, chapter_id, chunk_id);
        assert forall|k: int|
            0 <= k < ts.len() && (k < text_position(ts, chapter_id, chunk_id) || text_position(
                ts,
                chapter_id,
                chunk_id,
            ) < 0) implies !((#[trigger] ts[k]).chapter_id == chapter_id && ts[k].chunk_id
            == chunk_id) by {
            if k < ts.len() - 1 {
                assert(ts[k] == t[k]);
            }
        }
    }
}

fn find_text(ts: &Vec<TextChunk>, chapter_id: usize, chunk_id: usize) -> (r: Option<usize>)
    ensures
        r matches Some(k) ==> k as int == text_position(ts@, chapter_id, chunk_id) && k < ts@.len(),
        r is None ==> text_position(ts@, chapter_id, chunk_id) < 0,
{
    proof {
        lemma_text_position(ts@, chapter_id, chunk_id);
    }
    let mut i: usize = 0;
    while i < ts.len()
        invariant
            i <= ts@.len(),
            forall|k: int|
                0 <= k < i ==> !((#[trigger] ts@[k]).chapter_id == chapter_id && ts@[k].chunk_id
                    == chunk_id),
        decreases ts@.len() - i,
    {
        if ts[i].chapter_id == chapter_id && ts[i].chunk_id == chunk_id {
            proof {
                lemma_text_position(ts@, chapter_id, chunk_id);
                let f = text_position(ts@, chapter_id, chunk_id);
                if f < 0 || f > i {
                    assert(!(ts@[i as int].chapter_id == chapter_id && ts@[i as int].chunk_id
                        == chunk_id));
                } else if f < i {
                    assert(!(ts@[f].chapter_id == chapter_id && ts@[f].chunk_id == chunk_id));
                }
            }
            return Some(i);
        }
        i = i + 1;
    }
    proof {
        lemma_text_position(ts@, chapter_id, chunk_id);
        let f = text_position(ts@, chapter_id, chunk_id);
        if f >= 0 {
            assert(!(ts@[f].chapter_id == chapter_id && ts@[f].chunk_id == chunk_id));
        }
    }
    None
}

/// The views of `(chapter, chunk, text)` triples.
pub open spec fn triple_views(v: Seq<(usize, usize, String)>) -> Seq<(usize, usize, Seq<char>)> {
    v.map_values(|t: (usize, usize, String)| (t.0, t.1, t.2@))
}

/// The `(chapter, chunk, text)` triples still to synthesize for a session.
pub fn pending_chunks(session: &Session, chunks: &Vec<TextChunk>) -> (r: Vec<(usize, usize, String)>)
    ensures
        triple_views(r@) == pending_spec(session.chunks@, chunks@),
{
    let mut r: Vec<(usize, usize, String)> = Vec::new();
    let mut i: usize = 0;
    while i < session.chunks.len()
        invariant
            i <= session.chunks@.len(),
            triple_views(r@) == pending_spec(session.chunks@.take(i as int), chunks@),
        decreases session.chunks@.len() - i,
    {
        assert(session.chunks@.take(i + 1).drop_last() =~= session.chunks@.take(i as int));
        let c = &session.chunks[i];
        if !c.completed {
            match find_text(chunks, c.chapter_id, c.chunk_id) {
                Some(k) => {
                    if chars_of(chunks[k].text.as_str()).len() > 0 {
                        let ghost before = r@;
                        let text = chunks[k].text.clone();
                        let ghost tv = text@;
                        r.push((c.chapter_id, c.chunk_id, text));
                        assert(triple_views(r@) =~= triple_views(before).push(
                            (c.chapter_id, c.chunk_id, tv),
                        ));
                    }
                },
                None => {},
            }
        }
        i = i + 1;
    }
    assert(session.chunks@.take(i as int) =~= session.chunks@);
    r
}

} // verus!
