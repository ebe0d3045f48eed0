//! Sessions: the durable per-chunk record of one run over one book, and the
//! decisions made on it (resume discovery, cursor, progress, assembly order).
//! Reading and writing the record is left to the caller.
use vstd::prelude::*;
use crate::chars::clone_opt_string;
use crate::protocol::now_millis;

verus! {

/// A chunk of text ready for synthesis.
#[derive(Debug, Clone)]
pub struct TextChunk {
    pub chapter_id: usize,
    pub chunk_id: usize,
    pub text: String,
}

impl TextChunk {
    pub fn new(chapter_id: usize, chunk_id: usize, text: String) -> (r: Self)
        ensures
            r.chapter_id == chapter_id,
            r.chunk_id == chunk_id,
            r.text == text,
    {
        TextChunk { chapter_id, chunk_id, text }
    }
}

/// The state of one chunk of a session.
#[derive(Debug)]
pub struct ChunkStatus {
    pub chapter_id: usize,
    pub chunk_id: usize,
    /// Local path of the synthesized audio, once completed.
    pub audio_path: Option<String>,
    pub completed: bool,
    /// Error text of the last failed attempt.
    pub error: Option<String>,
}

impl Clone for ChunkStatus {
    fn clone(&self) -> (r: Self)
        ensures
            r == *self,
    {
        ChunkStatus {
            chapter_id: self.chapter_id,
            chunk_id: self.chunk_id,
            audio_path: clone_opt_string(&self.audio_path),
            completed: self.completed,
            error: clone_opt_string(&self.error),
        }
    }
}

impl ChunkStatus {
    /// A completed chunk has an audio path and no error.
    pub open spec fn wf(&self) -> bool {
        self.completed ==> (self.audio_path is Some && self.error is None)
    }

    /// A pending chunk.
    pub fn new(chapter_id: usize, chunk_id: usize) -> (r: Self)
        ensures
            r.wf(),
            r.chapter_id == chapter_id,
            r.chunk_id == chunk_id,
            r.audio_path is None,
            !r.completed,
            r.error is None,
    {
        ChunkStatus { chapter_id, chunk_id, audio_path: None, completed: false, error: None }
    }

    pub fn mark_completed(&mut self, audio_path: String)
        ensures
            final(self).wf(),
            final(self).audio_path == Some(audio_path),
            final(self).completed,
            final(self).error is None,
            final(self).chapter_id == old(self).chapter_id,
            final(self).chunk_id == old(self).chunk_id,
    {
        self.audio_path = Some(audio_path);
        self.completed = true;
        self.error = None;
    }

    /// Records an error; the chunk is incomplete afterwards and retryable.
    pub fn mark_failed(&mut self, error: String)
        ensures
            final(self).wf(),
            final(self).error == Some(error),
            !final(self).completed,
            final(self).audio_path == old(self).audio_path,
            final(self).chapter_id == old(self).chapter_id,
            final(self).chunk_id == old(self).chunk_id,
    {
        self.error = Some(error);
        self.completed = false;
    }
}

/// Number of completed chunks.
pub open spec fn count_completed(s: Seq<ChunkStatus>) -> nat
    decreases s.len(),
{
    if s.len() == 0 {
        0
    } else {
        count_completed(s.drop_last()) + (if s.last().completed {
            1nat
        } else {
            0nat
        })
    }
}

/// One more than the largest chapter number, or zero without chunks.
pub open spec fn chapter_count(s: Seq<ChunkStatus>) -> nat
    decreases s.len(),
{
    if s.len() == 0 {
        0
    } else {
        let rest = chapter_count(s.drop_last());
        let here = s.last().chapter_id as nat + 1;
        if here > rest {
            here
        } else {
            rest
        }
    }
}

/// One processing run over one book.
#[derive(Debug)]
pub struct Session {
    pub session_id: String,
    pub book_path: String,
    /// First 16 hex digits of the SHA-256 of the book's first MiB.
    pub book_hash: String,
    pub title: String,
    pub author: String,
    pub total_chapters: usize,
    pub total_chunks: usize,
    pub chunks: Vec<ChunkStatus>,
    pub current_chapter: usize,
    pub current_chunk: usize,
    /// Creation time, milliseconds since the Unix epoch.
    pub created_at_ms: i64,
    /// Time of the last change, milliseconds since the Unix epoch.
    pub updated_at_ms: i64,
    /// Whether every chunk is completed.
    pub completed: bool,
}

impl Session {
    /// A session over `chunks`, with the cursor at the start.
    pub fn new(
        session_id: String,
        book_path: String,
        book_hash: String,
        title: String,
        author: String,
        chunks: Vec<ChunkStatus>,
    ) -> (r: Self)
        requires
            forall|i: int| 0 <= i < chunks@.len() ==> (#[trigger] chunks@[i]).chapter_id < usize::MAX,
        ensures
            r.session_id == session_id,
            r.book_path == book_path,
            r.book_hash == book_hash,
            r.title == title,
            r.author == author,
            r.total_chapters == chapter_count(chunks@),
            r.total_chunks == chunks@.len(),
            r.chunks == chunks,
            r.current_chapter == 0,
            r.current_chunk == 0,
            r.created_at_ms == r.updated_at_ms,
            !r.completed,
    {
        let mut total_chapters: usize = 0;
        let mut i: usize = 0;
        while i < chunks.len()
            invariant
                i <= chunks@.len(),
                total_chapters == chapter_count(chunks@.take(i as int)),
                forall|k: int| 0 <= k < chunks@.len() ==> (#[trigger] chunks@[k]).chapter_id < usize::MAX,
            decreases chunks@.len() - i,
        {
            assert(chunks@.take(i + 1).drop_last() =~= chunks@.take(i as int));
            let here = chunks[i].chapter_id + 1;
            if here > total_chapters {
                total_chapters = here;
            }
            i = i + 1;
        }
        assert(chunks@.take(i as int) =~= chunks@);
        let total_chunks = chunks.len();
        let now_ms = now_millis();
        Session {
            session_id,
            book_path,
            book_hash,
            title,
            author,
            total_chapters,
            total_chunks,
            chunks,
            current_chapter: 0,
            current_chunk: 0,
            created_at_ms: now_ms,
            updated_at_ms: now_ms,
            completed: false,
        }
    }

    /// The number of completed chunks.
    pub fn completed_count(&self) -> (r: usize)
        ensures
            r == count_completed(self.chunks@),
    {
        let mut c: usize = 0;
        let mut i: usize = 0;
        while i < self.chunks.len()
            invariant
                i <= self.chunks@.len(),
                c == count_completed(self.chunks@.take(i as int)),
                c <= i,
            decreases self.chunks@.len() - i,
        {
            assert(self.chunks@.take(i + 1).drop_last() =~= self.chunks@.take(i as int));
            if self.chunks[i].completed {
                c = c + 1;
            }
            i = i + 1;
        }
        assert(self.chunks@.take(i as int) =~= self.chunks@);
        c
    }
}

/// Position of the first incomplete chunk, or -1.
pub open spec fn first_incomplete(s: Seq<ChunkStatus>) -> int
    decreases s.len(),
{
    if s.len() == 0 {
        -1
    } else if first_incomplete(s.drop_last()) >= 0 {
        first_incomplete(s.drop_last())
    } else if !s.last().completed {
        s.len() - 1
    } else {
        -1
    }
}

pub proof fn lemma_first_incomplete(s: Seq<ChunkStatus>)
    ensures
        -1 <= first_incomplete(s) < s.len(),
        first_incomplete(s) >= 0 ==> !s[first_incomplete(s)].completed,
        forall|k: int| 0 <= k < s.len() && (k < first_incomplete(s) || first_incomplete(s) < 0)
            ==> (#[trigger] s[k]).completed,
    decreases s.len(),
{
    if s.len() > 0 {
        let t = s.drop_last();
        lemma_first_incomplete(t);
        assert forall|k: int|
            0 <= k < s.len() && (k < first_incomplete(s) || first_incomplete(s) < 0) implies (
            #[trigger] s[k]).completed by {
            if k < s.len() - 1 {
                assert(s[k] == t[k]);
            }
        }
    }
}

/// `(chapter, chunk)` of the first incomplete chunk.
pub fn get_next_chunk(session: &Session) -> (r: Option<(usize, usize)>)
    ensures
        first_incomplete(session.chunks@) < 0 ==> r is None,
        first_incomplete(session.chunks@) >= 0 ==> r == Some(
            (
                session.chunks@[first_incomplete(session.chunks@)].chapter_id,
                session.chunks@[first_incomplete(session.chunks@)].chunk_id,
            ),
        ),
{
    proof {
        lemma_first_incomplete(session.chunks@);
    }
    let mut i: usize = 0;
    while i < session.chunks.len()
        invariant
            i <= session.chunks@.len(),
            forall|k: int| 0 <= k < i ==> (#[trigger] session.chunks@[k]).completed,
        decreases session.chunks@.len() - i,
    {
        if !session.chunks[i].completed {
            proof {
                lemma_first_incomplete(session.chunks@);
                let f = first_incomplete(session.chunks@);
                if f < 0 || f > i {
                    assert(session.chunks@[i as int].completed);
                } else if f < i {
                    assert(session.chunks@[f].completed);
                }
            }
            return Some((session.chunks[i].chapter_id, session.chunks[i].chunk_id));
        }
        i = i + 1;
    }
    proof {
        lemma_first_incomplete(session.chunks@);
        let f = first_incomplete(session.chunks@);
        if f >= 0 {
            assert(session.chunks@[f].completed);
        }
    }
    None
}

/// Position of the first chunk `(chapter_id, chunk_id)`, or -1.
pub open spec fn find_chunk(s: Seq<ChunkStatus>, chapter_id: usize, chunk_id: usize) -> int
    decreases s.len(),
{
    if s.len() == 0 {
        -1
    } else if find_chunk(s.drop_last(), chapter_id, chunk_id) >= 0 {
        find_chunk(s.drop_last(), chapter_id, chunk_id)
    } else if s.last().chapter_id == chapter_id && s.last().chunk_id == chunk_id {
        s.len() - 1
    } else {
        -1
    }
}

proof fn lemma_find_chunk(s: Seq<ChunkStatus>, chapter_id: usize, chunk_id: usize)
    ensures
        -1 <= find_chunk(s, chapter_id, chunk_id) < s.len(),
        find_chunk(s, chapter_id, chunk_id) >= 0 ==> s[find_chunk(s, chapter_id, chunk_id)].chapter_id
            == chapter_id && s[find_chunk(s, chapter_id, chunk_id)].chunk_id == chunk_id,
        forall|k: int|
            0 <= k < s.len() && (k < find_chunk(s, chapter_id, chunk_id) || find_chunk(
                s,
                chapter_id,
                chunk_id,
            ) < 0) ==> !((#[trigger] s[k]).chapter_id == chapter_id && s[k].chunk_id == chunk_id),
    decreases s.len(),
{
    if s.len() > 0 {
        let t = s.drop_last();
        lemma_find_chunk(t, chapter_id, chunk_id);
        assert forall|k: int|
            0 <= k < s.len() && (k < find_chunk(s, chapter_id, chunk_id) || find_chunk(
                s,
                chapter_id,
                chunk_id,
            ) < 0) implies !((#[trigger] s[k]).chapter_id == chapter_id && s[k].chunk_id
            == chunk_id) by {
            if k < s.len() - 1 {
                assert(s[k] == t[k]);
            }
        }
    }
}

/// Position of chunk `(chapter_id, chunk_id)` in the session.
fn position_of_chunk(chunks: &Vec<ChunkStatus>, chapter_id: usize, chunk_id: usize) -> (r: Option<
    usize,
>)
    ensures
        r matches Some(k) ==> k as int == find_chunk(chunks@, chapter_id, chunk_id),
        r is None ==> find_chunk(chunks@, chapter_id, chunk_id) < 0,
{
    let mut i: usize = 0;
    while i < chunks.len()
        invariant
            i <= chunks@.len(),
            forall|k: int|
                0 <= k < i ==> !((#[trigger] chunks@[k]).chapter_id == chapter_id
                    && chunks@[k].chunk_id == chunk_id),
        decreases chunks@.len() - i,
    {
        if chunks[i].chapter_id == chapter_id && chunks[i].chunk_id == chunk_id {
            proof {
                lemma_find_chunk(chunks@, chapter_id, chunk_id);
                let f = find_chunk(chunks@, chapter_id, chunk_id);
                if f < 0 || f > i {
                    assert(!(chunks@[i as int].chapter_id == chapter_id && chunks@[i as int].chunk_id
                        == chunk_id));
                } else if f < i {
                    assert(!(chunks@[f].chapter_id == chapter_id && chunks@[f].chunk_id == chunk_id));
                }
            }
            return Some(i);
        }
        i = i + 1;
    }
    proof {
        lemma_find_chunk(chunks@, chapter_id, chunk_id);
        let f = find_chunk(chunks@, chapter_id, chunk_id);
        if f >= 0 {
            assert(!(chunks@[f].chapter_id == chapter_id && chunks@[f].chunk_id == chunk_id));
        }
    }
    None
}

/// The chunks after a completion: the chunk, where present, marked completed.
pub open spec fn chunks_after_completion(
    s: Seq<ChunkStatus>,
    chapter_id: usize,
    chunk_id: usize,
    audio_path: String,
) -> Seq<ChunkStatus> {
    let k = find_chunk(s, chapter_id, chunk_id);
    if k < 0 {
        s
    } else {
        s.update(
            k,
            ChunkStatus {
                chapter_id: s[k].chapter_id,
                chunk_id: s[k].chunk_id,
                audio_path: Some(audio_path),
                completed: true,
                error: None,
            },
        )
    }
}

/// Marks chunk `(chapter_id, chunk_id)` completed with its audio file, then
/// moves the cursor to the first incomplete chunk; when none is left, the
/// session is marked completed and the cursor rests on the last chunk. The
/// change time is set to now. The caller persists the session.
pub fn mark_chunk_complete(
    session: &mut Session,
    chapter_id: usize,
    chunk_id: usize,
    audio_path: &str,
)
    ensures
        exists|p: String|
            p@ == audio_path@ && final(session).chunks@ == chunks_after_completion(
                old(session).chunks@,
                chapter_id,
                chunk_id,
                p,
            ),
        ({
            let f = first_incomplete(final(session).chunks@);
            if f >= 0 {
                &&& final(session).current_chapter == final(session).chunks@[f].chapter_id
                &&& final(session).current_chunk == final(session).chunks@[f].chunk_id
                &&& final(session).completed == old(session).completed
            } else {
                &&& final(session).completed
                &&& final(session).chunks@.len() > 0 ==> final(session).current_chapter
                    == final(session).chunks@.last().chapter_id && final(session).current_chunk
                    == final(session).chunks@.last().chunk_id
                &&& final(session).chunks@.len() == 0 ==> final(session).current_chapter == old(
                    session,
                ).current_chapter && final(session).current_chunk == old(session).current_chunk
            }
        }),
        final(session).session_id == old(session).session_id,
        final(session).book_hash == old(session).book_hash,
        final(session).total_chunks == old(session).total_chunks,
{
    let path = audio_path.to_owned();
    let ghost p = path;
    let ghost old_chunks = session.chunks@;
    proof {
        lemma_find_chunk(session.chunks@, chapter_id, chunk_id);
    }
    match position_of_chunk(&session.chunks, chapter_id, chunk_id) {
        Some(k) => {
            let mut c = session.chunks.remove(k);
            c.mark_completed(path);
            session.chunks.insert(k, c);
        },
        None => {},
    }
    assert(session.chunks@ =~= chunks_after_completion(old_chunks, chapter_id, chunk_id, p));
    match get_next_chunk(session) {
        Some((ch, ck)) => {
            session.current_chapter = ch;
            session.current_chunk = ck;
        },
        None => {
            session.completed = true;
            let n = session.chunks.len();
            if n > 0 {
                session.current_chapter = session.chunks[n - 1].chapter_id;
                session.current_chunk = session.chunks[n - 1].chunk_id;
            }
        },
    }
    session.updated_at_ms = now_millis();
}

/// Records an error on chunk `(chapter_id, chunk_id)`, which is incomplete
/// afterwards and will be synthesized again. The change time is set to now.
pub fn mark_chunk_error(session: &mut Session, chapter_id: usize, chunk_id: usize, error: &str)
    ensures
        ({
            let k = find_chunk(old(session).chunks@, chapter_id, chunk_id);
            if k < 0 {
                final(session).chunks@ == old(session).chunks@
            } else {
                let c = old(session).chunks@[k];
                &&& final(session).chunks@.len() == old(session).chunks@.len()
                &&& forall|j: int|
                    0 <= j < old(session).chunks@.len() && j != k ==> final(session).chunks@[j]
                        == #[trigger] old(session).chunks@[j]
                &&& final(session).chunks@[k].error matches Some(e) && e@ == error@
                &&& !final(session).chunks@[k].completed
                &&& final(session).chunks@[k].audio_path == c.audio_path
                &&& final(session).chunks@[k].chapter_id == c.chapter_id
                &&& final(session).chunks@[k].chunk_id == c.chunk_id
            }
        }),
        final(session).completed == old(session).completed,
        final(session).current_chapter == old(session).current_chapter,
        final(session).current_chunk == old(session).current_chunk,
        final(session).session_id == old(session).session_id,
{
    proof {
        lemma_find_chunk(session.chunks@, chapter_id, chunk_id);
    }
    match position_of_chunk(&session.chunks, chapter_id, chunk_id) {
        Some(k) => {
            let mut c = session.chunks.remove(k);
            c.mark_failed(error.to_owned());
            session.chunks.insert(k, c);
        },
        None => {},
    }
    session.updated_at_ms = now_millis();
}

/// `(completed, total, percent)`, the percentage rounded down; zero percent
/// when the session has no chunks.
pub fn get_progress(session: &Session) -> (r: (usize, usize, usize))
    requires
        count_completed(session.chunks@) * 100 <= usize::MAX,
    ensures
        r.0 == count_completed(session.chunks@),
        r.1 == session.total_chunks,
        r.2 == if session.total_chunks > 0 {
            (count_completed(session.chunks@) * 100 / session.total_chunks as nat) as usize
        } else {
            0
        },
{
    let completed = session.completed_count();
    let total = session.total_chunks;
    let percent = if total > 0 {
        completed * 100 / total
    } else {
        0
    };
    (completed, total, percent)
}

} // verus!
