//! Session identity and the queries of the session store: the book hash,
//! resume discovery, and the assembly order of a chapter's audio files.
use vstd::prelude::*;
use crate::chars::{hex_of, hex_prefix, push_all, str_eq};
use crate::session::{ChunkStatus, Session, TextChunk};

verus! {

/// The SHA-256 digest of a byte sequence.
pub uninterp spec fn sha256_of(data: Seq<u8>) -> Seq<u8>;

/// Relies on `sha2::Sha256::digest`: the SHA-256 digest of the bytes, 32 bytes long.
#[verifier::external_body]
fn sha256(data: &Vec<u8>) -> (r: Vec<u8>)
    ensures
        r@ == sha256_of(data@),
        r@.len() == 32,
{
    <sha2::Sha256 as sha2::Digest>::digest(data.as_slice()).to_vec()
}

/// How much of a book is hashed to recognise it: its first MiB.
pub const BOOK_HASH_PREFIX: usize = 1048576;

/// The first 16 hex digits of the SHA-256 of the first MiB of `data`.
pub open spec fn book_hash_spec(data: Seq<u8>) -> Seq<char> {
    let n = if data.len() < BOOK_HASH_PREFIX {
        data.len() as int
    } else {
        BOOK_HASH_PREFIX as int
    };
    hex_of(sha256_of(data.take(n)).take(8))
}

/// The first 16 hex digits of the SHA-256 of all of `data`.
pub open spec fn file_hash_spec(data: Seq<u8>) -> Seq<char> {
    hex_of(sha256_of(data).take(8))
}

/// The hash that identifies a book: over its first MiB only, so that large
/// files are recognised quickly.
pub fn compute_book_hash(data: &Vec<u8>) -> (r: String)
    ensures
        r@ == book_hash_spec(data@),
{
    let n = if data.len() < BOOK_HASH_PREFIX {
        data.len()
    } else {
        BOOK_HASH_PREFIX
    };
    let mut head: Vec<u8> = Vec::new();
    let mut i: usize = 0;
    while i < n
        invariant
            i <= n <= data@.len(),
            head@ == data@.take(i as int),
        decreases n - i,
    {
        head.push(data[i]);
        i = i + 1;
        assert(head@ =~= data@.take(i as int));
    }
    let digest = sha256(&head);
    hex_prefix(&digest, 8)
}

/// The hash that names a voice asset: over the whole file.
pub fn compute_file_hash(data: &Vec<u8>) -> (r: String)
    ensures
        r@ == file_hash_spec(data@),
{
    let digest = sha256(data);
    hex_prefix(&digest, 8)
}

/// `"<book_hash>_<timestamp>"`.
pub fn session_id_for(book_hash: &str, timestamp: &str) -> (r: String)
    ensures
        r@ == book_hash@ + seq!['_'] + timestamp@,
{
    let mut r = book_hash.to_owned();
    r.push('_');
    push_all(&mut r, timestamp);
    r
}

/// A new session over the chunks of a book: one pending status per chunk,
/// in order, and an identifier made of the hash and a timestamp.
pub fn create_session(
    book_path: &str,
    book_hash: &str,
    timestamp: &str,
    title: &str,
    author: &str,
    chunks: &Vec<TextChunk>,
) -> (r: Session)
    requires
        forall|i: int| 0 <= i < chunks@.len() ==> (#[trigger] chunks@[i]).chapter_id < usize::MAX,
    ensures
        r.session_id@ == book_hash@ + seq!['_'] + timestamp@,
        r.book_path@ == book_path@,
        r.book_hash@ == book_hash@,
        r.title@ == title@,
        r.author@ == author@,
        r.chunks@.len() == chunks@.len(),
        r.total_chunks == chunks@.len(),
        forall|i: int|
            0 <= i < chunks@.len() ==> {
                let c = #[trigger] r.chunks@[i];
                &&& c.chapter_id == chunks@[i].chapter_id
                &&& c.chunk_id == chunks@[i].chunk_id
                &&& !c.completed
                &&& c.audio_path is None
                &&& c.error is None
            },
        !r.completed,
        r.current_chapter == 0,
        r.current_chunk == 0,
{
    let mut statuses: Vec<ChunkStatus> = Vec::new();
    let mut i: usize = 0;
    while i < chunks.len()
        invariant
            i <= chunks@.len(),
            statuses@.len() == i,
            forall|k: int|
                0 <= k < i ==> {
                    let c = #[trigger] statuses@[k];
                    &&& c.chapter_id == chunks@[k].chapter_id
                    &&& c.chunk_id == chunks@[k].chunk_id
                    &&& !c.completed
                    &&& c.audio_path is None
                    &&& c.error is None
                },
        decreases chunks@.len() - i,
    {
        statuses.push(ChunkStatus::new(chunks[i].chapter_id, chunks[i].chunk_id));
        i = i + 1;
    }
    Session::new(
        session_id_for(book_hash, timestamp),
        book_path.to_owned(),
        book_hash.to_owned(),
        title.to_owned(),
        author.to_owned(),
        statuses,
    )
}

/// Whether a stored session may be resumed for the book of hash `hash`.
pub open spec fn resumable(s: Session, hash: Seq<char>) -> bool {
    s.book_hash@ == hash && !s.completed
}

/// The most recently updated resumable session among the first `n`; the
/// earliest on a tie.
pub open spec fn latest_resumable(ss: Seq<Session>, hash: Seq<char>, n: nat) -> Option<int>
    decreases n,
{
    if n == 0 {
        None
    } else {
        let b = latest_resumable(ss, hash, (n - 1) as nat);
        let i = n - 1;
        if !resumable(ss[i], hash) {
            b
        } else {
            match b {
                None => Some(i),
                Some(j) => if ss[i].updated_at_ms > ss[j].updated_at_ms {
                    Some(i)
                } else {
                    Some(j)
                },
            }
        }
    }
}

proof fn lemma_latest_resumable(ss: Seq<Session>, hash: Seq<char>, n: nat)
    requires
        n <= ss.len(),
    ensures
        latest_resumable(ss, hash, n) matches Some(i) ==> 0 <= i < n && resumable(ss[i], hash)
            && forall|j: int|
            0 <= j < n && resumable(#[trigger] ss[j], hash) ==> ss[j].updated_at_ms
                <= ss[i].updated_at_ms,
        latest_resumable(ss, hash, n) is None ==> forall|j: int|
            0 <= j < n ==> !resumable(#[trigger] ss[j], hash),
    decreases n,
{
    if n > 0 {
        lemma_latest_resumable(ss, hash, (n - 1) as nat);
    }
}

/// Among the stored sessions, the one to resume for the book of hash
/// `book_hash`: a session is returned exactly when one has that hash and is
/// not completed, and it is the most recently updated of those.
pub fn find_session_for_book(sessions: Vec<Session>, book_hash: &str) -> (r: Option<Session>)
    ensures
        r is Some <==> exists|i: int|
            0 <= i < sessions@.len() && resumable(#[trigger] sessions@[i], book_hash@),
        r matches Some(s) ==> {
            &&& resumable(s, book_hash@)
            &&& s == sessions@[latest_resumable(sessions@, book_hash@, sessions@.len())->0]
            &&& forall|j: int|
                0 <= j < sessions@.len() && resumable(#[trigger] sessions@[j], book_hash@)
                    ==> sessions@[j].updated_at_ms <= s.updated_at_ms
        },
{
    let mut best: Option<usize> = None;
    let mut i: usize = 0;
    while i < sessions.len()
        invariant
            i <= sessions@.len(),
            best == match latest_resumable(sessions@, book_hash@, i as nat) {
                Some(b) => Some(b as usize),
                None => None,
            },
        decreases sessions@.len() - i,
    {
        proof {
            lemma_latest_resumable(sessions@, book_hash@, i as nat);
        }
        let s = &sessions[i];
        if str_eq(s.book_hash.as_str(), book_hash) && !s.completed {
            match best {
                None => {
                    best = Some(i);
                },
                Some(b) => {
                    if s.updated_at_ms > sessions[b].updated_at_ms {
                        best = Some(i);
                    }
                },
            }
        }
        i = i + 1;
    }
    proof {
        lemma_latest_resumable(sessions@, book_hash@, sessions@.len());
    }
    let ghost lr = latest_resumable(sessions@, book_hash@, sessions@.len());
    match best {
        Some(b) => {
            assert(sessions@.len() == sessions.len());
            assert(lr->0 as usize == b);
            assert(lr->0 == b as int);
            let mut sessions = sessions;
            let s = sessions.remove(b);
            Some(s)
        },
        None => None,
    }
}

/// Whether a chunk's audio belongs in the assembly of chapter `ch`.
pub open spec fn assembled(c: ChunkStatus, ch: usize) -> bool {
    c.chapter_id == ch && c.completed && c.audio_path is Some
}

/// Where a chunk numbered `k` goes in a list ordered by chunk number: after
/// every entry numbered `k` or less.
pub open spec fn insert_pos(s: Seq<ChunkStatus>, k: usize) -> int
    decreases s.len(),
{
    if s.len() == 0 {
        0
    } else if s[0].chunk_id > k {
        0
    } else {
        1 + insert_pos(s.skip(1), k)
    }
}

/// The assembled chunks of chapter `ch`, ordered by chunk number; chunks of
/// the same number keep the session's order.
pub open spec fn chapter_order(s: Seq<ChunkStatus>, ch: usize) -> Seq<ChunkStatus>
    decreases s.len(),
{
    if s.len() == 0 {
        Seq::empty()
    } else {
        let r = chapter_order(s.drop_last(), ch);
        let c = s.last();
        if assembled(c, ch) {
            r.insert(insert_pos(r, c.chunk_id), c)
        } else {
            r
        }
    }
}

pub open spec fn sorted_by_chunk(s: Seq<ChunkStatus>) -> bool {
    forall|i: int, j: int| 0 <= i < j < s.len() ==> (#[trigger] s[i]).chunk_id <= (#[trigger] s[j]).chunk_id
}

proof fn lemma_insert_pos(s: Seq<ChunkStatus>, k: usize)
    ensures
        0 <= insert_pos(s, k) <= s.len(),
        forall|i: int| 0 <= i < insert_pos(s, k) ==> (#[trigger] s[i]).chunk_id <= k,
        insert_pos(s, k) < s.len() ==> s[insert_pos(s, k)].chunk_id > k,
    decreases s.len(),
{
    if s.len() > 0 && s[0].chunk_id <= k {
        lemma_insert_pos(s.skip(1), k);
        assert forall|i: int| 0 <= i < insert_pos(s, k) implies (#[trigger] s[i]).chunk_id <= k by {
            if i > 0 {
                assert(s[i] == s.skip(1)[i - 1]);
            }
        }
    }
}

/// The audio files of a chapter come out in ascending chunk order.
pub proof fn lemma_chapter_order_sorted(s: Seq<ChunkStatus>, ch: usize)
    ensures
        sorted_by_chunk(chapter_order(s, ch)),
        forall|i: int|
            0 <= i < chapter_order(s, ch).len() ==> assembled(#[trigger] chapter_order(s, ch)[i], ch),
    decreases s.len(),
{
    if s.len() > 0 {
        let r = chapter_order(s.drop_last(), ch);
        lemma_chapter_order_sorted(s.drop_last(), ch);
        let c = s.last();
        if assembled(c, ch) {
            let p = insert_pos(r, c.chunk_id);
            lemma_insert_pos(r, c.chunk_id);
            let t = r.insert(p, c);
            assert forall|i: int, j: int| 0 <= i < j < t.len() implies (#[trigger] t[i]).chunk_id
                <= (#[trigger] t[j]).chunk_id by {
                if j < p {
                    assert(t[i] == r[i] && t[j] == r[j]);
                } else if j == p {
                    assert(t[i] == r[i]);
                } else if i < p {
                    assert(t[i] == r[i] && t[j] == r[j - 1]);
                    assert(r[i].chunk_id <= c.chunk_id);
                    assert(r[p].chunk_id > c.chunk_id);
                    assert(r[p].chunk_id <= r[j - 1].chunk_id || p == j - 1);
                } else if i == p {
                    assert(t[j] == r[j - 1]);
                    assert(r[p].chunk_id > c.chunk_id);
                    assert(r[p].chunk_id <= r[j - 1].chunk_id || p == j - 1);
                } else {
                    assert(t[i] == r[i - 1] && t[j] == r[j - 1]);
                }
            }
            assert forall|i: int| 0 <= i < t.len() implies assembled(#[trigger] t[i], ch) by {
                if i < p {
                    assert(t[i] == r[i]);
                } else if i > p {
                    assert(t[i] == r[i - 1]);
                }
            }
        }
    }
}

/// How many chunks of `s` belong in the assembly of chapter `ch`.
pub open spec fn assembled_count(s: Seq<ChunkStatus>, ch: usize) -> nat
    decreases s.len(),
{
    if s.len() == 0 {
        0
    } else {
        assembled_count(s.drop_last(), ch) + (if assembled(s.last(), ch) {
            1nat
        } else {
            0nat
        })
    }
}

/// The assembly order of a chapter holds every completed chunk of the
/// chapter, and nothing more: as many entries as there are such chunks.
pub proof fn lemma_chapter_order_complete(s: Seq<ChunkStatus>, ch: usize)
    ensures
        chapter_order(s, ch).len() == assembled_count(s, ch),
        forall|i: int|
            0 <= i < s.len() && assembled(#[trigger] s[i], ch) ==> chapter_order(s, ch).contains(
                s[i],
            ),
    decreases s.len(),
{
    if s.len() > 0 {
        let t = s.drop_last();
        lemma_chapter_order_complete(t, ch);
        let r = chapter_order(t, ch);
        let c = s.last();
        if assembled(c, ch) {
            let p = insert_pos(r, c.chunk_id);
            lemma_insert_pos(r, c.chunk_id);
            let o = r.insert(p, c);
            assert(o[p] == c);
            assert forall|i: int| 0 <= i < s.len() && assembled(#[trigger] s[i], ch) implies o.contains(
                s[i],
            ) by {
                if i == s.len() - 1 {
                    assert(o[p] == s[i]);
                } else {
                    assert(s[i] == t[i]);
                    let j = choose|j: int| 0 <= j < r.len() && r[j] == t[i];
                    if j < p {
                        assert(o[j] == r[j]);
                    } else {
                        assert(o[j + 1] == r[j]);
                    }
                }
            }
        } else {
            assert forall|i: int| 0 <= i < s.len() && assembled(#[trigger] s[i], ch) implies r.contains(
                s[i],
            ) by {
                assert(i < s.len() - 1);
                assert(s[i] == t[i]);
            }
        }
    }
}

/// The audio paths of the given chunks.
pub open spec fn audio_paths(s: Seq<ChunkStatus>) -> Seq<String> {
    s.map_values(|c: ChunkStatus| c.audio_path->0)
}

/// Inserts `c` into `v`, which is ordered by chunk number, after the entries
/// numbered no higher.
fn insert_by_chunk(v: &mut Vec<ChunkStatus>, c: ChunkStatus)
    ensures
        final(v)@ == old(v)@.insert(insert_pos(old(v)@, c.chunk_id), c),
{
    let ghost s = v@;
    let mut i: usize = 0;
    assert(s.skip(0) =~= s);
    while i < v.len() && v[i].chunk_id <= c.chunk_id
        invariant
            v@ == s,
            i <= s.len(),
            insert_pos(s, c.chunk_id) == i + insert_pos(s.skip(i as int), c.chunk_id),
        decreases s.len() - i,
    {
        assert(s.skip(i as int).skip(1) =~= s.skip(i + 1));
        assert(s.skip(i as int)[0] == s[i as int]);
        i = i + 1;
    }
    assert(i < s.len() ==> s.skip(i as int)[0] == s[i as int]);
    v.insert(i, c);
}

/// The local audio files of chapter `chapter_id`, ordered by chunk number,
/// skipping chunks that are not completed.
pub fn get_chapter_audio_files(session: &Session, chapter_id: usize) -> (r: Vec<String>)
    ensures
        r@ == audio_paths(chapter_order(session.chunks@, chapter_id)),
{
    let mut ordered: Vec<ChunkStatus> = Vec::new();
    let mut i: usize = 0;
    while i < session.chunks.len()
        invariant
            i <= session.chunks@.len(),
            ordered@ == chapter_order(session.chunks@.take(i as int), chapter_id),
        decreases session.chunks@.len() - i,
    {
        assert(session.chunks@.take(i + 1).drop_last() =~= session.chunks@.take(i as int));
        let c = &session.chunks[i];
        if c.chapter_id == chapter_id && c.completed && c.audio_path.is_some() {
            insert_by_chunk(&mut ordered, c.clone());
        }
        i = i + 1;
    }
    assert(session.chunks@.take(i as int) =~= session.chunks@);
    let mut r: Vec<String> = Vec::new();
    let mut j: usize = 0;
    while j < ordered.len()
        invariant
            j <= ordered@.len(),
            ordered@ == chapter_order(session.chunks@, chapter_id),
            r@ == audio_paths(ordered@.take(j as int)),
        decreases ordered@.len() - j,
    {
        let p = match &ordered[j].audio_path {
            Some(p) => p.clone(),
            None => String::new(),
        };
        proof {
            lemma_chapter_order_sorted(session.chunks@, chapter_id);
        }
        assert(ordered@[j as int].audio_path is Some);
        r.push(p);
        j = j + 1;
        assert(r@ =~= audio_paths(ordered@.take(j as int)));
    }
    assert(ordered@.take(j as int) =~= ordered@);
    r
}

} // verus!
