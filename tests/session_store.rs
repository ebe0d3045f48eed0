use gen_audiobook::checkpoint::record_result;
use gen_audiobook::protocol::{format_job_id, TtsResult};
use gen_audiobook::session::{
    get_next_chunk, get_progress, mark_chunk_complete, mark_chunk_error, ChunkStatus, Session,
    TextChunk,
};
use gen_audiobook::store::{
    compute_book_hash, compute_file_hash, create_session, find_session_for_book,
    get_chapter_audio_files, session_id_for,
};

fn session_of(chunks: Vec<ChunkStatus>) -> Session {
    Session::new(
        "test".to_string(),
        "/tmp/test.epub".to_string(),
        "abc".to_string(),
        "Test".to_string(),
        "Author".to_string(),
        chunks,
    )
}

#[test]
fn test_chunk_status_new() {
    let status = ChunkStatus::new(0, 1);
    assert_eq!(status.chapter_id, 0);
    assert_eq!(status.chunk_id, 1);
    assert!(status.audio_path.is_none());
    assert!(!status.completed);
    assert!(status.error.is_none());
}

#[test]
fn test_chunk_status_mark_completed() {
    let mut status = ChunkStatus::new(0, 0);
    status.mark_completed("/tmp/audio.wav".to_string());
    assert!(status.completed);
    assert_eq!(status.audio_path, Some("/tmp/audio.wav".to_string()));
}

#[test]
fn test_chunk_status_mark_failed() {
    let mut status = ChunkStatus::new(0, 0);
    status.mark_failed("TTS failed".to_string());
    assert!(!status.completed);
    assert_eq!(status.error, Some("TTS failed".to_string()));
}

#[test]
fn test_session_new() {
    let chunks = vec![ChunkStatus::new(0, 0), ChunkStatus::new(0, 1), ChunkStatus::new(1, 0)];
    let session = Session::new(
        "test_session".to_string(),
        "/tmp/book.epub".to_string(),
        "abc123".to_string(),
        "Test Book".to_string(),
        "Author".to_string(),
        chunks,
    );

    assert_eq!(session.session_id, "test_session");
    assert_eq!(session.total_chapters, 2);
    assert_eq!(session.total_chunks, 3);
    assert_eq!(session.completed_count(), 0);
}

#[test]
fn test_text_chunk_creation() {
    let chunk = TextChunk::new(0, 1, "Hello world".to_string());
    assert_eq!(chunk.chapter_id, 0);
    assert_eq!(chunk.chunk_id, 1);
    assert_eq!(chunk.text, "Hello world");
}

#[test]
fn test_compute_book_hash() {
    let hash = compute_book_hash(&b"test content".to_vec());
    assert_eq!(hash.len(), 16);
    assert!(hash.chars().all(|c| c.is_ascii_hexdigit()));
}

#[test]
fn test_compute_book_hash_consistent() {
    let hash1 = compute_book_hash(&b"consistent content".to_vec());
    let hash2 = compute_book_hash(&b"consistent content".to_vec());
    assert_eq!(hash1, hash2);
}

#[test]
fn hash_known_digest_prefix() {
    // SHA-256("abc") = ba7816bf8f01cfea...
    assert_eq!(compute_file_hash(&b"abc".to_vec()), "ba7816bf8f01cfea");
    assert_eq!(compute_book_hash(&b"abc".to_vec()), "ba7816bf8f01cfea");
}

#[test]
fn book_hash_reads_only_the_first_mebibyte() {
    let mut a = vec![7u8; 1024 * 1024];
    let mut b = a.clone();
    a.push(1);
    b.push(2);
    assert_eq!(compute_book_hash(&a), compute_book_hash(&b));
    assert_ne!(compute_file_hash(&a), compute_file_hash(&b));
}

#[test]
fn test_get_next_chunk() {
    let chunks = vec![ChunkStatus::new(0, 0), ChunkStatus::new(0, 1), ChunkStatus::new(1, 0)];
    let mut session = session_of(chunks);

    assert_eq!(get_next_chunk(&session), Some((0, 0)));

    session.chunks[0].mark_completed("/tmp/0.wav".to_string());
    assert_eq!(get_next_chunk(&session), Some((0, 1)));

    session.chunks[1].mark_completed("/tmp/1.wav".to_string());
    session.chunks[2].mark_completed("/tmp/2.wav".to_string());
    assert_eq!(get_next_chunk(&session), None);
}

#[test]
fn test_get_progress() {
    let mut chunks = vec![
        ChunkStatus::new(0, 0),
        ChunkStatus::new(0, 1),
        ChunkStatus::new(1, 0),
        ChunkStatus::new(1, 1),
    ];
    chunks[0].mark_completed("/tmp/0.wav".to_string());
    let session = session_of(chunks);

    let (completed, total, pct) = get_progress(&session);
    assert_eq!(completed, 1);
    assert_eq!(total, 4);
    assert_eq!(pct, 25);
}

#[test]
fn test_get_chapter_audio_files() {
    let mut chunks = vec![
        ChunkStatus::new(0, 0),
        ChunkStatus::new(0, 1),
        ChunkStatus::new(0, 2),
        ChunkStatus::new(1, 0),
    ];
    chunks[0].mark_completed("/tmp/ch0_0.wav".to_string());
    chunks[2].mark_completed("/tmp/ch0_2.wav".to_string());
    chunks[3].mark_completed("/tmp/ch1_0.wav".to_string());
    let session = session_of(chunks);

    let chapter_0_files = get_chapter_audio_files(&session, 0);
    assert_eq!(chapter_0_files.len(), 2);
    assert_eq!(chapter_0_files[0], "/tmp/ch0_0.wav");
    assert_eq!(chapter_0_files[1], "/tmp/ch0_2.wav");

    let chapter_1_files = get_chapter_audio_files(&session, 1);
    assert_eq!(chapter_1_files.len(), 1);
}

#[test]
fn assembly_order_follows_chunk_ids() {
    let mut chunks = vec![
        ChunkStatus::new(0, 2),
        ChunkStatus::new(0, 0),
        ChunkStatus::new(0, 1),
        ChunkStatus::new(0, 3),
    ];
    for c in chunks.iter_mut() {
        let p = format!("/tmp/{}.wav", c.chunk_id);
        c.mark_completed(p);
    }
    let session = session_of(chunks);
    assert_eq!(
        get_chapter_audio_files(&session, 0),
        vec!["/tmp/0.wav", "/tmp/1.wav", "/tmp/2.wav", "/tmp/3.wav"]
    );
}

#[test]
fn completion_moves_cursor_and_finishes_session() {
    let mut session = session_of(vec![ChunkStatus::new(0, 0), ChunkStatus::new(0, 1)]);
    mark_chunk_complete(&mut session, 0, 0, "/a.wav");
    assert_eq!((session.current_chapter, session.current_chunk), (0, 1));
    assert!(!session.completed);
    mark_chunk_error(&mut session, 0, 1, "boom");
    assert_eq!(session.chunks[1].error.as_deref(), Some("boom"));
    assert!(!session.chunks[1].completed);
    mark_chunk_complete(&mut session, 0, 1, "/b.wav");
    assert!(session.completed);
    assert_eq!(session.completed_count(), 2);
}

#[test]
fn resume_scenario() {
    let chunks: Vec<TextChunk> = (0..10).map(|i| TextChunk::new(0, i, format!("t{}", i))).collect();
    let mut s = create_session("/b.epub", "0011223344556677", "20240101_000000", "T", "A", &chunks);
    assert_eq!(s.session_id, "0011223344556677_20240101_000000");
    for i in 0..4 {
        mark_chunk_complete(&mut s, 0, i, &format!("/tmp/{}.wav", i));
    }
    let found = find_session_for_book(vec![s], "0011223344556677").unwrap();
    assert_eq!(found.completed_count(), 4);
    assert_eq!(get_next_chunk(&found), Some((0, 4)));
}

#[test]
fn discovery_picks_latest_incomplete_match() {
    let mut old = session_of(vec![ChunkStatus::new(0, 0)]);
    old.updated_at_ms = 1;
    let mut newer = session_of(vec![ChunkStatus::new(0, 0)]);
    newer.updated_at_ms = 5;
    newer.session_id = "newer".to_string();
    let mut done = session_of(vec![ChunkStatus::new(0, 0)]);
    done.updated_at_ms = 9;
    done.completed = true;
    let mut other = session_of(vec![ChunkStatus::new(0, 0)]);
    other.book_hash = "zzz".to_string();
    other.updated_at_ms = 10;
    let found = find_session_for_book(vec![old, newer, done, other], "abc").unwrap();
    assert_eq!(found.session_id, "newer");
    assert!(find_session_for_book(vec![], "abc").is_none());
    assert_eq!(session_id_for("h", "t"), "h_t");
}

#[test]
fn pending_chunks_are_the_incomplete_ones_with_text() {
    let texts: Vec<TextChunk> = (0..3).map(|i| TextChunk::new(0, i, format!("t{}", i))).collect();
    let mut s = create_session("/b", "h", "t", "T", "A", &texts);
    mark_chunk_complete(&mut s, 0, 1, "/x.wav");
    let pending = gen_audiobook::planning::pending_chunks(&s, &texts);
    assert_eq!(pending, vec![(0, 0, "t0".to_string()), (0, 2, "t2".to_string())]);
}

#[test]
fn paragraphs_of_text() {
    let p = gen_audiobook::planning::paragraphs(" One.\n\n\n\nTwo \n\n  ");
    assert_eq!(p, vec!["One.".to_string(), "Two".to_string()]);
}

#[test]
fn results_are_checkpointed_by_job_id() {
    let texts: Vec<TextChunk> = (0..2).map(|i| TextChunk::new(1, i, format!("t{}", i))).collect();
    let mut s = create_session("/b", "h", "t", "T", "A", &texts);
    let ok = TtsResult::success(&format_job_id(&s.session_id, 1, 0), 5, 5, "/remote.wav");
    assert!(record_result(&mut s, &ok, Some("/local/0.wav")));
    assert!(s.chunks[0].completed);
    assert_eq!(s.chunks[0].audio_path.as_deref(), Some("/local/0.wav"));
    let lost = TtsResult::success(&format_job_id(&s.session_id, 1, 1), 5, 5, "/remote.wav");
    assert!(record_result(&mut s, &lost, None));
    assert!(!s.chunks[1].completed);
    assert_eq!(s.chunks[1].error.as_deref(), Some("unknown error"));
    let bad = TtsResult::failure("not-a-job-id", "x");
    assert!(!record_result(&mut s, &bad, None));
}

#[test]
fn failing_a_completed_chunk_makes_it_incomplete() {
    let mut c = ChunkStatus::new(0, 0);
    c.mark_completed("/tmp/a.wav".to_string());
    c.mark_failed("late error".to_string());
    assert!(!c.completed);
    assert_eq!(c.error.as_deref(), Some("late error"));
    let mut s = session_of(vec![ChunkStatus::new(0, 0)]);
    mark_chunk_complete(&mut s, 0, 0, "/a.wav");
    mark_chunk_error(&mut s, 0, 0, "redo");
    assert!(!s.chunks[0].completed);
}

#[test]
fn finished_session_cursor_rests_on_last_chunk() {
    let mut s = session_of(vec![ChunkStatus::new(0, 0), ChunkStatus::new(2, 5)]);
    mark_chunk_complete(&mut s, 2, 5, "/b.wav");
    assert_eq!((s.current_chapter, s.current_chunk), (0, 0));
    mark_chunk_complete(&mut s, 0, 0, "/a.wav");
    assert!(s.completed);
    assert_eq!((s.current_chapter, s.current_chunk), (2, 5));
}

#[test]
fn pending_chunks_skip_empty_text() {
    let texts = vec![TextChunk::new(0, 0, String::new()), TextChunk::new(0, 1, "x".to_string())];
    let s = create_session("/b", "h", "t", "T", "A", &texts);
    let pending = gen_audiobook::planning::pending_chunks(&s, &texts);
    assert_eq!(pending, vec![(0, 1, "x".to_string())]);
}
