use gen_audiobook::chunker::{
    chunk_sentences, hard_split, process_chapter, reassemble_parts, split_long_sentence,
    split_on_words, DEFAULT_TARGET_SIZE,
};

fn strings(v: &[&str]) -> Vec<String> {
    v.iter().map(|s| s.to_string()).collect()
}

#[test]
fn test_chunk_short_text() {
    let chunks = chunk_sentences(&strings(&["Hello world.", "How are you?"]), 280, 350);
    assert_eq!(chunks.len(), 1);
    assert_eq!(chunks[0], "Hello world. How are you?");
}

#[test]
fn test_chunk_long_text() {
    let sentences = strings(&[
        "First sentence.", "Second sentence.", "Third sentence.", "Fourth sentence.",
        "Fifth sentence.", "Sixth sentence.", "Seventh sentence.", "Eighth sentence.",
        "Ninth sentence.", "Tenth sentence.",
    ]);
    let chunks = chunk_sentences(&sentences, 50, 100);
    assert!(chunks.len() > 1);
    for chunk in &chunks {
        assert!(chunk.len() <= 100, "Chunk too long: {} chars", chunk.len());
    }
}

#[test]
fn test_chunk_empty_text() {
    assert!(chunk_sentences(&Vec::new(), 280, 350).is_empty());
}

#[test]
fn test_split_long_sentence() {
    let sentence = "This is a very long sentence with many parts; it has semicolons, commas, and other punctuation - all of which can serve as natural break points for splitting.";
    let parts = split_long_sentence(sentence, 50, 0);
    assert!(parts.len() > 1);
    for part in &parts {
        assert!(part.len() <= 50 || parts.len() == 1, "Part too long: {}", part);
    }
}

#[test]
fn test_process_chapter() {
    let chunks = process_chapter(0, &strings(&["Hello world.", "This is a test."]), 280);
    assert_eq!(chunks.len(), 1);
    assert_eq!(chunks[0].chapter_id, 0);
    assert_eq!(chunks[0].chunk_id, 0);
    assert_eq!(chunks[0].text, "Hello world. This is a test.");
}

#[test]
fn test_process_chapter_multiple_chunks() {
    let sentences = strings(&[
        "First sentence.", "Second sentence.", "Third sentence.", "Fourth sentence.",
        "Fifth sentence.",
    ]);
    let chunks = process_chapter(5, &sentences, 30);
    assert!(chunks.len() > 1);
    assert!(chunks.iter().all(|c| c.chapter_id == 5));
    for (i, chunk) in chunks.iter().enumerate() {
        assert_eq!(chunk.chunk_id, i);
    }
}

#[test]
fn test_hard_split() {
    assert_eq!(hard_split("abcdefghij", 3), vec!["abc", "def", "ghi", "j"]);
}

#[test]
fn hard_split_counts_bytes() {
    assert_eq!(hard_split("ééé", 4), vec!["éé", "é"]);
    assert_eq!(hard_split("€", 1), vec!["€"]);
}

#[test]
fn test_split_on_words() {
    assert_eq!(split_on_words("one two three four five", 10), vec!["one two", "three four", "five"]);
}

#[test]
fn test_long_word_no_delimiters() {
    let long_word = "a".repeat(500);
    let chunks = chunk_sentences(&vec![long_word], 100, 150);
    assert!(chunks.len() > 1, "Should split long word into multiple chunks");
    for chunk in &chunks {
        assert!(chunk.len() <= 150, "Chunk exceeds max_size: {} chars", chunk.len());
    }
    let total_len: usize = chunks.iter().map(|c| c.len()).sum();
    assert_eq!(total_len, 500, "Content should be preserved");
}

#[test]
fn test_consecutive_delimiters() {
    let chunks = chunk_sentences(&strings(&["a;;;b:::c,,,d - - - e"]), 10, 20);
    let rejoined = chunks.join(" ");
    assert!(rejoined.contains('a'), "Missing 'a'");
    assert!(rejoined.contains('b'), "Missing 'b'");
    assert!(rejoined.contains('c'), "Missing 'c'");
    assert!(rejoined.contains('d'), "Missing 'd'");
    assert!(rejoined.contains('e'), "Missing 'e'");
}

#[test]
fn test_exact_boundary_conditions() {
    let text = "a".repeat(280);
    let chunks = chunk_sentences(&vec![text], 280, 350);
    assert_eq!(chunks.len(), 1, "Should fit in one chunk");
    assert_eq!(chunks[0].len(), 280);

    let text = "a".repeat(350);
    let chunks = chunk_sentences(&vec![text], 280, 350);
    assert_eq!(chunks.len(), 1, "Should fit in one chunk at max_size");
    assert_eq!(DEFAULT_TARGET_SIZE, 280);
}

#[test]
fn reassembly_restores_delimiters() {
    let parts = strings(&["alpha ", " beta", "", "gamma"]);
    assert_eq!(reassemble_parts(&parts, ";", 100), vec!["alpha ; beta ; gamma"]);
    assert_eq!(reassemble_parts(&parts, ";", 10), vec!["alpha", "; beta", "; gamma"]);
}

#[test]
fn chapters_become_numbered_chunks() {
    use_chapters();
}

fn use_chapters() {
    let titled = gen_audiobook::book::Chapter { title: Some("One".to_string()), content: "Body.".to_string() };
    assert_eq!(gen_audiobook::chapters::chapter_text(&titled), "One. Body.");
    let plain = gen_audiobook::book::Chapter { title: None, content: "Body.".to_string() };
    assert_eq!(gen_audiobook::chapters::chapter_text(&plain), "Body.");

    let per_chapter = vec![strings(&["A."]), strings(&["B.", "C."])];
    let chunks = gen_audiobook::chapters::process_book_chapters(3, &per_chapter);
    assert_eq!(chunks.len(), 2);
    assert_eq!((chunks[0].chapter_id, chunks[0].chunk_id, chunks[0].text.as_str()), (3, 0, "A."));
    assert_eq!((chunks[1].chapter_id, chunks[1].chunk_id, chunks[1].text.as_str()), (4, 0, "B. C."));
}
