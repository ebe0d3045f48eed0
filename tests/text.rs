use gen_audiobook::book::{
    count_words, detect_cover_filename, extract_title_from_html, parse_chapter_range,
    strip_html_tags, RangeError,
};
use gen_audiobook::cleaner::{clean_text, fix_multiple_periods, is_allowed_char, normalize_whitespace};
use gen_audiobook::metadata::{build_chapter_info, escape_metadata_value, ffmpeg_metadata, ChapterInfo};

#[test]
fn test_clean_smart_quotes() {
    let text = "\u{201c}Hello,\u{201d} said John. \u{2018}It\u{2019}s nice.\u{2019}";
    assert_eq!(clean_text(text), "\"Hello,\" said John. 'It's nice.'");
}

#[test]
fn test_clean_dashes() {
    assert_eq!(clean_text("one–two—three"), "one-two-three");
}

#[test]
fn test_clean_ellipsis() {
    assert_eq!(clean_text("Wait… what?"), "Wait. what?");
}

#[test]
fn test_clean_multiple_periods() {
    assert_eq!(clean_text("What.. is... this...."), "What. is. this.");
}

#[test]
fn test_clean_whitespace() {
    assert_eq!(clean_text("Hello   world\n\n\n\nNew paragraph"), "Hello world\n\nNew paragraph");
}

#[test]
fn test_clean_control_chars() {
    assert_eq!(clean_text("Hello\x00World\x07Test"), "HelloWorldTest");
}

#[test]
fn test_clean_zero_width_chars() {
    assert_eq!(clean_text("Hello\u{200b}World\u{feff}Test"), "HelloWorldTest");
}

#[test]
fn test_preserves_newlines() {
    assert_eq!(clean_text("Line 1\nLine 2"), "Line 1\nLine 2");
}

#[test]
fn cleaner_parts() {
    assert!(is_allowed_char('\t'));
    assert!(!is_allowed_char('\u{85}'));
    assert_eq!(normalize_whitespace("  a \t b  "), "a b");
    assert_eq!(fix_multiple_periods("a...b."), "a.b.");
    assert_eq!(clean_text(""), "");
}

#[test]
fn test_strip_html_tags() {
    assert_eq!(strip_html_tags("<p>Hello</p>"), "Hello");
    assert_eq!(strip_html_tags("<h1>Title</h1><p>Content</p>"), "TitleContent");
    assert_eq!(strip_html_tags("<a href=\"test\">Link</a>"), "Link");
}

#[test]
fn test_extract_title_h1() {
    let html = "<html><body><h1>Chapter One</h1><p>Content here</p></body></html>";
    assert_eq!(extract_title_from_html(html), Some("Chapter One".to_string()));
}

#[test]
fn test_extract_title_h2() {
    let html = "<html><body><h2>Section Title</h2><p>Content</p></body></html>";
    assert_eq!(extract_title_from_html(html), Some("Section Title".to_string()));
}

#[test]
fn title_extraction_edges() {
    assert_eq!(extract_title_from_html("<H1 class=\"x\"> <b>Big</b> </H1>"), Some("Big".to_string()));
    assert_eq!(extract_title_from_html("<h1>  </h1><h2>Second</h2>"), Some("Second".to_string()));
    assert_eq!(extract_title_from_html("<p>none</p>"), None);
}

#[test]
fn word_counts() {
    assert_eq!(count_words("  one two\tthree\n"), 3);
    assert_eq!(count_words(""), 0);
}

#[test]
fn chapter_ranges() {
    assert_eq!(parse_chapter_range(&None, 10), Ok((0, 10)));
    assert_eq!(parse_chapter_range(&Some("2-4".to_string()), 10), Ok((2, 5)));
    assert_eq!(parse_chapter_range(&Some("3".to_string()), 10), Ok((3, 4)));
    assert_eq!(parse_chapter_range(&Some("8-20".to_string()), 10), Ok((8, 10)));
    assert_eq!(parse_chapter_range(&Some("1-2-3".to_string()), 10), Err(RangeError::InvalidFormat));
    assert_eq!(parse_chapter_range(&Some("x-2".to_string()), 10), Err(RangeError::InvalidStart));
    assert_eq!(parse_chapter_range(&Some("1-".to_string()), 10), Err(RangeError::InvalidEnd));
    assert_eq!(parse_chapter_range(&Some("abc".to_string()), 10), Err(RangeError::InvalidChapter));
}

#[test]
fn cover_kinds() {
    assert_eq!(detect_cover_filename(&[0xff, 0xd8, 0xff, 0]), "cover.jpg");
    assert_eq!(detect_cover_filename(&[0x89, 0x50, 0x4e, 0x47]), "cover.png");
    assert_eq!(detect_cover_filename(b"GIF89a"), "cover.gif");
    assert_eq!(detect_cover_filename(b"RIFF\0\0\0\0WEBPxx"), "cover.webp");
    assert_eq!(detect_cover_filename(b"??"), "cover.jpg");
}

#[test]
fn test_chapter_info_new() {
    let chapter = ChapterInfo::new("Chapter 1", 0, 60000);
    assert_eq!(chapter.title, "Chapter 1");
    assert_eq!(chapter.start_ms, 0);
    assert_eq!(chapter.end_ms, 60000);
}

#[test]
fn test_escape_metadata_value() {
    assert_eq!(escape_metadata_value("Simple"), "Simple");
    assert_eq!(escape_metadata_value("Test=Value"), "Test\\=Value");
    assert_eq!(escape_metadata_value("Test;Value"), "Test\\;Value");
    assert_eq!(escape_metadata_value("Test#Value"), "Test\\#Value");
    assert_eq!(escape_metadata_value("Test\\Value"), "Test\\\\Value");
    assert_eq!(escape_metadata_value("Line1\nLine2"), "Line1\\nLine2");
}

#[test]
fn test_create_ffmpeg_metadata() {
    let chapters = vec![
        ChapterInfo::new("Chapter 1", 0, 60000),
        ChapterInfo::new("Chapter 2", 60000, 120000),
    ];
    let content = ffmpeg_metadata("My Book", "John Author", &chapters);
    assert!(content.contains(";FFMETADATA1"));
    assert!(content.contains("title=My Book"));
    assert!(content.contains("artist=John Author"));
    assert!(content.contains("[CHAPTER]"));
    assert!(content.contains("START=0"));
    assert!(content.contains("END=60000"));
    assert!(content.contains("title=Chapter 1"));
}

#[test]
fn test_build_chapter_info() {
    let chunk_durations = vec![1000, 2000, 3000, 4000, 5000];
    let boundaries = vec![
        ("Chapter 1".to_string(), 0),
        ("Chapter 2".to_string(), 2),
        ("Chapter 3".to_string(), 4),
    ];

    let chapters = build_chapter_info(&chunk_durations, &boundaries);

    assert_eq!(chapters.len(), 3);
    assert_eq!(chapters[0].title, "Chapter 1");
    assert_eq!(chapters[0].start_ms, 0);
    assert_eq!(chapters[0].end_ms, 3000);
    assert_eq!(chapters[1].title, "Chapter 2");
    assert_eq!(chapters[1].start_ms, 3000);
    assert_eq!(chapters[1].end_ms, 10000);
    assert_eq!(chapters[2].title, "Chapter 3");
    assert_eq!(chapters[2].start_ms, 10000);
    assert_eq!(chapters[2].end_ms, 15000);
}

#[test]
fn test_clean_text() {
    let text = "Hello &amp; goodbye &mdash; see you!";
    let cleaned = gen_audiobook::epub_text::clean_text(text);
    assert!(cleaned.contains("&"));
    assert!(cleaned.contains("—"));
}

#[test]
fn extracted_text_lines_and_paragraphs() {
    let text = "  First line \n second line\n\n\n  Next &lt;para&gt;\n";
    assert_eq!(
        gen_audiobook::epub_text::clean_text(text),
        "First line second line\n\nNext <para>"
    );
    assert_eq!(gen_audiobook::epub_text::clean_text("\n\nA"), "A");
    assert_eq!(gen_audiobook::epub_text::clean_text("&amp;lt;"), "<");
}

#[test]
fn concat_list_quotes_paths() {
    let paths = vec!["/tmp/a.wav".to_string(), "/tmp/it's.wav".to_string()];
    assert_eq!(
        gen_audiobook::assembly::concat_list(&paths),
        "file '/tmp/a.wav'\nfile '/tmp/it'\\''s.wav'\n"
    );
}
