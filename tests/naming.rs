use gen_audiobook::naming::{cleanup_punctuation, sanitize_filename, EpubMetadata};

fn meta() -> EpubMetadata {
    EpubMetadata {
        title: Some("Dune: Messiah".to_string()),
        author: Some("Frank Herbert".to_string()),
        series: None,
        series_index: Some("2".to_string()),
    }
}

#[test]
fn context_string_lists_present_fields() {
    assert_eq!(
        meta().to_context_string(),
        Some("Title: Dune: Messiah\nAuthor: Frank Herbert\nSeries Index: 2".to_string())
    );
    let empty = EpubMetadata { title: None, author: None, series: None, series_index: None };
    assert_eq!(empty.to_context_string(), None);
}

#[test]
fn sanitized_names() {
    assert_eq!(sanitize_filename("  a/b\\c:d*e?f\"g<h>i|j "), "a_b_c_d_e_f_g_h_i_j");
}

#[test]
fn punctuation_kept_only_from_sources() {
    let m = meta();
    assert_eq!(
        cleanup_punctuation("Herbert - Dune: Messiah!", "dune_messiah", Some(&m)),
        "Herbert - Dune: Messiah"
    );
    assert_eq!(cleanup_punctuation("a.b_c!", "x.y", None), "a.bc");
}
