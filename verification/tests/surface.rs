//! Tests of the pure pieces: pattern escaping, query building, language
//! and mode validation, extension filtering, and text post-processing.

use ocrlocate::db::{schema_action, SchemaAction, SearchType, StoreError};
use ocrlocate::index::{default_excludes, dimensions_ok, has_indexed_extension, progress_increment};
use ocrlocate::like::path_to_like;
use ocrlocate::ocr::{collapse_newlines, validate_lang, validate_psm, Binarization, OcrError};
use ocrlocate::query::{build_query, make_plain_snippet};

#[test]
fn like_escaping_is_exact() {
    assert_eq!(path_to_like("/t/50%_x"), "/t/50#%#_x%");
    assert_eq!(path_to_like("plain"), "plain%");
    assert_eq!(path_to_like("a#b"), "a##b%");
    assert_eq!(path_to_like(""), "%");
}

#[test]
fn simple_query_escaping() {
    let q = build_query(&vec!["a*b".to_string(), "c".to_string()], SearchType::Simple);
    assert_eq!(q, "\"a\\*b c\"");
    let q = build_query(&vec!["one".to_string(), "two".to_string()], SearchType::Match);
    assert_eq!(q, "one two");
    let q = build_query(&vec![], SearchType::Simple);
    assert_eq!(q, "\"\"");
}

#[test]
fn newline_collapse() {
    assert_eq!(collapse_newlines("a\n\nb"), "a\nb");
    assert_eq!(collapse_newlines("a\n\n\n\nb"), "a\nb");
    assert_eq!(collapse_newlines("a\nb"), "a\nb");
    assert_eq!(collapse_newlines(""), "");
    assert_eq!(collapse_newlines("\n\n"), "\n");
}

#[test]
fn language_codes() {
    assert!(validate_lang("eng").is_ok());
    assert!(validate_lang("DEU").is_ok());
    assert!(matches!(validate_lang("en"), Err(OcrError::InvalidLanguage)));
    assert!(matches!(validate_lang("engl"), Err(OcrError::InvalidLanguage)));
    assert!(matches!(validate_lang("e.g"), Err(OcrError::InvalidLanguage)));
    assert!(matches!(validate_lang("e/g"), Err(OcrError::InvalidLanguage)));
    assert!(matches!(validate_lang("e\\g"), Err(OcrError::InvalidLanguage)));
    assert!(matches!(validate_lang("\u{e9}ng"), Err(OcrError::InvalidLanguage)));
}

#[test]
fn page_segmentation_bounds() {
    assert!(validate_psm(0));
    assert!(validate_psm(11));
    assert!(validate_psm(13));
    assert!(!validate_psm(-1));
    assert!(!validate_psm(14));
}

#[test]
fn binarization_codes() {
    assert_eq!(Binarization::Otsu.code(), 0);
    assert_eq!(Binarization::LeptonicaOtsu.code(), 1);
    assert_eq!(Binarization::Sauvola.code(), 2);
}

#[test]
fn extension_filter() {
    assert!(has_indexed_extension("/a/b.png"));
    assert!(has_indexed_extension("/a/b.PNG"));
    assert!(has_indexed_extension("x.jpeg"));
    assert!(has_indexed_extension("x.jpg"));
    assert!(has_indexed_extension("x.gif"));
    assert!(has_indexed_extension("x.webp"));
    assert!(has_indexed_extension("archive.tar.gif"));
    assert!(!has_indexed_extension("x.txt"));
    assert!(!has_indexed_extension("/a/.png"));
    assert!(!has_indexed_extension("noext"));
    assert!(!has_indexed_extension("dir.png/file"));
    assert!(!has_indexed_extension(""));
}

#[test]
fn dimension_cap() {
    assert!(dimensions_ok(100, 100, None));
    assert!(dimensions_ok(100, 100, Some((100, 100))));
    assert!(!dimensions_ok(101, 100, Some((100, 100))));
    assert!(!dimensions_ok(100, 101, Some((100, 100))));
}

#[test]
fn progress_accounting() {
    assert_eq!(progress_increment(true, 10, 20), 30);
    assert_eq!(progress_increment(false, 10, 20), 20);
    assert_eq!(progress_increment(true, usize::MAX, 1), usize::MAX);
}

#[test]
fn plain_snippets() {
    assert_eq!(make_plain_snippet("short text"), "short text");
    let long: String = "x".repeat(70);
    let snip = make_plain_snippet(&long);
    assert_eq!(snip.len(), 66);
    assert!(snip.ends_with(".."));
}

#[test]
fn schema_dispatch() {
    assert_eq!(schema_action(0), SchemaAction::Migrate);
    assert_eq!(schema_action(1), SchemaAction::RejectPreRelease);
    assert_eq!(schema_action(2), SchemaAction::Keep);
    assert_eq!(schema_action(3), SchemaAction::RejectTooNew);
    assert_eq!(schema_action(-1), SchemaAction::RejectTooNew);
    assert!(StoreError::SchemaPreRelease.message().contains("deleted"));
    assert!(StoreError::SchemaTooNew(9).message().contains("too high"));
}

#[test]
fn built_in_excludes() {
    let ex = default_excludes();
    assert_eq!(ex, vec!["*/.cache".to_string(), "*/.thumb*".to_string()]);
}
