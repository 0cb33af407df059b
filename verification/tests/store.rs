//! Tests of the persistent store: change detection, mark-and-sweep
//! deletion, and the search surface, against a real in-memory store.

use ocrlocate::db::{OcrResult, SearchType, StoreError, DB};
use ocrlocate::index::ScanEntry;

fn memory_db() -> DB {
    DB::new(":memory:").unwrap()
}

fn result(path: &str, modtime: u64, contents: &str) -> OcrResult {
    OcrResult { path: path.to_string(), modtime, contents: contents.to_string() }
}

#[test]
fn is_indexed() {
    let mut db = memory_db();
    db.save_results(vec![result("/t/dummy", 1234, "nothing")]).unwrap();
    assert!(db.is_indexed("/t/dummy", 1234).unwrap());
}

#[test]
fn deletion() {
    let mut db = memory_db();
    db.save_results(vec![
        result("/t/im_not_going_away", 10, ""),
        result("/t/im_going_away", 10, ""),
    ])
    .unwrap();
    assert_eq!(db.sweep_deletions().unwrap(), 0);
    db.mark_for_deletion("/t").unwrap();
    db.unmark_file("/t/im_not_going_away").unwrap();
    assert_eq!(db.sweep_deletions().unwrap(), 1);
    assert!(db.is_indexed("/t/im_not_going_away", 10).unwrap());
    assert!(!db.is_indexed("/t/im_going_away", 10).unwrap());
}

#[test]
fn search() {
    let mut db = memory_db();
    let saved = db
        .save_results(vec![
            result("/t/1.png", 10, "haystack haystack haystack"),
            result("/t/2.png", 10, "haystack haystack needle"),
            result("/t/3.png", 10, "haystack hayneedle haystack"),
        ])
        .unwrap();
    assert_eq!(saved, 3);
    let results = db
        .search(&vec!["needle".to_string()], "/", 40, SearchType::Simple, None)
        .unwrap();
    println!("{:?}", results);
    assert_eq!(results.len(), 2);
}

#[test]
fn modtime_update_keeps_one_row() {
    let mut db = memory_db();
    db.save_results(vec![result("/t/a.png", 1, "old words")]).unwrap();
    assert!(!db.is_indexed("/t/a.png", 2).unwrap());
    db.save_results(vec![result("/t/a.png", 2, "new words")]).unwrap();
    assert!(db.is_indexed("/t/a.png", 2).unwrap());
    assert!(!db.is_indexed("/t/a.png", 1).unwrap());
    let old_hits = db
        .search(&vec!["old".to_string()], "/", 10, SearchType::Simple, None)
        .unwrap();
    assert_eq!(old_hits.len(), 0);
    let new_hits = db
        .search(&vec!["new".to_string()], "/", 10, SearchType::Simple, None)
        .unwrap();
    assert_eq!(new_hits.len(), 1);
    assert_eq!(new_hits[0].path, "/t/a.png");
    assert_eq!(new_hits[0].time, 2);
}

#[test]
fn reindex_skip() {
    let mut db = memory_db();
    db.save_results(vec![result("/t/a.png", 5, "words")]).unwrap();
    let entries = vec![ScanEntry { path: "/t/a.png".to_string(), mtime: 5 }];
    let kept = ocrlocate::index::filter_unchanged(&mut db, &entries, false).unwrap();
    assert_eq!(kept.len(), 0);
    let saved = db.save_results(vec![]).unwrap();
    assert_eq!(saved, 0);
    let rescan_kept = ocrlocate::index::filter_unchanged(&mut db, &entries, true).unwrap();
    assert_eq!(rescan_kept.len(), 1);
}

#[test]
fn cleanup() {
    let mut db = memory_db();
    db.save_results(vec![
        result("/t/1.png", 10, "haystack haystack haystack"),
        result("/t/2.png", 10, "haystack haystack needle"),
        result("/t/3.png", 10, "haystack hayneedle haystack"),
    ])
    .unwrap();
    // File 1 vanished: a cleanup pass marks everything under /t, the
    // scan unmarks the two still present, and the sweep removes one row.
    db.mark_for_deletion("/t").unwrap();
    db.unmark_file("/t/2.png").unwrap();
    db.unmark_file("/t/3.png").unwrap();
    assert_eq!(db.sweep_deletions().unwrap(), 1);
    let hits = db
        .search(&vec!["haystack".to_string()], "/", 10, SearchType::Simple, None)
        .unwrap();
    assert_eq!(hits.len(), 2);
}

#[test]
fn skip_unmarks_row() {
    let mut db = memory_db();
    db.save_results(vec![result("/t/a.png", 5, "words")]).unwrap();
    db.mark_for_deletion("/t").unwrap();
    // The file is still on disk and unchanged: the skip pass clears its
    // deletion mark, so the sweep removes nothing.
    let entries = vec![ScanEntry { path: "/t/a.png".to_string(), mtime: 5 }];
    let kept = ocrlocate::index::filter_unchanged(&mut db, &entries, false).unwrap();
    assert_eq!(kept.len(), 0);
    assert_eq!(db.sweep_deletions().unwrap(), 0);
    assert!(db.is_indexed("/t/a.png", 5).unwrap());
}

#[test]
fn path_scoping() {
    let mut db = memory_db();
    db.save_results(vec![
        result("/t/a.png", 10, "needle"),
        result("/u/b.png", 10, "needle"),
    ])
    .unwrap();
    let hits = db
        .search(&vec!["needle".to_string()], "/t", 10, SearchType::Simple, None)
        .unwrap();
    assert_eq!(hits.len(), 1);
    assert_eq!(hits[0].path, "/t/a.png");
}

#[test]
fn like_escape() {
    let mut db = memory_db();
    db.save_results(vec![
        result("/t/50%_x.png", 10, "needle words"),
        result("/t/50XYx.png", 10, "needle words"),
    ])
    .unwrap();
    let hits = db
        .search(&vec!["needle".to_string()], "/t/50%_x.png", 10, SearchType::Simple, None)
        .unwrap();
    assert_eq!(hits.len(), 1);
    assert_eq!(hits[0].path, "/t/50%_x.png");
}

#[test]
fn schema_refusal() {
    let v1 = "/tmp/ocrlocate_test_schema_v1.db";
    {
        let c = rusqlite::Connection::open(v1).unwrap();
        c.pragma_update(None, "user_version", 1i64).unwrap();
    }
    let e = match DB::new(v1) {
        Err(e) => e,
        Ok(_) => panic!("a prerelease store must be refused"),
    };
    assert!(matches!(e, StoreError::SchemaPreRelease));
    assert!(e.message().contains("deleted"));

    let v3 = "/tmp/ocrlocate_test_schema_v3.db";
    {
        let c = rusqlite::Connection::open(v3).unwrap();
        c.pragma_update(None, "user_version", 3i64).unwrap();
    }
    let e = match DB::new(v3) {
        Err(e) => e,
        Ok(_) => panic!("a too-new store must be refused"),
    };
    assert!(matches!(e, StoreError::SchemaTooNew(3)));
    assert!(e.message().contains("too high"));
}

#[test]
fn limit_truncates() {
    let mut db = memory_db();
    db.save_results(vec![
        result("/t/1.png", 1, "needle one"),
        result("/t/2.png", 2, "needle two"),
        result("/t/3.png", 3, "needle three"),
    ])
    .unwrap();
    let hits = db
        .search(&vec!["needle".to_string()], "/", 2, SearchType::Simple, None)
        .unwrap();
    assert_eq!(hits.len(), 2);
}

#[test]
fn rank_ties_break_by_modtime() {
    let mut db = memory_db();
    db.save_results(vec![
        result("/t/old.png", 100, "the same needle text"),
        result("/t/new.png", 300, "the same needle text"),
        result("/t/mid.png", 200, "the same needle text"),
    ])
    .unwrap();
    let hits = db
        .search(&vec!["needle".to_string()], "/", 10, SearchType::Simple, None)
        .unwrap();
    assert_eq!(hits.len(), 3);
    assert_eq!(hits[0].time, 300);
    assert_eq!(hits[1].time, 200);
    assert_eq!(hits[2].time, 100);
}

#[test]
fn match_dialect() {
    let mut db = memory_db();
    db.save_results(vec![
        result("/t/1.png", 10, "haystack haystack haystack"),
        result("/t/2.png", 10, "haystack haystack needle"),
        result("/t/3.png", 10, "haystack hayneedle haystack"),
    ])
    .unwrap();
    let hits = db
        .search(
            &vec!["haystack".to_string(), "AND".to_string(), "needle".to_string()],
            "/",
            10,
            SearchType::Match,
            None,
        )
        .unwrap();
    assert_eq!(hits.len(), 2);
}

#[test]
fn glob_dialect() {
    let mut db = memory_db();
    db.save_results(vec![
        result("/t/1.png", 10, "haystack haystack haystack"),
        result("/t/2.png", 10, "haystack haystack needle"),
        result("/t/3.png", 10, "haystack hayneedle haystack"),
    ])
    .unwrap();
    let hits = db
        .search(&vec!["*need*".to_string()], "/", 10, SearchType::Glob, None)
        .unwrap();
    assert_eq!(hits.len(), 2);
}

#[test]
fn regex_dialect() {
    let mut db = memory_db();
    db.save_results(vec![
        result("/t/1.png", 10, "haystack haystack haystack"),
        result("/t/2.png", 10, "haystack haystack needle"),
        result("/t/3.png", 10, "haystack hayneedle haystack"),
    ])
    .unwrap();
    let anchored = db
        .search(&vec!["nee.le$".to_string()], "/", 10, SearchType::Regex, None)
        .unwrap();
    assert_eq!(anchored.len(), 1);
    assert_eq!(anchored[0].path, "/t/2.png");
    let anywhere = db
        .search(&vec!["nee.le".to_string()], "/", 10, SearchType::Regex, None)
        .unwrap();
    assert_eq!(anywhere.len(), 2);
}

#[test]
fn bad_regex_is_query_parse() {
    let db = memory_db();
    let e = db
        .search(&vec!["(".to_string()], "/", 10, SearchType::Regex, None)
        .unwrap_err();
    assert!(matches!(e, StoreError::QueryParse(_)));
    assert!(e.message().contains("parse"));
}

#[test]
fn bad_exclusion_glob_is_query_parse() {
    let db = memory_db();
    let e = db
        .search(
            &vec!["needle".to_string()],
            "/",
            10,
            SearchType::Simple,
            Some("a[".to_string()),
        )
        .unwrap_err();
    assert!(matches!(e, StoreError::QueryParse(_)));
}

#[test]
fn bad_match_expression_is_store_read() {
    let mut db = memory_db();
    db.save_results(vec![result("/t/a.png", 1, "needle")]).unwrap();
    // The full-text dialect's expressions are parsed by the store itself,
    // so a malformed one surfaces as a store read error, not QueryParse.
    let e = db
        .search(&vec!["AND".to_string(), "AND".to_string()], "/", 10, SearchType::Match, None)
        .unwrap_err();
    assert!(matches!(e, StoreError::StoreRead(_)));
}

#[test]
fn exclusion_glob() {
    let mut db = memory_db();
    db.save_results(vec![
        result("/t/a.png", 10, "needle"),
        result("/t/skipme/b.png", 10, "needle"),
    ])
    .unwrap();
    let hits = db
        .search(
            &vec!["needle".to_string()],
            "/",
            10,
            SearchType::Simple,
            Some("*/skipme".to_string()),
        )
        .unwrap();
    assert_eq!(hits.len(), 1);
    assert_eq!(hits[0].path, "/t/a.png");
}

#[test]
fn snippet_highlights_match() {
    let mut db = memory_db();
    db.save_results(vec![result("/t/a.png", 10, "haystack needle haystack")]).unwrap();
    let hits = db
        .search(&vec!["needle".to_string()], "/", 10, SearchType::Simple, None)
        .unwrap();
    assert_eq!(hits.len(), 1);
    assert!(hits[0].contents.contains("[needle]"));
}
