//! A local image-text index: incremental OCR indexing and full-text search
//! over a persistent store, keyed by file path.

pub mod db;
pub mod index;
pub mod laws;
pub mod like;
pub mod ocr;
pub mod query;
pub mod text;
