//! Core of a file-backed article index: identifiers and timestamps, a
//! parse-and-render pipeline that turns raw post files into immutable
//! rendered documents, a multi-index in-memory store over those documents,
//! and the classification and mutation steps of the filesystem-event
//! pipeline that keeps the store in sync with a directory of post files.

pub mod codeblock;
pub mod crawler;
pub mod db;
pub mod decode;
pub mod error;
pub mod header;
pub mod id;
pub mod pipeline;
pub mod post;
pub mod render;
pub mod source;
pub mod text;
pub mod time;
pub mod uuid;
