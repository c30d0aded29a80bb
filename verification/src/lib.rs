//! Decision layer for media retrieval: given a structured metadata
//! description of a media item (or a playlist of items), pick the format(s)
//! to download, compute output filenames, and build the argument vector for
//! the right external downloader tool.
//!
//! The crate itself performs no I/O: it turns plain data into plain
//! decisions. A thin driver around it is expected to fetch metadata, parse
//! it into [`model::ItemDescription`] values, and run the external
//! downloader processes described by [`dispatch::Invocation`].

pub mod dispatch;
pub mod filename;
pub mod model;
pub mod plan;
pub mod playlist;
pub mod selector;
pub mod text;
