//! Data model: the fields of a metadata document that the decision logic
//! reads, as plain values, together with the error taxonomy.

use vstd::prelude::*;

verus! {

/// Which of the item's streams a download is meant to carry: the combined
/// stream, only the audio stream, or only the video stream.
#[derive(Clone, Copy, PartialEq, Eq, Structural, Debug)]
pub enum Role {
    Both,
    AudioOnly,
    VideoOnly,
}

/// The metadata field whose absence (or wrong shape) made an operation fail.
#[derive(Clone, Copy, PartialEq, Eq, Structural, Debug)]
pub enum SchemaField {
    Id,
    Title,
    Url,
    Ext,
    EntryUrl,
}

/// Why planning a download failed.
///
/// `Schema` covers a required metadata field that is missing;
/// `NoMatchingFormat` means no format survived the requested filters;
/// `UnescapeFailed` means the title held a malformed textual escape.
#[derive(Clone, Copy, PartialEq, Eq, Structural, Debug)]
pub enum PlanError {
    Schema(SchemaField),
    NoMatchingFormat,
    UnescapeFailed,
}

/// One HTTP header to hand on to a downloader. The value is kept as the
/// textual serialization of the metadata document's value, which may still
/// carry the quote characters of that serialization; they are stripped at
/// dispatch time.
pub struct HttpHeader {
    pub name: String,
    pub value: String,
}

/// One encoded variant of a media item, as the metadata document lists it.
pub struct FormatDescription {
    /// Identifier of the format, unique within an item's format list.
    pub format_id: String,
    /// Transport protocol; recognized families are a `"m3u8"` prefix, an
    /// `"http"` prefix, and the empty string (treated as http-equivalent).
    pub protocol: String,
    /// Container name; a container containing `"dash"` selects the
    /// adaptive HTTP-streaming client.
    pub container: String,
    /// File extension of the encoded stream.
    pub ext: String,
    /// Where the stream lives.
    pub url: String,
    /// Audio extension; `Some` and not `"none"` marks an audio-carrying
    /// format.
    pub audio_ext: Option<String>,
    /// Video extension; `Some` and not `"none"` marks a video-carrying
    /// format.
    pub video_ext: Option<String>,
    /// Headers to send when fetching the stream, if any.
    pub http_headers: Option<Vec<HttpHeader>>,
}

/// One media item. Either `formats` lists the encoded variants, or the
/// item's own top-level `url`/`ext`/`protocol`/`container`/`http_headers`
/// fields describe a single implicit format.
pub struct ItemDescription {
    pub id: Option<String>,
    pub title: Option<String>,
    pub fulltitle: Option<String>,
    pub formats: Option<Vec<FormatDescription>>,
    pub url: Option<String>,
    pub ext: Option<String>,
    pub protocol: Option<String>,
    pub container: Option<String>,
    pub http_headers: Option<Vec<HttpHeader>>,
}

/// The ghost value of an optional owned string field.
pub open spec fn opt_string(o: Option<String>) -> Option<Seq<char>> {
    match o {
        Some(s) => Some(s@),
        None => None,
    }
}

/// The headers of an optional header list: an absent field contributes
/// none.
pub open spec fn opt_headers(o: Option<Vec<HttpHeader>>) -> Seq<HttpHeader> {
    match o {
        Some(v) => v@,
        None => Seq::empty(),
    }
}

impl PlanError {
    /// A short human-readable description, for the driver's diagnostics.
    pub fn message(&self) -> (r: &'static str)
        ensures
            r@ == self.spec_message(),
    {
        match self {
            PlanError::Schema(SchemaField::Id) => "metadata lacks an id",
            PlanError::Schema(SchemaField::Title) => "metadata lacks a title",
            PlanError::Schema(SchemaField::Url) => "metadata lacks a url",
            PlanError::Schema(SchemaField::Ext) => "metadata lacks an ext",
            PlanError::Schema(SchemaField::EntryUrl) => "a playlist entry lacks a string url",
            PlanError::NoMatchingFormat => "no format matches the requested filters",
            PlanError::UnescapeFailed => "failed to unescape the title",
        }
    }

    /// What `message` returns, for use in contracts.
    pub open spec fn spec_message(&self) -> Seq<char> {
        match self {
            PlanError::Schema(SchemaField::Id) => "metadata lacks an id"@,
            PlanError::Schema(SchemaField::Title) => "metadata lacks a title"@,
            PlanError::Schema(SchemaField::Url) => "metadata lacks a url"@,
            PlanError::Schema(SchemaField::Ext) => "metadata lacks an ext"@,
            PlanError::Schema(SchemaField::EntryUrl) => "a playlist entry lacks a string url"@,
            PlanError::NoMatchingFormat => "no format matches the requested filters"@,
            PlanError::UnescapeFailed => "failed to unescape the title"@,
        }
    }
}

} // verus!
