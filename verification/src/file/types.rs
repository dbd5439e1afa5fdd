//! File extension lookups: MIME types and preview kinds.

use vstd::prelude::*;
use crate::text::{
    after_last, after_last_exec, chars_eq, chars_of, lowercase, lowercase_exec, replace_char,
    replace_char_exec,
};

verus! {

broadcast use vstd::string::group_string_axioms;

/// Largest text file shown in a preview.
pub const TEXT_PREVIEW_MAX_BYTES: usize = 256 * 1024;

/// Largest image shown in a preview.
pub const IMAGE_PREVIEW_MAX_BYTES: usize = 10 * 1024 * 1024;

/// Largest `.docx` document shown in a preview.
pub const DOCX_PREVIEW_MAX_BYTES: usize = 10 * 1024 * 1024;

/// Kind of document preview.
#[derive(Debug, Clone, Copy, PartialEq, Eq, Structural)]
pub enum DocumentPreviewKind {
    Pdf,
    Docx,
}

/// MIME type of an image extension.
pub open spec fn image_mime_spec(ext: Seq<char>) -> Option<Seq<char>> {
    if ext == "png"@ {
        Some("image/png"@)
    } else if ext == "jpg"@ || ext == "jpeg"@ {
        Some("image/jpeg"@)
    } else if ext == "gif"@ {
        Some("image/gif"@)
    } else if ext == "webp"@ {
        Some("image/webp"@)
    } else if ext == "svg"@ {
        Some("image/svg+xml"@)
    } else if ext == "bmp"@ {
        Some("image/bmp"@)
    } else if ext == "ico"@ {
        Some("image/x-icon"@)
    } else if ext == "avif"@ {
        Some("image/avif"@)
    } else {
        None
    }
}

/// MIME type of an audio extension.
pub open spec fn audio_mime_spec(ext: Seq<char>) -> Option<Seq<char>> {
    if ext == "mp3"@ {
        Some("audio/mpeg"@)
    } else if ext == "wav"@ {
        Some("audio/wav"@)
    } else if ext == "ogg"@ || ext == "oga"@ || ext == "opus"@ {
        Some("audio/ogg"@)
    } else if ext == "m4a"@ {
        Some("audio/mp4"@)
    } else if ext == "aac"@ {
        Some("audio/aac"@)
    } else if ext == "flac"@ {
        Some("audio/flac"@)
    } else if ext == "weba"@ || ext == "webm"@ {
        Some("audio/webm"@)
    } else {
        None
    }
}

/// MIME type of a previewable document extension.
pub open spec fn document_mime_spec(ext: Seq<char>) -> Option<Seq<char>> {
    if ext == "pdf"@ {
        Some("application/pdf"@)
    } else if ext == "docx"@ {
        Some("application/vnd.openxmlformats-officedocument.wordprocessingml.document"@)
    } else {
        None
    }
}

/// Preview kind of a document extension.
pub open spec fn preview_kind_spec(ext: Seq<char>) -> Option<DocumentPreviewKind> {
    if ext == "pdf"@ {
        Some(DocumentPreviewKind::Pdf)
    } else if ext == "docx"@ {
        Some(DocumentPreviewKind::Docx)
    } else {
        None
    }
}

/// The view of an optional static string.
pub open spec fn opt_static_view(o: Option<&'static str>) -> Option<Seq<char>> {
    match o {
        Some(s) => Some(s@),
        None => None,
    }
}

/// Last segment of a path, `\` counting as a separator too.
pub open spec fn base_name_spec(p: Seq<char>) -> Seq<char> {
    after_last(replace_char(p, '\\', '/'), '/')
}

/// Extension of a path: what follows the last `.` of its lowercased last
/// segment (the whole segment when there is no `.`).
pub open spec fn file_ext_spec(p: Seq<char>) -> Seq<char> {
    after_last(lowercase(base_name_spec(p)), '.')
}

fn is_word(v: &Vec<char>, w: &str) -> (b: bool)
    ensures
        b == (v@ == w@),
{
    let wv = chars_of(w);
    chars_eq(v, &wv)
}

fn image_mime(ext: &Vec<char>) -> (r: Option<&'static str>)
    ensures
        opt_static_view(r) == image_mime_spec(ext@),
{
    if is_word(ext, "png") {
        Some("image/png")
    } else if is_word(ext, "jpg") || is_word(ext, "jpeg") {
        Some("image/jpeg")
    } else if is_word(ext, "gif") {
        Some("image/gif")
    } else if is_word(ext, "webp") {
        Some("image/webp")
    } else if is_word(ext, "svg") {
        Some("image/svg+xml")
    } else if is_word(ext, "bmp") {
        Some("image/bmp")
    } else if is_word(ext, "ico") {
        Some("image/x-icon")
    } else if is_word(ext, "avif") {
        Some("image/avif")
    } else {
        None
    }
}

fn audio_mime(ext: &Vec<char>) -> (r: Option<&'static str>)
    ensures
        opt_static_view(r) == audio_mime_spec(ext@),
{
    if is_word(ext, "mp3") {
        Some("audio/mpeg")
    } else if is_word(ext, "wav") {
        Some("audio/wav")
    } else if is_word(ext, "ogg") || is_word(ext, "oga") || is_word(ext, "opus") {
        Some("audio/ogg")
    } else if is_word(ext, "m4a") {
        Some("audio/mp4")
    } else if is_word(ext, "aac") {
        Some("audio/aac")
    } else if is_word(ext, "flac") {
        Some("audio/flac")
    } else if is_word(ext, "weba") || is_word(ext, "webm") {
        Some("audio/webm")
    } else {
        None
    }
}

fn document_mime(ext: &Vec<char>) -> (r: Option<&'static str>)
    ensures
        opt_static_view(r) == document_mime_spec(ext@),
{
    if is_word(ext, "pdf") {
        Some("application/pdf")
    } else if is_word(ext, "docx") {
        Some("application/vnd.openxmlformats-officedocument.wordprocessingml.document")
    } else {
        None
    }
}

fn get_base_name(file_path: &str) -> (r: Vec<char>)
    ensures
        r@ == base_name_spec(file_path@),
{
    let p = chars_of(file_path);
    let q = replace_char_exec(&p, '\\', '/');
    after_last_exec(&q, '/')
}

fn file_ext_chars(file_path: &str) -> (r: Vec<char>)
    ensures
        r@ == file_ext_spec(file_path@),
{
    let base = get_base_name(file_path);
    let lower = lowercase_exec(&base);
    after_last_exec(&lower, '.')
}

/// Lowercase extension of a path.
pub fn get_file_ext(file_path: &str) -> (r: String)
    ensures
        r@ == file_ext_spec(file_path@),
{
    let e = file_ext_chars(file_path);
    crate::text::string_of(e.as_slice())
}

/// MIME type of an image path.
pub fn get_image_mime(file_path: &str) -> (r: Option<&'static str>)
    ensures
        opt_static_view(r) == image_mime_spec(file_ext_spec(file_path@)),
{
    image_mime(&file_ext_chars(file_path))
}

/// MIME type of an audio path.
pub fn get_audio_mime(file_path: &str) -> (r: Option<&'static str>)
    ensures
        opt_static_view(r) == audio_mime_spec(file_ext_spec(file_path@)),
{
    audio_mime(&file_ext_chars(file_path))
}

/// MIME type of a previewable document path.
pub fn get_document_mime(file_path: &str) -> (r: Option<&'static str>)
    ensures
        opt_static_view(r) == document_mime_spec(file_ext_spec(file_path@)),
{
    document_mime(&file_ext_chars(file_path))
}

/// Preview kind of a document path (`.pdf` or `.docx`).
pub fn document_preview_kind(file_path: &str) -> (r: Option<DocumentPreviewKind>)
    ensures
        r == preview_kind_spec(file_ext_spec(file_path@)),
{
    let e = file_ext_chars(file_path);
    if is_word(&e, "pdf") {
        Some(DocumentPreviewKind::Pdf)
    } else if is_word(&e, "docx") {
        Some(DocumentPreviewKind::Docx)
    } else {
        None
    }
}

/// The path has an image extension.
pub fn is_image_path(file_path: &str) -> (b: bool)
    ensures
        b == image_mime_spec(file_ext_spec(file_path@)) is Some,
{
    get_image_mime(file_path).is_some()
}

/// The path has an audio extension.
pub fn is_audio_path(file_path: &str) -> (b: bool)
    ensures
        b == audio_mime_spec(file_ext_spec(file_path@)) is Some,
{
    get_audio_mime(file_path).is_some()
}

/// The path has a previewable document extension.
pub fn is_document_preview_path(file_path: &str) -> (b: bool)
    ensures
        b == preview_kind_spec(file_ext_spec(file_path@)) is Some,
{
    document_preview_kind(file_path).is_some()
}

} // verus!
