use vstd::prelude::*;
use vstd::string::*;

use crate::media::MediaMeta;
use crate::text::{decimal, lower_of, lowercase, push_decimal, push_str};

verus! {

/// A file taken into the cache: its new asset id, where it now is, and
/// what it holds.
pub struct IngestResult {
    pub asset_id: String,
    pub file_path: String,
    pub metadata: MediaMeta,
}

/// The files to take in.
pub struct IngestRequest {
    pub file_paths: Vec<String>,
}

/// What the extension of a path is, as `Path::extension` gives it; empty
/// when there is none.
pub uninterp spec fn extension_of(path: Seq<char>) -> Seq<char>;

/// Relies on `Path::extension`: the extension of a path's file name, read
/// back as text (a `&str` path always reads back), or "" when it has none.
#[verifier::external_body]
fn path_extension(path: &str) -> (r: String)
    ensures
        r@ == extension_of(path@),
{
    std::path::Path::new(path).extension().and_then(|e| e.to_str()).unwrap_or("").to_string()
}

/// The kind of media that a lowercase extension names, if any.
pub open spec fn media_kind(ext: Seq<char>) -> Option<Seq<char>> {
    if ext == "mp4"@ || ext == "mov"@ || ext == "avi"@ || ext == "mkv"@ || ext == "webm"@ || ext == "m4v"@ {
        Some("video"@)
    } else if ext == "mp3"@ || ext == "wav"@ || ext == "aac"@ || ext == "flac"@ || ext == "ogg"@ || ext == "m4a"@ {
        Some("audio"@)
    } else if ext == "jpg"@ || ext == "jpeg"@ || ext == "png"@ || ext == "gif"@ || ext == "bmp"@ || ext == "webp"@ {
        Some("image"@)
    } else {
        None
    }
}

fn is_one_of(s: &String, a: &str, b: &str, c: &str, d: &str, e: &str, f: &str) -> (r: bool)
    ensures
        r == (s@ == a@ || s@ == b@ || s@ == c@ || s@ == d@ || s@ == e@ || s@ == f@),
{
    *s == String::from_str(a) || *s == String::from_str(b) || *s == String::from_str(c)
        || *s == String::from_str(d) || *s == String::from_str(e) || *s == String::from_str(f)
}

/// The kind of media ("video", "audio" or "image") that the lowercase
/// extension `ext` names, or the message that it is not supported.
pub fn file_type_for_extension(ext: &String) -> (r: Result<String, String>)
    ensures
        match r {
            Ok(kind) => media_kind(ext@) == Some(kind@),
            Err(m) => media_kind(ext@) is None && m@ == "Unsupported file type: "@ + ext@,
        },
{
    if is_one_of(ext, "mp4", "mov", "avi", "mkv", "webm", "m4v") {
        Ok(String::from_str("video"))
    } else if is_one_of(ext, "mp3", "wav", "aac", "flac", "ogg", "m4a") {
        Ok(String::from_str("audio"))
    } else if is_one_of(ext, "jpg", "jpeg", "png", "gif", "bmp", "webp") {
        Ok(String::from_str("image"))
    } else {
        let mut m = String::from_str("Unsupported file type: ");
        push_str(&mut m, ext.as_str());
        Err(m)
    }
}

/// The kind of media at `path`, from its extension without regard to case.
pub fn get_file_type_from_path(path: &str) -> (r: Result<String, String>)
    ensures
        match r {
            Ok(kind) => media_kind(lower_of(extension_of(path@))) == Some(kind@),
            Err(m) => media_kind(lower_of(extension_of(path@))) is None
                && m@ == "Unsupported file type: "@ + lower_of(extension_of(path@)),
        },
{
    let ext = path_extension(path);
    let lower = lowercase(ext.as_str());
    file_type_for_extension(&lower)
}

/// The identifier of an asset taken in at `timestamp_ms` (milliseconds
/// since the Unix epoch).
pub fn generate_asset_id(timestamp_ms: u64) -> (r: String)
    ensures
        r@ == "asset_"@ + decimal(timestamp_ms as nat),
{
    let mut r = String::from_str("asset_");
    push_decimal(&mut r, timestamp_ms);
    r
}

} // verus!
