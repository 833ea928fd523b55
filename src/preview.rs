use vstd::prelude::*;
use vstd::utf8::encode_utf8;
use crate::text::{eq_folded, eq_folded_bytes};

verus! {

/// The media types that can be previewed inline.
#[derive(Debug, Clone, Copy, PartialEq, Eq, Structural)]
pub enum PreviewKind {
    Png,
    Jpeg,
    Gif,
    Webp,
    Bmp,
    Ico,
    Pdf,
    Mp4,
    Webm,
    Mov,
    M4v,
    Avi,
    Mkv,
    Wmv,
}

#[derive(Debug, Clone, Copy, PartialEq, Eq, Structural)]
pub enum PreviewError {
    /// The extension is not one of the previewable media types.
    Unsupported,
    /// The file is larger than its type's preview bound; holds the size.
    TooLarge(u64),
}

/// Standard-alphabet, padded Base64 of the bytes.
pub uninterp spec fn base64_standard(b: Seq<u8>) -> Seq<char>;

/// Relies on `base64::Engine::encode` with the `STANDARD` engine: the result
/// depends on the bytes alone, and padding makes it four characters for
/// every started group of three bytes. The length bound keeps the output
/// size computation (which panics on overflow) in range.
#[verifier::external_body]
fn encode_base64(b: &Vec<u8>) -> (r: String)
    requires
        b@.len() <= usize::MAX / 2,
    ensures
        r@ == base64_standard(b@),
        r@.len() == 4 * ((b@.len() + 2) / 3),
{
    base64::Engine::encode(&base64::engine::general_purpose::STANDARD, b)
}

pub open spec fn ext_is(e: Seq<u8>, lit: &str) -> bool {
    eq_folded(e, encode_utf8(lit@))
}

/// The preview kind of a file extension (without the dot), ignoring ASCII case.
pub open spec fn kind_of(e: Seq<u8>) -> Option<PreviewKind> {
    if ext_is(e, "png") {
        Some(PreviewKind::Png)
    } else if ext_is(e, "jpg") || ext_is(e, "jpeg") {
        Some(PreviewKind::Jpeg)
    } else if ext_is(e, "gif") {
        Some(PreviewKind::Gif)
    } else if ext_is(e, "webp") {
        Some(PreviewKind::Webp)
    } else if ext_is(e, "bmp") {
        Some(PreviewKind::Bmp)
    } else if ext_is(e, "ico") {
        Some(PreviewKind::Ico)
    } else if ext_is(e, "pdf") {
        Some(PreviewKind::Pdf)
    } else if ext_is(e, "mp4") {
        Some(PreviewKind::Mp4)
    } else if ext_is(e, "webm") {
        Some(PreviewKind::Webm)
    } else if ext_is(e, "mov") {
        Some(PreviewKind::Mov)
    } else if ext_is(e, "m4v") {
        Some(PreviewKind::M4v)
    } else if ext_is(e, "avi") {
        Some(PreviewKind::Avi)
    } else if ext_is(e, "mkv") {
        Some(PreviewKind::Mkv)
    } else if ext_is(e, "wmv") {
        Some(PreviewKind::Wmv)
    } else {
        None
    }
}

pub open spec fn is_video(k: PreviewKind) -> bool {
    match k {
        PreviewKind::Mp4 | PreviewKind::Webm | PreviewKind::Mov | PreviewKind::M4v | PreviewKind::Avi
        | PreviewKind::Mkv | PreviewKind::Wmv => true,
        _ => false,
    }
}

/// The largest file previewed inline: 8 MiB for documents, 20 MiB for
/// video, 12 MiB for images.
pub open spec fn max_bytes_of(k: PreviewKind) -> u64 {
    if k == PreviewKind::Pdf {
        8388608
    } else if is_video(k) {
        20971520
    } else {
        12582912
    }
}

pub open spec fn mime_of(k: PreviewKind) -> Seq<char> {
    match k {
        PreviewKind::Png => "image/png"@,
        PreviewKind::Jpeg => "image/jpeg"@,
        PreviewKind::Gif => "image/gif"@,
        PreviewKind::Webp => "image/webp"@,
        PreviewKind::Bmp => "image/bmp"@,
        PreviewKind::Ico => "image/x-icon"@,
        PreviewKind::Pdf => "application/pdf"@,
        PreviewKind::Mp4 => "video/mp4"@,
        PreviewKind::Webm => "video/webm"@,
        PreviewKind::Mov => "video/quicktime"@,
        PreviewKind::M4v => "video/x-m4v"@,
        PreviewKind::Avi => "video/x-msvideo"@,
        PreviewKind::Mkv => "video/x-matroska"@,
        PreviewKind::Wmv => "video/x-ms-wmv"@,
    }
}

/// A `data:` URL holding the bytes.
pub open spec fn data_url_of(k: PreviewKind, b: Seq<u8>) -> Seq<char> {
    "data:"@ + mime_of(k) + ";base64,"@ + base64_standard(b)
}

fn ext_matches(e: &Vec<u8>, lit: &str) -> (r: bool)
    ensures
        r == ext_is(e@, lit),
{
    let l = lit.as_bytes_vec();
    eq_folded_bytes(e, &l)
}

/// The preview kind of an extension given as UTF-8 bytes.
pub fn preview_kind(extension: &Vec<u8>) -> (r: Option<PreviewKind>)
    ensures
        r == kind_of(extension@),
{
    let e = extension;
    if ext_matches(e, "png") {
        Some(PreviewKind::Png)
    } else if ext_matches(e, "jpg") || ext_matches(e, "jpeg") {
        Some(PreviewKind::Jpeg)
    } else if ext_matches(e, "gif") {
        Some(PreviewKind::Gif)
    } else if ext_matches(e, "webp") {
        Some(PreviewKind::Webp)
    } else if ext_matches(e, "bmp") {
        Some(PreviewKind::Bmp)
    } else if ext_matches(e, "ico") {
        Some(PreviewKind::Ico)
    } else if ext_matches(e, "pdf") {
        Some(PreviewKind::Pdf)
    } else if ext_matches(e, "mp4") {
        Some(PreviewKind::Mp4)
    } else if ext_matches(e, "webm") {
        Some(PreviewKind::Webm)
    } else if ext_matches(e, "mov") {
        Some(PreviewKind::Mov)
    } else if ext_matches(e, "m4v") {
        Some(PreviewKind::M4v)
    } else if ext_matches(e, "avi") {
        Some(PreviewKind::Avi)
    } else if ext_matches(e, "mkv") {
        Some(PreviewKind::Mkv)
    } else if ext_matches(e, "wmv") {
        Some(PreviewKind::Wmv)
    } else {
        None
    }
}

pub fn max_preview_bytes(k: PreviewKind) -> (r: u64)
    ensures
        r == max_bytes_of(k),
{
    match k {
        PreviewKind::Pdf => 8388608,
        PreviewKind::Mp4 | PreviewKind::Webm | PreviewKind::Mov | PreviewKind::M4v | PreviewKind::Avi
        | PreviewKind::Mkv | PreviewKind::Wmv => 20971520,
        _ => 12582912,
    }
}

pub fn mime_type(k: PreviewKind) -> (r: &'static str)
    ensures
        r@ == mime_of(k),
{
    match k {
        PreviewKind::Png => "image/png",
        PreviewKind::Jpeg => "image/jpeg",
        PreviewKind::Gif => "image/gif",
        PreviewKind::Webp => "image/webp",
        PreviewKind::Bmp => "image/bmp",
        PreviewKind::Ico => "image/x-icon",
        PreviewKind::Pdf => "application/pdf",
        PreviewKind::Mp4 => "video/mp4",
        PreviewKind::Webm => "video/webm",
        PreviewKind::Mov => "video/quicktime",
        PreviewKind::M4v => "video/x-m4v",
        PreviewKind::Avi => "video/x-msvideo",
        PreviewKind::Mkv => "video/x-matroska",
        PreviewKind::Wmv => "video/x-ms-wmv",
    }
}

/// Decides whether a file with this extension and size is previewed.
pub fn check_preview(extension: &Vec<u8>, size: u64) -> (r: Result<PreviewKind, PreviewError>)
    ensures
        kind_of(extension@) is None ==> r == Err::<PreviewKind, PreviewError>(PreviewError::Unsupported),
        kind_of(extension@) matches Some(k) ==> (if size > max_bytes_of(k) {
            r == Err::<PreviewKind, PreviewError>(PreviewError::TooLarge(size))
        } else {
            r == Ok::<PreviewKind, PreviewError>(k)
        }),
{
    match preview_kind(extension) {
        None => Err(PreviewError::Unsupported),
        Some(k) => {
            if size > max_preview_bytes(k) {
                Err(PreviewError::TooLarge(size))
            } else {
                Ok(k)
            }
        },
    }
}

/// The `data:` URL of a file's bytes, for inline display.
pub fn preview_data_url(k: PreviewKind, bytes: &Vec<u8>) -> (r: String)
    requires
        bytes@.len() <= max_bytes_of(k),
    ensures
        r@ == data_url_of(k, bytes@),
{
    let encoded = encode_base64(bytes);
    let mut url = String::from_str("data:");
    url.append(mime_type(k));
    url.append(";base64,");
    url.append(encoded.as_str());
    url
}

} // verus!
