//! The file extension that belongs to a reported content type.

use vstd::prelude::*;

verus! {

/// Extension, with its leading dot, for the content type `content_type`.
/// The table is matched on the whole value, letter for letter; a type that is
/// not in it, like a missing one, gives `.mp4`.
pub open spec fn extension_of(content_type: Option<Seq<char>>) -> Seq<char> {
    match content_type {
        None => ".mp4"@,
        Some(ct) => {
            if ct == "video/x-flv"@ {
                ".flv"@
            } else if ct == "video/mp4"@ {
                ".mp4"@
            } else if ct == "application/x-mpegURL"@ {
                ".m3u8"@
            } else if ct == "video/MP2T"@ {
                ".ts"@
            } else if ct == "video/3gpp"@ {
                ".3gpp"@
            } else if ct == "video/quicktime"@ {
                ".mov"@
            } else if ct == "video/x-msvideo"@ {
                ".avi"@
            } else if ct == "video/x-ms-wmv"@ {
                ".wmv"@
            } else if ct == "audio/x-wav"@ {
                ".wav"@
            } else if ct == "audio/x-mp3"@ {
                ".mp3"@
            } else if ct == "audio/mp4"@ {
                ".mp4"@
            } else if ct == "application/ogg"@ {
                ".ogg"@
            } else if ct == "image/jpeg"@ {
                ".jpeg"@
            } else if ct == "image/png"@ {
                ".png"@
            } else if ct == "image/tiff"@ {
                ".tiff"@
            } else if ct == "image/gif"@ {
                ".gif"@
            } else if ct == "image/svg+xml"@ {
                ".svg"@
            } else {
                ".mp4"@
            }
        },
    }
}

/// The characters of an optional string.
pub open spec fn opt_chars(s: Option<&str>) -> Option<Seq<char>> {
    match s {
        Some(s) => Some(s@),
        None => None,
    }
}

/// Looks up the file extension for a content type.
pub fn file_extension(content_type: Option<&str>) -> (ext: &'static str)
    ensures
        ext@ == extension_of(opt_chars(content_type)),
{
    match content_type {
        None => ".mp4",
        Some(ct) => {
            if ct.eq("video/x-flv") {
                ".flv"
            } else if ct.eq("video/mp4") {
                ".mp4"
            } else if ct.eq("application/x-mpegURL") {
                ".m3u8"
            } else if ct.eq("video/MP2T") {
                ".ts"
            } else if ct.eq("video/3gpp") {
                ".3gpp"
            } else if ct.eq("video/quicktime") {
                ".mov"
            } else if ct.eq("video/x-msvideo") {
                ".avi"
            } else if ct.eq("video/x-ms-wmv") {
                ".wmv"
            } else if ct.eq("audio/x-wav") {
                ".wav"
            } else if ct.eq("audio/x-mp3") {
                ".mp3"
            } else if ct.eq("audio/mp4") {
                ".mp4"
            } else if ct.eq("application/ogg") {
                ".ogg"
            } else if ct.eq("image/jpeg") {
                ".jpeg"
            } else if ct.eq("image/png") {
                ".png"
            } else if ct.eq("image/tiff") {
                ".tiff"
            } else if ct.eq("image/gif") {
                ".gif"
            } else if ct.eq("image/svg+xml") {
                ".svg"
            } else {
                ".mp4"
            }
        },
    }
}

/// An extension as the table gives it: a dot, then characters that are
/// neither a dot nor a `/`.
pub open spec fn is_extension(ext: Seq<char>) -> bool {
    &&& ext.len() > 1
    &&& ext[0] == '.'
    &&& forall|i: int| 0 <= i < ext.len() ==> ext[i] != '/'
    &&& forall|i: int| 1 <= i < ext.len() ==> ext[i] != '.'
}

/// Whatever the content type, the table gives an extension.
pub proof fn lemma_extension_shape(content_type: Option<Seq<char>>)
    ensures
        is_extension(extension_of(content_type)),
{
    reveal_strlit(".flv");
    reveal_strlit(".mp4");
    reveal_strlit(".m3u8");
    reveal_strlit(".ts");
    reveal_strlit(".3gpp");
    reveal_strlit(".mov");
    reveal_strlit(".avi");
    reveal_strlit(".wmv");
    reveal_strlit(".wav");
    reveal_strlit(".mp3");
    reveal_strlit(".ogg");
    reveal_strlit(".jpeg");
    reveal_strlit(".png");
    reveal_strlit(".tiff");
    reveal_strlit(".gif");
    reveal_strlit(".svg");
}

} // verus!
