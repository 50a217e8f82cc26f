//! The static lookup from a file extension to the `Content-Type` header
//! value served for it; unknown extensions fall back to the generic binary
//! type.
use vstd::prelude::*;
use vstd::string::StringExecFns;

verus! {

use crate::utils::str_eq;

/// The MIME type registered for a file extension, with
/// `application/octet-stream` as the fallback for unknown extensions.
pub open spec fn spec_mime_of(ext: Seq<char>) -> Seq<char> {
    if ext == "aac"@ {
        "audio/aac"@
    } else
    if ext == "abw"@ {
        "application/x-abiword"@
    } else
    if ext == "arc"@ {
        "application/x-freearc"@
    } else
    if ext == "avif"@ {
        "image/avif"@
    } else
    if ext == "avi"@ {
        "video/x-msvideo"@
    } else
    if ext == "azw"@ {
        "application/vnd.amazon.ebook"@
    } else
    if ext == "bin"@ {
        "application/octet-stream"@
    } else
    if ext == "bmp"@ {
        "image/bmp"@
    } else
    if ext == "bz"@ {
        "application/x-bzip"@
    } else
    if ext == "bz2"@ {
        "application/x-bzip2"@
    } else
    if ext == "cda"@ {
        "application/x-cdf"@
    } else
    if ext == "csh"@ {
        "application/x-csh"@
    } else
    if ext == "css"@ {
        "text/css"@
    } else
    if ext == "csv"@ {
        "text/csv"@
    } else
    if ext == "doc"@ {
        "application/msword"@
    } else
    if ext == "docx"@ {
        "application/vnd.openxmlformats-officedocument.wordprocessingml.document"@
    } else
    if ext == "eot"@ {
        "application/vnd.ms-fontobject"@
    } else
    if ext == "epub"@ {
        "application/epub+zip"@
    } else
    if ext == "gz"@ {
        "application/gzip"@
    } else
    if ext == "gif"@ {
        "image/gif"@
    } else
    if ext == "htm"@ {
        "text/html"@
    } else
    if ext == "html"@ {
        "text/html"@
    } else
    if ext == "ico"@ {
        "image/vnd.microsoft.icon"@
    } else
    if ext == "ics"@ {
        "text/calendar"@
    } else
    if ext == "jar"@ {
        "application/java-archive"@
    } else
    if ext == "jpeg"@ {
        "image/jpeg"@
    } else
    if ext == "jpg"@ {
        "image/jpeg"@
    } else
    if ext == "js"@ {
        "text/javascript"@
    } else
    if ext == "json"@ {
        "application/json"@
    } else
    if ext == "jsonld"@ {
        "application/ld+json"@
    } else
    if ext == "mid"@ {
        "audio/midi"@
    } else
    if ext == "midi"@ {
        "audio/x-midi"@
    } else
    if ext == "mjs"@ {
        "text/javascript"@
    } else
    if ext == "mp3"@ {
        "audio/mpeg"@
    } else
    if ext == "mp4"@ {
        "video/mp4"@
    } else
    if ext == "mpeg"@ {
        "video/mpeg"@
    } else
    if ext == "mpkg"@ {
        "application/vnd.apple.installer+xml"@
    } else
    if ext == "odp"@ {
        "application/vnd.oasis.opendocument.presentation"@
    } else
    if ext == "ods"@ {
        "application/vnd.oasis.opendocument.spreadsheet"@
    } else
    if ext == "odt"@ {
        "application/vnd.oasis.opendocument.text"@
    } else
    if ext == "oga"@ {
        "audio/ogg"@
    } else
    if ext == "ogv"@ {
        "video/ogg"@
    } else
    if ext == "ogx"@ {
        "application/ogg"@
    } else
    if ext == "opus"@ {
        "audio/opus"@
    } else
    if ext == "otf"@ {
        "font/otf"@
    } else
    if ext == "png"@ {
        "image/png"@
    } else
    if ext == "pdf"@ {
        "application/pdf"@
    } else
    if ext == "php"@ {
        "application/x-httpd-php"@
    } else
    if ext == "ppt"@ {
        "application/vnd.ms-powerpoint"@
    } else
    if ext == "pptx"@ {
        "application/vnd.openxmlformats-officedocument.presentationml.presentation"@
    } else
    if ext == "rar"@ {
        "application/vnd.rar"@
    } else
    if ext == "rtf"@ {
        "application/rtf"@
    } else
    if ext == "sh"@ {
        "application/x-sh"@
    } else
    if ext == "svg"@ {
        "image/svg+xml"@
    } else
    if ext == "tar"@ {
        "application/x-tar"@
    } else
    if ext == "tif"@ {
        "image/tiff"@
    } else
    if ext == "tiff"@ {
        "image/tiff"@
    } else
    if ext == "ts"@ {
        "video/mp2t"@
    } else
    if ext == "ttf"@ {
        "video/mp2t"@
    } else
    if ext == "txt"@ {
        "text/plain"@
    } else
    if ext == "vsd"@ {
        "application/vnd.visio"@
    } else
    if ext == "wav"@ {
        "audio/wav"@
    } else
    if ext == "weba"@ {
        "audio/webm"@
    } else
    if ext == "webm"@ {
        "video/webm"@
    } else
    if ext == "webp"@ {
        "image/webp"@
    } else
    if ext == "woff"@ {
        "font/woff"@
    } else
    if ext == "woff2"@ {
        "font/woff2"@
    } else
    if ext == "xhtml"@ {
        "application/xhtml+xml"@
    } else
    if ext == "xls"@ {
        "application/vnd.ms-excel"@
    } else
    if ext == "xlsx"@ {
        "application/vnd.openxmlformats-officedocument.spreadsheetml.sheet"@
    } else
    if ext == "xml"@ {
        "application/xml"@
    } else
    if ext == "xul"@ {
        "application/vnd.mozilla.xul+xml"@
    } else
    if ext == "zip"@ {
        "application/zip"@
    } else
    if ext == "3gp"@ {
        "video/3gpp"@
    } else
    if ext == "3g2"@ {
        "video/3gpp2"@
    } else
    if ext == "7z"@ {
        "application/x-7z-compressed"@
    } else {
        "application/octet-stream"@
    }
}

/// The static extension-to-MIME-type lookup table.
pub struct MimeTypes;

impl MimeTypes {
    /// The lookup table; it is fixed, so there is nothing to build.
    pub fn new() -> (r: MimeTypes) {
        MimeTypes
    }

    /// The full `Content-Type` header value served for a file extension.
    pub fn get_content_type(&self, file_extension: &str) -> (r: String)
        ensures
            r@ == "Content-Type: "@ + spec_mime_of(file_extension@),
    {
        let mime: &str = if str_eq(file_extension, "aac") {
        "audio/aac"
    } else
    if str_eq(file_extension, "abw") {
        "application/x-abiword"
    } else
    if str_eq(file_extension, "arc") {
        "application/x-freearc"
    } else
    if str_eq(file_extension, "avif") {
        "image/avif"
    } else
    if str_eq(file_extension, "avi") {
        "video/x-msvideo"
    } else
    if str_eq(file_extension, "azw") {
        "application/vnd.amazon.ebook"
    } else
    if str_eq(file_extension, "bin") {
        "application/octet-stream"
    } else
    if str_eq(file_extension, "bmp") {
        "image/bmp"
    } else
    if str_eq(file_extension, "bz") {
        "application/x-bzip"
    } else
    if str_eq(file_extension, "bz2") {
        "application/x-bzip2"
    } else
    if str_eq(file_extension, "cda") {
        "application/x-cdf"
    } else
    if str_eq(file_extension, "csh") {
        "application/x-csh"
    } else
    if str_eq(file_extension, "css") {
        "text/css"
    } else
    if str_eq(file_extension, "csv") {
        "text/csv"
    } else
    if str_eq(file_extension, "doc") {
        "application/msword"
    } else
    if str_eq(file_extension, "docx") {
        "application/vnd.openxmlformats-officedocument.wordprocessingml.document"
    } else
    if str_eq(file_extension, "eot") {
        "application/vnd.ms-fontobject"
    } else
    if str_eq(file_extension, "epub") {
        "application/epub+zip"
    } else
    if str_eq(file_extension, "gz") {
        "application/gzip"
    } else
    if str_eq(file_extension, "gif") {
        "image/gif"
    } else
    if str_eq(file_extension, "htm") {
        "text/html"
    } else
    if str_eq(file_extension, "html") {
        "text/html"
    } else
    if str_eq(file_extension, "ico") {
        "image/vnd.microsoft.icon"
    } else
    if str_eq(file_extension, "ics") {
        "text/calendar"
    } else
    if str_eq(file_extension, "jar") {
        "application/java-archive"
    } else
    if str_eq(file_extension, "jpeg") {
        "image/jpeg"
    } else
    if str_eq(file_extension, "jpg") {
        "image/jpeg"
    } else
    if str_eq(file_extension, "js") {
        "text/javascript"
    } else
    if str_eq(file_extension, "json") {
        "application/json"
    } else
    if str_eq(file_extension, "jsonld") {
        "application/ld+json"
    } else
    if str_eq(file_extension, "mid") {
        "audio/midi"
    } else
    if str_eq(file_extension, "midi") {
        "audio/x-midi"
    } else
    if str_eq(file_extension, "mjs") {
        "text/javascript"
    } else
    if str_eq(file_extension, "mp3") {
        "audio/mpeg"
    } else
    if str_eq(file_extension, "mp4") {
        "video/mp4"
    } else
    if str_eq(file_extension, "mpeg") {
        "video/mpeg"
    } else
    if str_eq(file_extension, "mpkg") {
        "application/vnd.apple.installer+xml"
    } else
    if str_eq(file_extension, "odp") {
        "application/vnd.oasis.opendocument.presentation"
    } else
    if str_eq(file_extension, "ods") {
        "application/vnd.oasis.opendocument.spreadsheet"
    } else
    if str_eq(file_extension, "odt") {
        "application/vnd.oasis.opendocument.text"
    } else
    if str_eq(file_extension, "oga") {
        "audio/ogg"
    } else
    if str_eq(file_extension, "ogv") {
        "video/ogg"
    } else
    if str_eq(file_extension, "ogx") {
        "application/ogg"
    } else
    if str_eq(file_extension, "opus") {
        "audio/opus"
    } else
    if str_eq(file_extension, "otf") {
        "font/otf"
    } else
    if str_eq(file_extension, "png") {
        "image/png"
    } else
    if str_eq(file_extension, "pdf") {
        "application/pdf"
    } else
    if str_eq(file_extension, "php") {
        "application/x-httpd-php"
    } else
    if str_eq(file_extension, "ppt") {
        "application/vnd.ms-powerpoint"
    } else
    if str_eq(file_extension, "pptx") {
        "application/vnd.openxmlformats-officedocument.presentationml.presentation"
    } else
    if str_eq(file_extension, "rar") {
        "application/vnd.rar"
    } else
    if str_eq(file_extension, "rtf") {
        "application/rtf"
    } else
    if str_eq(file_extension, "sh") {
        "application/x-sh"
    } else
    if str_eq(file_extension, "svg") {
        "image/svg+xml"
    } else
    if str_eq(file_extension, "tar") {
        "application/x-tar"
    } else
    if str_eq(file_extension, "tif") {
        "image/tiff"
    } else
    if str_eq(file_extension, "tiff") {
        "image/tiff"
    } else
    if str_eq(file_extension, "ts") {
        "video/mp2t"
    } else
    if str_eq(file_extension, "ttf") {
        "video/mp2t"
    } else
    if str_eq(file_extension, "txt") {
        "text/plain"
    } else
    if str_eq(file_extension, "vsd") {
        "application/vnd.visio"
    } else
    if str_eq(file_extension, "wav") {
        "audio/wav"
    } else
    if str_eq(file_extension, "weba") {
        "audio/webm"
    } else
    if str_eq(file_extension, "webm") {
        "video/webm"
    } else
    if str_eq(file_extension, "webp") {
        "image/webp"
    } else
    if str_eq(file_extension, "woff") {
        "font/woff"
    } else
    if str_eq(file_extension, "woff2") {
        "font/woff2"
    } else
    if str_eq(file_extension, "xhtml") {
        "application/xhtml+xml"
    } else
    if str_eq(file_extension, "xls") {
        "application/vnd.ms-excel"
    } else
    if str_eq(file_extension, "xlsx") {
        "application/vnd.openxmlformats-officedocument.spreadsheetml.sheet"
    } else
    if str_eq(file_extension, "xml") {
        "application/xml"
    } else
    if str_eq(file_extension, "xul") {
        "application/vnd.mozilla.xul+xml"
    } else
    if str_eq(file_extension, "zip") {
        "application/zip"
    } else
    if str_eq(file_extension, "3gp") {
        "video/3gpp"
    } else
    if str_eq(file_extension, "3g2") {
        "video/3gpp2"
    } else
    if str_eq(file_extension, "7z") {
        "application/x-7z-compressed"
    } else {
        "application/octet-stream"
    };
        proof {
            assert(mime@ == spec_mime_of(file_extension@));
        }
        String::from_str("Content-Type: ").concat(mime)
    }
}

} // verus!
