//! Container detection for choosing how to stream a file.
use vstd::prelude::*;

use crate::media_info::{bytes_at, ebml_magic, has_tag_at, tag};
use crate::torrent::InfoHash;

verus! {

/// Errors of the streaming strategies.
#[derive(Debug)]
pub enum StreamingError {
    /// The container format cannot be streamed.
    UnsupportedFormat { format: String },
    /// The container format could not be detected from the headers.
    FormatDetectionFailed,
    /// Remuxing the container failed.
    RemuxingFailed { reason: String },
    /// No piece data is available for the torrent.
    PieceDataUnavailable { info_hash: InfoHash },
    /// The requested byte range `start..end` is invalid.
    InvalidRange { start: u64, end: u64 },
    /// Pieces needed to rebuild the file are missing.
    MissingPieces { missing: Vec<u32>, total: u32 },
    /// Piece data could not be read or stored.
    PieceStorageError { reason: String },
    /// An I/O operation on a path failed.
    IoError { operation: String, path: String, source: std::io::Error },
    /// FFmpeg reported an error.
    FfmpegError { reason: String },
}

/// Container format detected from file headers.
#[derive(Debug, Clone, Copy, PartialEq, Eq, Structural)]
pub enum ContainerFormat {
    /// MPEG-4 Part 14.
    Mp4,
    /// WebM.
    WebM,
    /// Matroska.
    Mkv,
    /// Audio Video Interleave.
    Avi,
    /// QuickTime.
    Mov,
    /// Not recognised.
    Unknown,
}

/// The MIME type served for a format; unknown formats are served as MP4.
pub open spec fn served_mime(f: ContainerFormat) -> Seq<char> {
    match f {
        ContainerFormat::Mp4 => "video/mp4"@,
        ContainerFormat::WebM => "video/webm"@,
        ContainerFormat::Mkv => "video/x-matroska"@,
        ContainerFormat::Avi => "video/x-msvideo"@,
        ContainerFormat::Mov => "video/quicktime"@,
        ContainerFormat::Unknown => "video/mp4"@,
    }
}

impl ContainerFormat {
    /// Whether browsers play the format directly: MP4 and WebM.
    pub fn is_browser_compatible(&self) -> (b: bool)
        ensures
            b == (*self == ContainerFormat::Mp4 || *self == ContainerFormat::WebM),
    {
        matches!(self, ContainerFormat::Mp4 | ContainerFormat::WebM)
    }

    /// The MIME type for HTTP responses (see `served_mime`).
    pub fn mime_type(&self) -> (s: &'static str)
        ensures
            s@ == served_mime(*self),
    {
        match self {
            ContainerFormat::Mp4 => "video/mp4",
            ContainerFormat::WebM => "video/webm",
            ContainerFormat::Mkv => "video/x-matroska",
            ContainerFormat::Avi => "video/x-msvideo",
            ContainerFormat::Mov => "video/quicktime",
            ContainerFormat::Unknown => "video/mp4",
        }
    }
}

/// Whether the brand at offset 8 of an `ftyp` box is an MP4 brand.
pub open spec fn mp4_brand(data: Seq<u8>) -> bool {
    ||| has_tag_at(data, 8, tag('m', 'p', '4', '1'))
    ||| has_tag_at(data, 8, tag('m', 'p', '4', '2'))
    ||| has_tag_at(data, 8, tag('i', 's', 'o', 'm'))
    ||| has_tag_at(data, 8, tag('a', 'v', 'c', '1'))
}

/// Whether `webm` first occurs in the header before offset 100.
pub open spec fn early_webm_doctype(data: Seq<u8>) -> bool {
    exists|i: int| 0 <= i < 100 && #[trigger] has_tag_at(data, i, tag('w', 'e', 'b', 'm'))
}

/// The format a header shows: fewer than 16 bytes are unknown; an `ftyp`
/// box with an MP4 brand is MP4; the EBML magic is WebM when `webm` occurs
/// before offset 100, else Matroska; `RIFF` with `AVI ` at offset 8 is AVI;
/// an `ftyp` box with the `qt  ` brand is QuickTime; anything else unknown.
pub open spec fn header_format(data: Seq<u8>) -> ContainerFormat {
    if data.len() < 16 {
        ContainerFormat::Unknown
    } else if has_tag_at(data, 4, tag('f', 't', 'y', 'p')) && mp4_brand(data) {
        ContainerFormat::Mp4
    } else if data.subrange(0, 4) == ebml_magic() {
        if early_webm_doctype(data) {
            ContainerFormat::WebM
        } else {
            ContainerFormat::Mkv
        }
    } else if has_tag_at(data, 0, tag('R', 'I', 'F', 'F')) && has_tag_at(data, 8, tag('A', 'V', 'I', ' ')) {
        ContainerFormat::Avi
    } else if has_tag_at(data, 4, tag('f', 't', 'y', 'p')) && has_tag_at(data, 8, tag('q', 't', ' ', ' ')) {
        ContainerFormat::Mov
    } else {
        ContainerFormat::Unknown
    }
}

proof fn reveal_brands()
    ensures
        tag('f', 't', 'y', 'p') == seq![0x66u8, 0x74u8, 0x79u8, 0x70u8],
        tag('m', 'p', '4', '1') == seq![0x6Du8, 0x70u8, 0x34u8, 0x31u8],
        tag('m', 'p', '4', '2') == seq![0x6Du8, 0x70u8, 0x34u8, 0x32u8],
        tag('i', 's', 'o', 'm') == seq![0x69u8, 0x73u8, 0x6Fu8, 0x6Du8],
        tag('a', 'v', 'c', '1') == seq![0x61u8, 0x76u8, 0x63u8, 0x31u8],
        tag('w', 'e', 'b', 'm') == seq![0x77u8, 0x65u8, 0x62u8, 0x6Du8],
        tag('R', 'I', 'F', 'F') == seq![0x52u8, 0x49u8, 0x46u8, 0x46u8],
        tag('A', 'V', 'I', ' ') == seq![0x41u8, 0x56u8, 0x49u8, 0x20u8],
        tag('q', 't', ' ', ' ') == seq![0x71u8, 0x74u8, 0x20u8, 0x20u8],
        ebml_magic() == seq![0x1Au8, 0x45u8, 0xDFu8, 0xA3u8],
{
}

/// Detects container formats from file headers.
pub struct ContainerDetector;

impl ContainerDetector {
    /// The format a file's first bytes show (see `header_format`).
    pub fn detect_format(header_bytes: &[u8]) -> (f: ContainerFormat)
        ensures
            f == header_format(header_bytes@),
    {
        proof {
            reveal_brands();
        }
        if header_bytes.len() < 16 {
            return ContainerFormat::Unknown;
        }
        let ftyp = bytes_at(header_bytes, 4, 0x66, 0x74, 0x79, 0x70);
        if ftyp {
            if bytes_at(header_bytes, 8, 0x6D, 0x70, 0x34, 0x31)
                || bytes_at(header_bytes, 8, 0x6D, 0x70, 0x34, 0x32)
                || bytes_at(header_bytes, 8, 0x69, 0x73, 0x6F, 0x6D)
                || bytes_at(header_bytes, 8, 0x61, 0x76, 0x63, 0x31) {
                return ContainerFormat::Mp4;
            }
        }
        if bytes_at(header_bytes, 0, 0x1A, 0x45, 0xDF, 0xA3) {
            let mut i: usize = 0;
            while i < 100
                invariant
                    i <= 100,
                    forall|j: int| 0 <= j < i ==> !has_tag_at(header_bytes@, j, tag('w', 'e', 'b', 'm')),
                    header_format(header_bytes@) == (if early_webm_doctype(header_bytes@) { ContainerFormat::WebM } else { ContainerFormat::Mkv }),
                    tag('w', 'e', 'b', 'm') == seq![0x77u8, 0x65u8, 0x62u8, 0x6Du8],
                decreases 100 - i,
            {
                if bytes_at(header_bytes, i, 0x77, 0x65, 0x62, 0x6D) {
                    assert(has_tag_at(header_bytes@, i as int, tag('w', 'e', 'b', 'm')));
                    return ContainerFormat::WebM;
                }
                i = i + 1;
            }
            return ContainerFormat::Mkv;
        }
        if bytes_at(header_bytes, 0, 0x52, 0x49, 0x46, 0x46) && bytes_at(header_bytes, 8, 0x41, 0x56, 0x49, 0x20) {
            return ContainerFormat::Avi;
        }
        if ftyp && bytes_at(header_bytes, 8, 0x71, 0x74, 0x20, 0x20) {
            return ContainerFormat::Mov;
        }
        ContainerFormat::Unknown
    }
}

} // verus!
