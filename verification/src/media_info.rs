//! Container format detection from file headers, and what a format means
//! for browser streaming.
use vstd::prelude::*;

use crate::remux::types::ContainerFormat;

verus! {

/// Errors of format detection.
#[derive(Debug, Clone, Copy, PartialEq, Eq, Structural)]
pub enum MediaInfoError {
    /// Fewer header bytes than detection needs; holds how many were given.
    InsufficientData(usize),
    /// The format was not recognised.
    UnknownFormat,
}

/// Header bytes needed for format detection.
pub const MIN_DETECTION_BYTES: usize = 12;

/// The four bytes `a b c d`.
pub open spec fn tag(a: char, b: char, c: char, d: char) -> Seq<u8> {
    seq![a as u8, b as u8, c as u8, d as u8]
}

/// Whether `data` holds the four bytes `t` at offset `at`.
pub open spec fn has_tag_at(data: Seq<u8>, at: int, t: Seq<u8>) -> bool {
    &&& 0 <= at
    &&& at + 4 <= data.len()
    &&& data.subrange(at, at + 4) == t
}

/// The EBML magic number that opens Matroska and WebM files.
pub open spec fn ebml_magic() -> Seq<u8> {
    seq![0x1Au8, 0x45u8, 0xDFu8, 0xA3u8]
}

/// Whether the box type at offset 4 is one that opens an MP4 or QuickTime file.
pub open spec fn iso_box_at_start(data: Seq<u8>) -> bool {
    ||| has_tag_at(data, 4, tag('f', 't', 'y', 'p'))
    ||| has_tag_at(data, 4, tag('m', 'o', 'o', 'v'))
    ||| has_tag_at(data, 4, tag('m', 'd', 'a', 't'))
    ||| has_tag_at(data, 4, tag('f', 'r', 'e', 'e'))
    ||| has_tag_at(data, 4, tag('s', 'k', 'i', 'p'))
    ||| has_tag_at(data, 4, tag('w', 'i', 'd', 'e'))
}

/// Whether `webm` occurs within bytes 24 to 40 of the header.
pub open spec fn webm_doctype_in_header(data: Seq<u8>) -> bool {
    exists|i: int| 24 <= i <= 36 && #[trigger] has_tag_at(data, i, tag('w', 'e', 'b', 'm'))
}

/// The format a header of at least twelve bytes shows: an ISO box type at
/// offset 4 is QuickTime when the brand at offset 8 starts with `qt`, else
/// MP4; the EBML magic is WebM when the doctype `webm` appears in bytes
/// 24 to 40 (of a header of at least 40 bytes), else Matroska; `RIFF` with
/// `AVI ` at offset 8 is AVI; anything else is unknown.
pub open spec fn detected_format(data: Seq<u8>) -> ContainerFormat {
    if iso_box_at_start(data) {
        if data[8] == 'q' as u8 && data[9] == 't' as u8 {
            ContainerFormat::Mov
        } else {
            ContainerFormat::Mp4
        }
    } else if data.subrange(0, 4) == ebml_magic() {
        if data.len() >= 40 && webm_doctype_in_header(data) {
            ContainerFormat::WebM
        } else {
            ContainerFormat::Mkv
        }
    } else if has_tag_at(data, 0, tag('R', 'I', 'F', 'F')) && has_tag_at(data, 8, tag('A', 'V', 'I', ' ')) {
        ContainerFormat::Avi
    } else {
        ContainerFormat::Unknown
    }
}

/// Whether `data` holds the bytes `a b c d` at offset `at`.
pub(crate) fn bytes_at(data: &[u8], at: usize, a: u8, b: u8, c: u8, d: u8) -> (r: bool)
    ensures
        r == has_tag_at(data@, at as int, seq![a, b, c, d]),
{
    if at > data.len() || data.len() - at < 4 {
        return false;
    }
    let r = data[at] == a && data[at + 1] == b && data[at + 2] == c && data[at + 3] == d;
    proof {
        if r {
            assert(data@.subrange(at as int, at + 4) =~= seq![a, b, c, d]);
        } else {
            let s = data@.subrange(at as int, at + 4);
            if s == seq![a, b, c, d] {
                assert(s[0] == a && s[1] == b && s[2] == c && s[3] == d);
            }
        }
    }
    r
}

/// Detects the container format from a file's first bytes (see
/// `detected_format`); fewer than twelve bytes cannot be judged.
pub fn detect_container_format(data: &[u8]) -> (r: Result<ContainerFormat, MediaInfoError>)
    ensures
        data@.len() < 12 ==> r == Err::<ContainerFormat, MediaInfoError>(MediaInfoError::InsufficientData(data@.len() as usize)),
        data@.len() >= 12 ==> r == Ok::<ContainerFormat, MediaInfoError>(detected_format(data@)),
{
    if data.len() < MIN_DETECTION_BYTES {
        return Err(MediaInfoError::InsufficientData(data.len()));
    }
    let iso = bytes_at(data, 4, 0x66, 0x74, 0x79, 0x70)
        || bytes_at(data, 4, 0x6D, 0x6F, 0x6F, 0x76)
        || bytes_at(data, 4, 0x6D, 0x64, 0x61, 0x74)
        || bytes_at(data, 4, 0x66, 0x72, 0x65, 0x65)
        || bytes_at(data, 4, 0x73, 0x6B, 0x69, 0x70)
        || bytes_at(data, 4, 0x77, 0x69, 0x64, 0x65);
    proof {
        reveal_tags();
    }
    if iso {
        if data[8] == 0x71 && data[9] == 0x74 {
            return Ok(ContainerFormat::Mov);
        }
        return Ok(ContainerFormat::Mp4);
    }
    if bytes_at(data, 0, 0x1A, 0x45, 0xDF, 0xA3) {
        if data.len() >= 40 {
            let mut i: usize = 24;
            while i <= 36
                invariant
                    24 <= i <= 37,
                    data@.len() >= 40,
                    !iso_box_at_start(data@),
                    data@.subrange(0, 4) == ebml_magic(),
                    forall|j: int| 24 <= j < i ==> !has_tag_at(data@, j, tag('w', 'e', 'b', 'm')),
                decreases 37 - i,
            {
                if bytes_at(data, i, 0x77, 0x65, 0x62, 0x6D) {
                    assert(has_tag_at(data@, i as int, tag('w', 'e', 'b', 'm')));
                    return Ok(ContainerFormat::WebM);
                }
                i = i + 1;
            }
        }
        return Ok(ContainerFormat::Mkv);
    }
    if bytes_at(data, 0, 0x52, 0x49, 0x46, 0x46) && bytes_at(data, 8, 0x41, 0x56, 0x49, 0x20) {
        return Ok(ContainerFormat::Avi);
    }
    Ok(ContainerFormat::Unknown)
}

proof fn reveal_tags()
    ensures
        tag('f', 't', 'y', 'p') == seq![0x66u8, 0x74u8, 0x79u8, 0x70u8],
        tag('m', 'o', 'o', 'v') == seq![0x6Du8, 0x6Fu8, 0x6Fu8, 0x76u8],
        tag('m', 'd', 'a', 't') == seq![0x6Du8, 0x64u8, 0x61u8, 0x74u8],
        tag('f', 'r', 'e', 'e') == seq![0x66u8, 0x72u8, 0x65u8, 0x65u8],
        tag('s', 'k', 'i', 'p') == seq![0x73u8, 0x6Bu8, 0x69u8, 0x70u8],
        tag('w', 'i', 'd', 'e') == seq![0x77u8, 0x69u8, 0x64u8, 0x65u8],
        tag('w', 'e', 'b', 'm') == seq![0x77u8, 0x65u8, 0x62u8, 0x6Du8],
        tag('R', 'I', 'F', 'F') == seq![0x52u8, 0x49u8, 0x46u8, 0x46u8],
        tag('A', 'V', 'I', ' ') == seq![0x41u8, 0x56u8, 0x49u8, 0x20u8],
        ebml_magic() == seq![0x1Au8, 0x45u8, 0xDFu8, 0xA3u8],
        'q' as u8 == 0x71u8,
        't' as u8 == 0x74u8,
{
}

/// Whether a format must be remuxed to play in a browser: all but MP4 and WebM.
pub open spec fn needs_remux(format: ContainerFormat) -> bool {
    !(format == ContainerFormat::Mp4 || format == ContainerFormat::WebM)
}

/// Whether a format must be remuxed to play in a browser (see `needs_remux`).
pub fn requires_remuxing(format: &ContainerFormat) -> (b: bool)
    ensures
        b == needs_remux(*format),
{
    !matches!(format, ContainerFormat::Mp4 | ContainerFormat::WebM)
}

/// The MIME type of a format.
pub open spec fn mime_of(format: ContainerFormat) -> Seq<char> {
    match format {
        ContainerFormat::Mp4 => "video/mp4"@,
        ContainerFormat::WebM => "video/webm"@,
        ContainerFormat::Mkv => "video/x-matroska"@,
        ContainerFormat::Avi => "video/x-msvideo"@,
        ContainerFormat::Mov => "video/quicktime"@,
        ContainerFormat::Unknown => "application/octet-stream"@,
    }
}

/// The MIME type of a format, for the Content-Type header.
pub fn mime_type(format: &ContainerFormat) -> (s: &'static str)
    ensures
        s@ == mime_of(*format),
{
    match format {
        ContainerFormat::Mp4 => "video/mp4",
        ContainerFormat::WebM => "video/webm",
        ContainerFormat::Mkv => "video/x-matroska",
        ContainerFormat::Avi => "video/x-msvideo",
        ContainerFormat::Mov => "video/quicktime",
        ContainerFormat::Unknown => "application/octet-stream",
    }
}

/// The usual file extension of a format.
pub open spec fn extension_of(format: ContainerFormat) -> Seq<char> {
    match format {
        ContainerFormat::Mp4 => "mp4"@,
        ContainerFormat::WebM => "webm"@,
        ContainerFormat::Mkv => "mkv"@,
        ContainerFormat::Avi => "avi"@,
        ContainerFormat::Mov => "mov"@,
        ContainerFormat::Unknown => "bin"@,
    }
}

/// The usual file extension of a format.
pub fn extension(format: &ContainerFormat) -> (s: &'static str)
    ensures
        s@ == extension_of(*format),
{
    match format {
        ContainerFormat::Mp4 => "mp4",
        ContainerFormat::WebM => "webm",
        ContainerFormat::Mkv => "mkv",
        ContainerFormat::Avi => "avi",
        ContainerFormat::Mov => "mov",
        ContainerFormat::Unknown => "bin",
    }
}

/// What the header of a file says about streaming it.
pub struct MediaInfo {
    /// The detected container format.
    pub format: ContainerFormat,
    /// Whether it must be remuxed for browsers.
    pub requires_remuxing: bool,
    /// Its MIME type.
    pub mime_type: &'static str,
}

impl MediaInfo {
    /// Detects the format of a header and what it means for streaming.
    pub fn from_bytes(data: &[u8]) -> (r: Result<MediaInfo, MediaInfoError>)
        ensures
            data@.len() < 12 ==> (r matches Err(e) && e == MediaInfoError::InsufficientData(data@.len() as usize)),
            data@.len() >= 12 ==> (r matches Ok(m) && {
                &&& m.format == detected_format(data@)
                &&& m.requires_remuxing == needs_remux(m.format)
                &&& m.mime_type@ == mime_of(m.format)
            }),
    {
        let format = match detect_container_format(data) {
            Ok(f) => f,
            Err(e) => return Err(e),
        };
        Ok(MediaInfo { format, requires_remuxing: requires_remuxing(&format), mime_type: mime_type(&format) })
    }
}

/// An ISO-style header (a box type `ftyp`, `moov`, `mdat`, `free`, `skip`
/// or `wide` at offset 4, at least twelve bytes) is QuickTime exactly when
/// the two bytes at offset 8 are `q` `t`, and MP4 otherwise; MP4 is served
/// as `video/mp4` without remuxing, QuickTime as `video/quicktime` with it.
/// So brands such as `mp41`, `mp42`, `isom` and `avc1` are MP4.
pub proof fn law_iso_header_is_mov_only_for_qt_brand(data: Seq<u8>)
    requires
        data.len() >= 12,
        ({
            let t = data.subrange(4, 8);
            ||| t == seq![0x66u8, 0x74u8, 0x79u8, 0x70u8]
            ||| t == seq![0x6Du8, 0x6Fu8, 0x6Fu8, 0x76u8]
            ||| t == seq![0x6Du8, 0x64u8, 0x61u8, 0x74u8]
            ||| t == seq![0x66u8, 0x72u8, 0x65u8, 0x65u8]
            ||| t == seq![0x73u8, 0x6Bu8, 0x69u8, 0x70u8]
            ||| t == seq![0x77u8, 0x69u8, 0x64u8, 0x65u8]
        }),
    ensures
        detected_format(data) == ContainerFormat::Mov <==> (data[8] == 0x71u8 && data[9] == 0x74u8),
        detected_format(data) == ContainerFormat::Mp4 <==> !(data[8] == 0x71u8 && data[9] == 0x74u8),
        needs_remux(detected_format(data)) <==> (data[8] == 0x71u8 && data[9] == 0x74u8),
        mime_of(detected_format(data)) == if data[8] == 0x71u8 && data[9] == 0x74u8 { "video/quicktime"@ } else { "video/mp4"@ },
{
    reveal_tags();
    assert(iso_box_at_start(data));
}

} // verus!
