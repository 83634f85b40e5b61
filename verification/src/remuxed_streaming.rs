//! Settings and decisions of remuxed streaming, which rebuilds a file,
//! remuxes it to MP4 once and serves ranges of the cached result.
use vstd::prelude::*;

use crate::ffmpeg::RemuxingOptions;
use crate::strategy::{header_format, ContainerDetector, ContainerFormat};

verus! {

/// Settings of remuxed streaming.
#[derive(Debug, Clone)]
pub struct RemuxingConfig {
    /// Directory of the remuxed files.
    pub cache_dir: String,
    /// Remuxes that may run at once.
    pub max_concurrent_jobs: usize,
    /// Options of each remux.
    pub remuxing_options: RemuxingOptions,
}

impl Default for RemuxingConfig {
    fn default() -> (c: RemuxingConfig)
        ensures
            c.cache_dir@ == "/tmp/riptide-cache"@,
            c.max_concurrent_jobs == 2,
            c.remuxing_options.video_codec@ == "copy"@,
            c.remuxing_options.audio_codec@ == "copy"@,
            c.remuxing_options.faststart,
            c.remuxing_options.timeout_seconds == Some(300u64),
            !c.remuxing_options.ignore_index,
            !c.remuxing_options.allow_partial,
    {
        RemuxingConfig { cache_dir: "/tmp/riptide-cache".to_string(), max_concurrent_jobs: 2, remuxing_options: RemuxingOptions::default() }
    }
}

/// Whether remuxed streaming serves a format: Matroska and AVI.
pub fn supports_format(format: &ContainerFormat) -> (b: bool)
    ensures
        b == (*format == ContainerFormat::Mkv || *format == ContainerFormat::Avi),
{
    matches!(format, ContainerFormat::Mkv | ContainerFormat::Avi)
}

/// Header bytes of the first piece used to detect the source format.
pub const DETECTION_HEADER_BYTES: usize = 512;

/// The source format shown by a torrent's first piece, judged from at most its first 512 bytes.
pub fn format_of_first_piece(first_piece: &[u8]) -> (f: ContainerFormat)
    ensures
        f == header_format(if first_piece@.len() >= 512 { first_piece@.subrange(0, 512) } else { first_piece@ }),
{
    if first_piece.len() >= DETECTION_HEADER_BYTES {
        let mut header: Vec<u8> = Vec::new();
        let mut i: usize = 0;
        while i < DETECTION_HEADER_BYTES
            invariant
                i <= 512,
                first_piece@.len() >= 512,
                header@ == first_piece@.subrange(0, i as int),
            decreases 512 - i,
        {
            header.push(first_piece[i]);
            proof {
                assert(header@ =~= first_piece@.subrange(0, i + 1));
            }
            i = i + 1;
        }
        ContainerDetector::detect_format(header.as_slice())
    } else {
        ContainerDetector::detect_format(first_piece)
    }
}

/// The length of a cached-file read of the byte range `start..end`.
pub fn read_length(start: u64, end: u64) -> (n: u64)
    requires
        start <= end,
    ensures
        n == end - start,
{
    end - start
}

} // verus!
