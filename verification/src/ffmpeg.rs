//! What a file-to-file FFmpeg remux runs and how its output is judged: the
//! command line, by input extension and options, and the checks that the
//! output is a playable MP4 (large enough, an `ftyp` box first, a `moov`
//! box among the top-level boxes).
use vstd::prelude::*;

use crate::media_info::{bytes_at, has_tag_at, tag};
use crate::remux::types::StrategyError;
use crate::text::{file_extension, lowercase, path_extension, push_string, push_text, text_equals, to_lowercase};

verus! {

/// Options of a remux.
#[derive(Debug, Clone)]
pub struct RemuxingOptions {
    /// Video codec, `copy` to keep the stream as it is.
    pub video_codec: String,
    /// Audio codec, `copy` to keep the stream as it is.
    pub audio_codec: String,
    /// Whether to optimise the output for streaming.
    pub faststart: bool,
    /// Longest processing time allowed, if any.
    pub timeout_seconds: Option<u64>,
    /// Whether to ignore an incomplete index.
    pub ignore_index: bool,
    /// Whether partial input files are accepted.
    pub allow_partial: bool,
}

impl Default for RemuxingOptions {
    fn default() -> (o: RemuxingOptions)
        ensures
            o.video_codec@ == "copy"@,
            o.audio_codec@ == "copy"@,
            o.faststart,
            o.timeout_seconds == Some(300u64),
            !o.ignore_index,
            !o.allow_partial,
    {
        RemuxingOptions {
            video_codec: "copy".to_string(),
            audio_codec: "copy".to_string(),
            faststart: true,
            timeout_seconds: Some(300),
            ignore_index: false,
            allow_partial: false,
        }
    }
}

/// The FFmpeg process runner, with an optional path to its binary.
pub struct ProductionFfmpegProcessor {
    ffmpeg_path: Option<String>,
}

impl ProductionFfmpegProcessor {
    /// The path to the FFmpeg binary, if one was given.
    pub closed spec fn spec_ffmpeg_path(&self) -> Option<String> {
        self.ffmpeg_path
    }

    /// A runner for the FFmpeg binary at `ffmpeg_path`, or the one on the path.
    pub fn new(ffmpeg_path: Option<String>) -> (p: ProductionFfmpegProcessor)
        ensures
            p.spec_ffmpeg_path() == ffmpeg_path,
    {
        ProductionFfmpegProcessor { ffmpeg_path }
    }

    /// The path to the FFmpeg binary, if one was given.
    pub fn ffmpeg_path(&self) -> (r: &Option<String>)
        ensures
            *r == self.spec_ffmpeg_path(),
    {
        &self.ffmpeg_path
    }

    /// The program every FFmpeg process of this runner starts: the binary
    /// path it was given, or `ffmpeg` looked up on the search path.
    pub fn program(&self) -> (p: String)
        ensures
            p@ == (match self.spec_ffmpeg_path() {
                Some(path) => path@,
                None => "ffmpeg"@,
            }),
    {
        match &self.ffmpeg_path {
            Some(path) => path.clone(),
            None => "ffmpeg".to_string(),
        }
    }
}

/// The extension of an input file as the remux compares it: in lowercase,
/// the empty string when the name has none.
pub open spec fn input_extension(name: Seq<char>) -> Seq<char> {
    lowercase(
        match path_extension(name) {
            Some(e) => e,
            None => ""@,
        },
    )
}

/// The views of a list of strings.
pub open spec fn arg_texts(v: Seq<String>) -> Seq<Seq<char>> {
    v.map_values(|t: String| t@)
}

/// The FFmpeg arguments of a file remux: overwrite, the input; for AVI
/// input, options that regenerate timestamps, tolerate errors and force MP4;
/// for MKV input, only video and audio streams; the video codec, with
/// speed-tuned H.264 settings when it is `libx264`; AAC audio at 192k for
/// AVI input whose audio would be copied, else the audio codec; fragmented
/// MP4 flags; MP4 output to the output path.
pub open spec fn remux_args(input: Seq<char>, output: Seq<char>, o: RemuxingOptions) -> Seq<Seq<char>> {
    let ext = input_extension(input);
    seq!["-y"@, "-i"@, input]
        + (if ext == "avi"@ {
            seq![
                "-fflags"@, "+genpts+igndts"@, "-avoid_negative_ts"@, "make_zero"@,
                "-max_muxing_queue_size"@, "9999"@, "-err_detect"@, "ignore_err"@,
                "-copy_unknown"@, "-f"@, "mp4"@,
            ]
        } else if ext == "mkv"@ {
            seq!["-map"@, "0:v"@, "-map"@, "0:a?"@]
        } else {
            Seq::empty()
        })
        + seq!["-c:v"@, o.video_codec@]
        + (if o.video_codec@ == "libx264"@ {
            seq![
                "-preset"@, "ultrafast"@, "-crf"@, "28"@, "-profile:v"@, "baseline"@, "-level"@, "3.0"@,
                "-pix_fmt"@, "yuv420p"@, "-tune"@, "zerolatency"@, "-x264opts"@, "keyint=30:min-keyint=30"@,
            ]
        } else {
            Seq::empty()
        })
        + (if ext == "avi"@ && o.audio_codec@ == "copy"@ {
            seq!["-c:a"@, "aac"@, "-b:a"@, "192k"@]
        } else {
            seq!["-c:a"@, o.audio_codec@]
        })
        + seq!["-movflags"@, "frag_keyframe+empty_moov+default_base_moof"@, "-f"@, "mp4"@, output]
}

/// The FFmpeg arguments of a file remux (see `remux_args`).
pub fn build_remux_args(input_path: &str, output_path: &str, options: &RemuxingOptions) -> (args: Vec<String>)
    ensures
        arg_texts(args@) == remux_args(input_path@, output_path@, *options),
{
    let raw = match file_extension(input_path) {
        Some(e) => e,
        None => String::new(),
    };
    let ext = to_lowercase(raw.as_str());
    proof {
        reveal_strlit("");
        assert(raw@ == (match path_extension(input_path@) { Some(e) => e, None => ""@ }));
        assert(ext@ == input_extension(input_path@));
    }
    let is_avi = text_equals(&ext, "avi");
    let is_mkv = text_equals(&ext, "mkv");
    let mut args: Vec<String> = Vec::new();
    push_text(&mut args, "-y");
    push_text(&mut args, "-i");
    push_text(&mut args, input_path);
    if is_avi {
        push_text(&mut args, "-fflags");
        push_text(&mut args, "+genpts+igndts");
        push_text(&mut args, "-avoid_negative_ts");
        push_text(&mut args, "make_zero");
        push_text(&mut args, "-max_muxing_queue_size");
        push_text(&mut args, "9999");
        push_text(&mut args, "-err_detect");
        push_text(&mut args, "ignore_err");
        push_text(&mut args, "-copy_unknown");
        push_text(&mut args, "-f");
        push_text(&mut args, "mp4");
    } else if is_mkv {
        push_text(&mut args, "-map");
        push_text(&mut args, "0:v");
        push_text(&mut args, "-map");
        push_text(&mut args, "0:a?");
    }
    push_text(&mut args, "-c:v");
    push_string(&mut args, options.video_codec.clone());
    if text_equals(&options.video_codec, "libx264") {
        push_text(&mut args, "-preset");
        push_text(&mut args, "ultrafast");
        push_text(&mut args, "-crf");
        push_text(&mut args, "28");
        push_text(&mut args, "-profile:v");
        push_text(&mut args, "baseline");
        push_text(&mut args, "-level");
        push_text(&mut args, "3.0");
        push_text(&mut args, "-pix_fmt");
        push_text(&mut args, "yuv420p");
        push_text(&mut args, "-tune");
        push_text(&mut args, "zerolatency");
        push_text(&mut args, "-x264opts");
        push_text(&mut args, "keyint=30:min-keyint=30");
    }
    if is_avi && text_equals(&options.audio_codec, "copy") {
        push_text(&mut args, "-c:a");
        push_text(&mut args, "aac");
        push_text(&mut args, "-b:a");
        push_text(&mut args, "192k");
    } else {
        push_text(&mut args, "-c:a");
        push_string(&mut args, options.audio_codec.clone());
    }
    push_text(&mut args, "-movflags");
    push_text(&mut args, "frag_keyframe+empty_moov+default_base_moof");
    push_text(&mut args, "-f");
    push_text(&mut args, "mp4");
    push_text(&mut args, output_path);
    proof {
        assert(arg_texts(args@) =~= remux_args(input_path@, output_path@, *options));
    }
    args
}

/// Whether a remux of `input_path` re-encodes a stream: either codec is not
/// `copy`, or the input is AVI, whose audio is always encoded to AAC (see
/// `remux_args`).
pub fn streams_reencoded(input_path: &str, options: &RemuxingOptions) -> (b: bool)
    ensures
        b == (options.video_codec@ != "copy"@ || options.audio_codec@ != "copy"@
            || input_extension(input_path@) == "avi"@),
{
    let raw = match file_extension(input_path) {
        Some(e) => e,
        None => String::new(),
    };
    let ext = to_lowercase(raw.as_str());
    proof {
        reveal_strlit("");
        assert(raw@ == (match path_extension(input_path@) { Some(e) => e, None => ""@ }));
        assert(ext@ == input_extension(input_path@));
    }
    !text_equals(&options.video_codec, "copy") || !text_equals(&options.audio_codec, "copy")
        || text_equals(&ext, "avi")
}

/// An output smaller than this many bytes is taken as corrupt.
pub const MIN_OUTPUT_BYTES: u64 = 100;

/// Rejects a remux output of fewer than 100 bytes as corrupt.
pub fn check_output_size(output_size: u64) -> (r: Result<(), StrategyError>)
    ensures
        r is Ok <==> output_size >= MIN_OUTPUT_BYTES,
        r is Err ==> r matches Err(StrategyError::FfmpegError { .. }),
{
    if output_size < MIN_OUTPUT_BYTES {
        let mut reason = String::new();
        reason.append("Output file too small (");
        crate::text::push_decimal(&mut reason, output_size);
        reason.append(" bytes), likely corrupt");
        return Err(StrategyError::FfmpegError { reason });
    }
    Ok(())
}

/// Checks the first twelve bytes of a remux output, `None` when the file
/// has fewer: they must hold an `ftyp` box type at offset 4.
pub fn check_output_header(header: Option<&[u8]>) -> (r: Result<(), StrategyError>)
    requires
        header matches Some(h) ==> h@.len() == 12,
    ensures
        r is Ok <==> (header matches Some(h) && has_tag_at(h@, 4, tag('f', 't', 'y', 'p'))),
        r is Err ==> r matches Err(StrategyError::FfmpegError { .. }),
{
    match header {
        None => Err(StrategyError::FfmpegError { reason: "Output file too small to be valid MP4".to_string() }),
        Some(h) => {
            proof {
                assert(tag('f', 't', 'y', 'p') == seq![0x66u8, 0x74u8, 0x79u8, 0x70u8]);
            }
            if bytes_at(h, 4, 0x66, 0x74, 0x79, 0x70) {
                Ok(())
            } else {
                Err(StrategyError::FfmpegError { reason: "Output file does not contain valid MP4 ftyp box".to_string() })
            }
        },
    }
}

/// The next move of the scan for a `moov` box among an output's top-level boxes.
#[derive(Debug, Clone, Copy, PartialEq, Eq, Structural)]
pub enum MoovScan {
    /// The box at the position is `moov`.
    Found,
    /// The scan ends without a `moov` box.
    NotFound,
    /// The next box starts at this position.
    Next(u64),
}

/// The big-endian number in the first four bytes.
pub open spec fn be_u32(b: Seq<u8>) -> int {
    ((b[0] as int) * 16777216) + ((b[1] as int) * 65536) + ((b[2] as int) * 256) + (b[3] as int)
}

/// One step of the `moov` scan at `pos` in an output of `output_size`
/// bytes, given the 8-byte box header read there (`None` when it could not
/// be read): a `moov` type is found; an unreadable header, a zero size or a
/// size beyond the output ends the scan; otherwise the scan moves on by the
/// box's size.
pub open spec fn moov_step(pos: u64, output_size: u64, box_header: Option<Seq<u8>>) -> MoovScan {
    match box_header {
        None => MoovScan::NotFound,
        Some(h) => {
            let size = be_u32(h);
            if has_tag_at(h, 4, tag('m', 'o', 'o', 'v')) {
                MoovScan::Found
            } else if size == 0 || size > output_size {
                MoovScan::NotFound
            } else {
                MoovScan::Next((pos + size) as u64)
            }
        },
    }
}

/// One step of the `moov` scan (see `moov_step`).
pub fn moov_scan_step(pos: u64, output_size: u64, box_header: Option<&[u8]>) -> (s: MoovScan)
    requires
        pos < output_size,
        output_size <= u64::MAX / 2,
        box_header matches Some(h) ==> h@.len() == 8,
    ensures
        s == moov_step(pos, output_size, match box_header { Some(h) => Some(h@), None => None }),
        s matches MoovScan::Next(p) ==> pos < p,
{
    match box_header {
        None => MoovScan::NotFound,
        Some(h) => {
            proof {
                assert(tag('m', 'o', 'o', 'v') == seq![0x6Du8, 0x6Fu8, 0x6Fu8, 0x76u8]);
            }
            let size: u64 = (h[0] as u64) * 16777216 + (h[1] as u64) * 65536 + (h[2] as u64) * 256 + (h[3] as u64);
            if bytes_at(h, 4, 0x6D, 0x6F, 0x6F, 0x76) {
                MoovScan::Found
            } else if size == 0 || size > output_size {
                MoovScan::NotFound
            } else {
                MoovScan::Next(pos + size)
            }
        },
    }
}

/// The verdict on an output once the `moov` scan has ended.
pub fn check_moov_found(found: bool) -> (r: Result<(), StrategyError>)
    ensures
        r is Ok <==> found,
        r is Err ==> r matches Err(StrategyError::FfmpegError { .. }),
{
    if found {
        Ok(())
    } else {
        Err(StrategyError::FfmpegError { reason: "Output MP4 missing moov atom - file is unplayable".to_string() })
    }
}

} // verus!
