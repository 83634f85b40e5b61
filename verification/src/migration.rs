//! Choosing between the two progressive streaming implementations.
use vstd::prelude::*;

use crate::text::{file_extension, opt_view, path_extension, text_equals};

verus! {

/// The progressive streaming implementation in use.
#[derive(Debug, Clone, Copy, PartialEq, Eq, Structural)]
pub enum StreamingImplementation {
    /// The coordinator and feeder based implementation.
    Legacy,
    /// The simple implementation with synchronous pumping.
    Simple,
}

/// The implementation a setting names: `simple` or `legacy`; anything
/// else, or no setting, is legacy.
pub open spec fn implementation_named(setting: Option<Seq<char>>) -> StreamingImplementation {
    if setting == Some("simple"@) {
        StreamingImplementation::Simple
    } else {
        StreamingImplementation::Legacy
    }
}

impl StreamingImplementation {
    /// The implementation named by the value of the `RIPTIDE_STREAMING_IMPL`
    /// setting (see `implementation_named`).
    pub fn from_setting(setting: Option<String>) -> (i: StreamingImplementation)
        ensures
            i == implementation_named(opt_view(setting)),
    {
        match setting {
            Some(s) => {
                if text_equals(&s, "simple") {
                    StreamingImplementation::Simple
                } else {
                    StreamingImplementation::Legacy
                }
            },
            None => StreamingImplementation::Legacy,
        }
    }
}

/// Progressive streaming over a data source, with either implementation.
pub struct ProgressiveStreaming<D, E> {
    implementation: StreamingImplementation,
    data_source: D,
    torrent_engine: Option<E>,
}

impl<D, E> ProgressiveStreaming<D, E> {
    /// The implementation in use.
    pub closed spec fn spec_implementation(&self) -> StreamingImplementation {
        self.implementation
    }

    /// The data source.
    pub closed spec fn spec_data_source(&self) -> D {
        self.data_source
    }

    /// The torrent engine, if any.
    pub closed spec fn spec_torrent_engine(&self) -> Option<E> {
        self.torrent_engine
    }

    /// Progressive streaming with the implementation that the
    /// `RIPTIDE_STREAMING_IMPL` setting names.
    pub fn new(setting: Option<String>, data_source: D, torrent_engine: Option<E>) -> (p: ProgressiveStreaming<D, E>)
        ensures
            p.spec_implementation() == implementation_named(opt_view(setting)),
            p.spec_data_source() == data_source,
            p.spec_torrent_engine() == torrent_engine,
    {
        ProgressiveStreaming { implementation: StreamingImplementation::from_setting(setting), data_source, torrent_engine }
    }

    /// Progressive streaming with the given implementation.
    pub fn with_implementation(implementation: StreamingImplementation, data_source: D, torrent_engine: Option<E>) -> (p: ProgressiveStreaming<D, E>)
        ensures
            p.spec_implementation() == implementation,
            p.spec_data_source() == data_source,
            p.spec_torrent_engine() == torrent_engine,
    {
        ProgressiveStreaming { implementation, data_source, torrent_engine }
    }

    /// The implementation in use.
    pub fn implementation(&self) -> (i: StreamingImplementation)
        ensures
            i == self.spec_implementation(),
    {
        self.implementation
    }

    /// The data source.
    pub fn data_source(&self) -> (d: &D)
        ensures
            *d == self.spec_data_source(),
    {
        &self.data_source
    }

    /// The torrent engine, if any.
    pub fn torrent_engine(&self) -> (e: &Option<E>)
        ensures
            *e == self.spec_torrent_engine(),
    {
        &self.torrent_engine
    }
}

/// The FFmpeg input format for a file extension: `avi`, `mkv` (as
/// `matroska`), `mp4`, `mov` and `webm` name their format; anything else,
/// or no extension, lets FFmpeg detect it (`auto`).
pub open spec fn input_format_for(ext: Option<Seq<char>>) -> Seq<char> {
    match ext {
        Some(e) => if e == "avi"@ {
            "avi"@
        } else if e == "mkv"@ {
            "matroska"@
        } else if e == "mp4"@ {
            "mp4"@
        } else if e == "mov"@ {
            "mov"@
        } else if e == "webm"@ {
            "webm"@
        } else {
            "auto"@
        },
        None => "auto"@,
    }
}

/// The FFmpeg input format of a file, from its extension as written (see `input_format_for`).
pub fn detect_input_format(path: &str) -> (f: String)
    ensures
        f@ == input_format_for(path_extension(path@)),
{
    let ext = file_extension(path);
    proof {
        assert(opt_view(ext) == path_extension(path@));
    }
    match ext {
        Some(e) => {
            if text_equals(&e, "avi") {
                "avi".to_string()
            } else if text_equals(&e, "mkv") {
                "matroska".to_string()
            } else if text_equals(&e, "mp4") {
                "mp4".to_string()
            } else if text_equals(&e, "mov") {
                "mov".to_string()
            } else if text_equals(&e, "webm") {
                "webm".to_string()
            } else {
                "auto".to_string()
            }
        },
        None => "auto".to_string(),
    }
}

/// Bytes of output the simple implementation needs before it is ready to stream.
pub const SIMPLE_READY_BYTES: u64 = 128 * 1024;

/// Whether the simple implementation's output is ready: its size is known
/// and at least 128 KB.
pub fn simple_output_ready(output_len: Option<u64>) -> (b: bool)
    ensures
        b == (output_len matches Some(n) && n >= SIMPLE_READY_BYTES),
{
    match output_len {
        Some(n) => n >= SIMPLE_READY_BYTES,
        None => false,
    }
}

} // verus!
