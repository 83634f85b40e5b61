//! Decisions of real-time remuxing through FFmpeg's pipes: the command
//! line, and the input pump that first waits for enough sequential data
//! from the start of the file and then feeds the whole file in order.
use vstd::prelude::*;

use crate::text::{push_text};

verus! {

/// Bytes read from the piece provider at a time.
pub const CHUNK_SIZE: u64 = 256 * 1024;

/// A remuxing stream producer over a piece provider handle.
pub struct RemuxStreamProducer<P> {
    provider: P,
    source_format: String,
}

/// The views of a list of strings.
pub open spec fn stream_arg_texts(v: Seq<String>) -> Seq<Seq<char>> {
    v.map_values(|t: String| t@)
}

/// The FFmpeg arguments of a piped remux: quiet, input from standard
/// input, copy codecs, fragmented MP4 to standard output.
pub open spec fn pipe_remux_args() -> Seq<Seq<char>> {
    seq![
        "-hide_banner"@, "-loglevel"@, "error"@, "-i"@, "pipe:0"@, "-c:v"@, "copy"@, "-c:a"@, "copy"@,
        "-movflags"@, "frag_keyframe+empty_moov+default_base_moof"@, "-f"@, "mp4"@, "pipe:1"@,
    ]
}

impl<P> RemuxStreamProducer<P> {
    /// The provider of the source bytes.
    pub closed spec fn spec_provider(&self) -> P {
        self.provider
    }

    /// The source container format.
    pub closed spec fn spec_source_format(&self) -> Seq<char> {
        self.source_format@
    }

    /// A producer remuxing the bytes of `provider`, a file of `source_format`.
    pub fn new(provider: P, source_format: String) -> (r: RemuxStreamProducer<P>)
        ensures
            r.spec_provider() == provider,
            r.spec_source_format() == source_format@,
    {
        RemuxStreamProducer { provider, source_format }
    }

    /// The provider of the source bytes.
    pub fn provider(&self) -> (p: &P)
        ensures
            *p == self.spec_provider(),
    {
        &self.provider
    }

    /// The source container format.
    pub fn source_format(&self) -> (s: &String)
        ensures
            s@ == self.spec_source_format(),
    {
        &self.source_format
    }

    /// The FFmpeg arguments of a piped remux (see `pipe_remux_args`).
    pub fn build_ffmpeg_args() -> (args: Vec<String>)
        ensures
            stream_arg_texts(args@) == pipe_remux_args(),
    {
        let mut args: Vec<String> = Vec::new();
        push_text(&mut args, "-hide_banner");
        push_text(&mut args, "-loglevel");
        push_text(&mut args, "error");
        push_text(&mut args, "-i");
        push_text(&mut args, "pipe:0");
        push_text(&mut args, "-c:v");
        push_text(&mut args, "copy");
        push_text(&mut args, "-c:a");
        push_text(&mut args, "copy");
        push_text(&mut args, "-movflags");
        push_text(&mut args, "frag_keyframe+empty_moov+default_base_moof");
        push_text(&mut args, "-f");
        push_text(&mut args, "mp4");
        push_text(&mut args, "pipe:1");
        proof {
            assert(stream_arg_texts(args@) =~= pipe_remux_args());
        }
        args
    }
}

/// How many bytes from the start of a file must be readable before FFmpeg
/// is fed: one byte below 100 KB; at least one byte and at most 1 KB or a
/// quarter of the file below 10 MB; else 10 MB or half the file, whichever
/// is less.
pub open spec fn min_sequential_bytes(file_size: u64) -> u64 {
    if file_size < 100 * 1024 {
        1
    } else if file_size < 10 * 1024 * 1024 {
        let q = if 1024 <= file_size / 4 { 1024 } else { file_size / 4 };
        if q >= 1 { q as u64 } else { 1 }
    } else {
        if 10 * 1024 * 1024 <= file_size / 2 { (10 * 1024 * 1024) as u64 } else { (file_size / 2) as u64 }
    }
}

/// How many bytes from the start of a file must be readable before FFmpeg
/// is fed (see `min_sequential_bytes`).
pub fn min_required_size(file_size: u64) -> (n: u64)
    ensures
        n == min_sequential_bytes(file_size),
        n >= 1,
{
    if file_size < 100 * 1024 {
        1
    } else if file_size < 10 * 1024 * 1024 {
        let q = if 1024 <= file_size / 4 { 1024 } else { file_size / 4 };
        if q >= 1 { q } else { 1 }
    } else {
        if 10 * 1024 * 1024 <= file_size / 2 { 10 * 1024 * 1024 } else { file_size / 2 }
    }
}

/// The phase of the input pump.
#[derive(Debug, Clone, Copy, PartialEq, Eq, Structural)]
pub enum PumpPhase {
    /// Checking that enough sequential data is readable from the start.
    Verifying,
    /// Feeding the file to FFmpeg from the start.
    Feeding,
}

/// What the pump does next.
#[derive(Debug, Clone, Copy, PartialEq, Eq, Structural)]
pub enum PumpAction {
    /// Read `length` bytes at `offset` (and, when feeding, write them to FFmpeg).
    Read { offset: u64, length: u64 },
    /// The whole file was fed: close FFmpeg's input.
    Finish,
}

/// The input pump of a piped remux.
#[derive(Debug, Clone, Copy)]
pub struct InputPump {
    /// Size of the file.
    pub file_size: u64,
    /// Sequential bytes required before feeding.
    pub min_required: u64,
    /// Sequential bytes found readable so far.
    pub verified: u64,
    /// Bytes fed to FFmpeg so far.
    pub offset: u64,
    /// The phase.
    pub phase: PumpPhase,
}

impl InputPump {
    /// Whether the pump's counters are consistent: bytes fed never pass the file's end.
    pub open spec fn wf(&self) -> bool {
        &&& self.offset <= self.file_size
        &&& self.phase == PumpPhase::Verifying ==> self.offset == 0
    }

    /// A pump for a file of `file_size` bytes; it starts by verifying
    /// sequential data when `sequential_check` is set, else by feeding.
    pub fn new(file_size: u64, sequential_check: bool) -> (p: InputPump)
        ensures
            p.wf(),
            p.file_size == file_size,
            p.min_required == min_sequential_bytes(file_size),
            p.verified == 0,
            p.offset == 0,
            p.phase == (if sequential_check { PumpPhase::Verifying } else { PumpPhase::Feeding }),
    {
        InputPump {
            file_size,
            min_required: min_required_size(file_size),
            verified: 0,
            offset: 0,
            phase: if sequential_check { PumpPhase::Verifying } else { PumpPhase::Feeding },
        }
    }

    /// The next move: while verifying, a chunk-sized read at the verified
    /// length; while feeding, the next chunk of the file (the rest, if
    /// shorter), until the whole file was fed.
    pub fn next_action(&self) -> (a: PumpAction)
        requires
            self.wf(),
        ensures
            self.phase == PumpPhase::Verifying ==> (a == (PumpAction::Read { offset: self.verified, length: CHUNK_SIZE })),
            self.phase == PumpPhase::Feeding && self.offset < self.file_size ==> (a == (PumpAction::Read {
                offset: self.offset,
                length: if CHUNK_SIZE <= self.file_size - self.offset { CHUNK_SIZE } else { (self.file_size - self.offset) as u64 },
            })),
            self.phase == PumpPhase::Feeding && self.offset >= self.file_size ==> (a == PumpAction::Finish),
            self.phase == PumpPhase::Feeding ==> (a matches PumpAction::Finish || (a matches PumpAction::Read { offset, length } && offset + length <= self.file_size && length > 0)),
    {
        match self.phase {
            PumpPhase::Verifying => PumpAction::Read { offset: self.verified, length: CHUNK_SIZE },
            PumpPhase::Feeding => {
                if self.offset < self.file_size {
                    let rest = self.file_size - self.offset;
                    PumpAction::Read { offset: self.offset, length: if CHUNK_SIZE <= rest { CHUNK_SIZE } else { rest } }
                } else {
                    PumpAction::Finish
                }
            },
        }
    }

    /// Records `n` bytes read (and, when feeding, written to FFmpeg): while
    /// verifying they add to the verified length, and once it reaches the
    /// requirement the pump turns to feeding; while feeding they advance the
    /// offset.
    pub fn record_read(&mut self, n: u64)
        requires
            old(self).wf(),
            old(self).phase == PumpPhase::Verifying ==> old(self).verified + n <= u64::MAX,
            old(self).phase == PumpPhase::Feeding ==> old(self).offset + n <= old(self).file_size,
        ensures
            final(self).wf(),
            final(self).file_size == old(self).file_size,
            final(self).min_required == old(self).min_required,
            old(self).phase == PumpPhase::Verifying ==> {
                &&& final(self).verified == old(self).verified + n
                &&& final(self).offset == 0
                &&& final(self).phase == if old(self).verified + n >= old(self).min_required { PumpPhase::Feeding } else { PumpPhase::Verifying }
            },
            old(self).phase == PumpPhase::Feeding ==> {
                &&& final(self).verified == old(self).verified
                &&& final(self).offset == old(self).offset + n
                &&& final(self).phase == PumpPhase::Feeding
            },
    {
        match self.phase {
            PumpPhase::Verifying => {
                self.verified = self.verified + n;
                if self.verified >= self.min_required {
                    self.phase = PumpPhase::Feeding;
                }
            },
            PumpPhase::Feeding => {
                self.offset = self.offset + n;
            },
        }
    }
}

} // verus!
