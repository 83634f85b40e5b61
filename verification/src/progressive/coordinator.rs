//! State of the progressive streaming coordinator and how events change it.
use std::time::Instant;
use vstd::prelude::*;

verus! {

/// The state of a progressive streaming coordinator.
#[derive(Debug, Clone, Copy)]
pub struct CoordinatorState {
    /// Bytes written to FFmpeg so far.
    pub bytes_written: u64,
    /// Size of the file streamed.
    pub file_size: u64,
    /// Whether FFmpeg is still running.
    pub ffmpeg_running: bool,
    /// When progress was last made.
    pub last_progress: Instant,
    /// The streaming position, for piece prioritisation.
    pub streaming_position: u64,
}

impl CoordinatorState {
    /// The state at the start of streaming a file of `file_size` bytes, at `now`.
    pub fn new(file_size: u64, now: Instant) -> (s: CoordinatorState)
        ensures
            s.bytes_written == 0,
            s.file_size == file_size,
            !s.ffmpeg_running,
            s.last_progress == now,
            s.streaming_position == 0,
    {
        CoordinatorState { bytes_written: 0, file_size, ffmpeg_running: false, last_progress: now, streaming_position: 0 }
    }

    /// Records that `bytes` bytes in all were written to FFmpeg, at `now`.
    pub fn on_data_written(&mut self, bytes: u64, now: Instant)
        ensures
            *final(self) == (CoordinatorState { bytes_written: bytes, last_progress: now, ..*old(self) }),
    {
        self.bytes_written = bytes;
        self.last_progress = now;
    }

    /// Records that FFmpeg exited.
    pub fn on_process_exited(&mut self)
        ensures
            *final(self) == (CoordinatorState { ffmpeg_running: false, ..*old(self) }),
    {
        self.ffmpeg_running = false;
    }

    /// Records a new streaming position.
    pub fn on_streaming_position(&mut self, position: u64)
        ensures
            *final(self) == (CoordinatorState { streaming_position: position, ..*old(self) }),
    {
        self.streaming_position = position;
    }

    /// Whether the coordinator fails with a timeout: FFmpeg runs and the
    /// progress timeout has passed since the last progress.
    pub fn timed_out(&self, progress_timeout_exceeded: bool) -> (b: bool)
        ensures
            b == (self.ffmpeg_running && progress_timeout_exceeded),
    {
        self.ffmpeg_running && progress_timeout_exceeded
    }
}

/// Bytes checked for availability at a time.
pub const CHECK_CHUNK_SIZE: u64 = 1024 * 1024;

impl CoordinatorState {
    /// The range whose availability is checked next: from the bytes written
    /// up to a megabyte on, or to the file's end; `None` once everything
    /// was written.
    pub fn next_check_range(&self) -> (r: Option<(u64, u64)>)
        ensures
            self.bytes_written >= self.file_size ==> r is None,
            self.bytes_written < self.file_size ==> r == Some((
                self.bytes_written,
                if self.bytes_written + CHECK_CHUNK_SIZE <= self.file_size {
                    (self.bytes_written + CHECK_CHUNK_SIZE) as u64
                } else {
                    self.file_size
                },
            )),
    {
        if self.bytes_written >= self.file_size {
            return None;
        }
        let end = if self.file_size - self.bytes_written >= CHECK_CHUNK_SIZE {
            self.bytes_written + CHECK_CHUNK_SIZE
        } else {
            self.file_size
        };
        Some((self.bytes_written, end))
    }
}

} // verus!
