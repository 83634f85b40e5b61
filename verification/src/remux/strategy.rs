//! Decisions of the direct and remux streaming strategies: which formats
//! each serves, and what a range request gets.
use vstd::prelude::*;

use crate::remux::types::{ContainerFormat, StrategyError, StreamHandle, StreamReadiness};
use crate::torrent::InfoHash;

verus! {

/// Whether the remux strategy serves a format: AVI, Matroska and QuickTime.
pub fn remux_can_handle(format: ContainerFormat) -> (b: bool)
    ensures
        b == (format == ContainerFormat::Avi || format == ContainerFormat::Mkv || format == ContainerFormat::Mov),
{
    matches!(format, ContainerFormat::Avi | ContainerFormat::Mkv | ContainerFormat::Mov)
}

/// Whether the direct strategy serves a format: MP4 and WebM.
pub fn direct_can_handle(format: ContainerFormat) -> (b: bool)
    ensures
        b == (format == ContainerFormat::Mp4 || format == ContainerFormat::WebM),
{
    matches!(format, ContainerFormat::Mp4 | ContainerFormat::WebM)
}

/// Streams formats that browsers play as they are, from a data source.
pub struct DirectStreamStrategy<D> {
    data_source: D,
}

impl<D> DirectStreamStrategy<D> {
    /// The data source.
    pub closed spec fn spec_data_source(&self) -> D {
        self.data_source
    }

    /// A direct strategy over `data_source`.
    pub fn new(data_source: D) -> (s: DirectStreamStrategy<D>)
        ensures
            s.spec_data_source() == data_source,
    {
        DirectStreamStrategy { data_source }
    }

    /// The data source.
    pub fn data_source(&self) -> (d: &D)
        ensures
            *d == self.spec_data_source(),
    {
        &self.data_source
    }

    /// Whether the strategy serves a format (see `direct_can_handle`).
    pub fn can_handle(&self, format: ContainerFormat) -> (b: bool)
        ensures
            b == (format == ContainerFormat::Mp4 || format == ContainerFormat::WebM),
    {
        direct_can_handle(format)
    }

    /// The handle of a direct stream: no session is needed.
    pub fn prepare_stream(&self, info_hash: InfoHash, format: ContainerFormat) -> (h: StreamHandle)
        ensures
            h.info_hash == info_hash,
            h.session_id == 0,
            h.format == format,
    {
        StreamHandle { info_hash, session_id: 0, format }
    }
}

/// The content type of a direct stream: MP4 and WebM by name, anything else as octets.
pub open spec fn direct_content_type(format: ContainerFormat) -> Seq<char> {
    match format {
        ContainerFormat::Mp4 => "video/mp4"@,
        ContainerFormat::WebM => "video/webm"@,
        _ => "application/octet-stream"@,
    }
}

/// The content type of a direct stream (see `direct_content_type`).
pub fn direct_stream_content_type(format: ContainerFormat) -> (s: &'static str)
    ensures
        s@ == direct_content_type(format),
{
    match format {
        ContainerFormat::Mp4 => "video/mp4",
        ContainerFormat::WebM => "video/webm",
        _ => "application/octet-stream",
    }
}

/// The readiness of a direct stream: ready when the range is available, else waiting for data.
pub fn direct_readiness(available: bool) -> (r: StreamReadiness)
    ensures
        r == if available { StreamReadiness::Ready } else { StreamReadiness::WaitingForData },
{
    if available { StreamReadiness::Ready } else { StreamReadiness::WaitingForData }
}

/// Checks a remux range request `start..end`: a reversed or empty range is
/// invalid unless it ends at 0.
pub fn check_remux_range(start: u64, end: u64) -> (r: Result<(), StrategyError>)
    ensures
        r is Ok <==> !(start >= end && end != 0),
        r is Err ==> (r matches Err(StrategyError::InvalidRange { start: s, end: e }) && s == start && e == end),
{
    if start >= end && end != 0 {
        return Err(StrategyError::InvalidRange { start, end });
    }
    Ok(())
}

/// Whether remuxed output can be served in a readiness state: ready or
/// processing; the other states answer with their error.
pub fn readiness_answer(readiness: StreamReadiness) -> (r: Result<(), StrategyError>)
    ensures
        (readiness == StreamReadiness::Ready || readiness == StreamReadiness::Processing) <==> r is Ok,
        readiness == StreamReadiness::WaitingForData ==> r matches Err(StrategyError::StreamingNotReady { .. }),
        readiness == StreamReadiness::CanRetry ==> r matches Err(StrategyError::StreamingNotReady { .. }),
        readiness == StreamReadiness::Failed ==> r matches Err(StrategyError::RemuxingFailed { .. }),
{
    match readiness {
        StreamReadiness::Ready | StreamReadiness::Processing => Ok(()),
        StreamReadiness::WaitingForData => Err(StrategyError::StreamingNotReady { reason: "Waiting for sufficient data to start remuxing".to_string() }),
        StreamReadiness::CanRetry => Err(StrategyError::StreamingNotReady { reason: "Previous remuxing failed, a retry is available".to_string() }),
        StreamReadiness::Failed => Err(StrategyError::RemuxingFailed { reason: "Remuxing failed permanently".to_string() }),
    }
}

/// The part of a remux range request `start..end` that output of
/// `available_size` bytes can serve, as `(end, length)`: the range clipped
/// to the output. A start at or past the output's end cannot be served; a
/// clipped range that holds nothing is not ready.
pub fn clip_to_output(start: u64, end: u64, available_size: u64) -> (r: Result<(u64, u64), StrategyError>)
    ensures
        start >= available_size ==> (r matches Err(StrategyError::RangeNotSatisfiable { requested_start: s, file_size: f })
            && s == start && f == available_size),
        start < available_size && (if end <= available_size { end } else { available_size }) <= start ==> r matches Err(StrategyError::StreamingNotReady { .. }),
        start < available_size && start < (if end <= available_size { end } else { available_size }) ==> r == Ok::<(u64, u64), StrategyError>((
            if end <= available_size { end } else { available_size },
            ((if end <= available_size { end } else { available_size }) - start) as u64,
        )),
{
    if start >= available_size {
        return Err(StrategyError::RangeNotSatisfiable { requested_start: start, file_size: available_size });
    }
    let actual_end = if end <= available_size { end } else { available_size };
    if actual_end <= start {
        return Err(StrategyError::StreamingNotReady { reason: "Requested range has no available data yet".to_string() });
    }
    Ok((actual_end, actual_end - start))
}

} // verus!
