//! Choosing a streaming strategy for a torrent by its container format.
use vstd::prelude::*;

use crate::strategy::{ContainerFormat, StreamingError};
use crate::time::Duration;

verus! {

/// Whether and how a torrent can be streamed.
#[derive(Debug, Clone, Copy)]
pub struct StreamingCapability {
    /// Whether it can be streamed now.
    pub can_stream: bool,
    /// Its container format.
    pub container_format: ContainerFormat,
    /// Whether it must be remuxed.
    pub requires_remuxing: bool,
    /// The expected delay before streaming, when known.
    pub estimated_delay: Option<Duration>,
}

/// The name of a format, as written in messages.
pub open spec fn format_name(format: ContainerFormat) -> Seq<char> {
    match format {
        ContainerFormat::Mp4 => "Mp4"@,
        ContainerFormat::WebM => "WebM"@,
        ContainerFormat::Mkv => "Mkv"@,
        ContainerFormat::Avi => "Avi"@,
        ContainerFormat::Mov => "Mov"@,
        ContainerFormat::Unknown => "Unknown"@,
    }
}

/// The name of a format (see `format_name`).
pub fn format_label(format: ContainerFormat) -> (s: &'static str)
    ensures
        s@ == format_name(format),
{
    match format {
        ContainerFormat::Mp4 => "Mp4",
        ContainerFormat::WebM => "WebM",
        ContainerFormat::Mkv => "Mkv",
        ContainerFormat::Avi => "Avi",
        ContainerFormat::Mov => "Mov",
        ContainerFormat::Unknown => "Unknown",
    }
}

/// Whether a format is served by remuxing: Matroska and AVI.
pub open spec fn remuxable(format: ContainerFormat) -> bool {
    format == ContainerFormat::Mkv || format == ContainerFormat::Avi
}

/// Whether a format plays in browsers as it is: MP4 and WebM.
pub open spec fn browser_playable(format: ContainerFormat) -> bool {
    format == ContainerFormat::Mp4 || format == ContainerFormat::WebM
}

/// The strategy a torrent of `format` gets: browser formats have no
/// strategy yet; remuxable formats get remuxing when it is configured;
/// anything else is unsupported. `Ok` stands for remuxed streaming.
pub fn select_strategy(format: ContainerFormat, remuxing_configured: bool) -> (r: Result<(), StreamingError>)
    ensures
        r is Ok <==> (!browser_playable(format) && remuxing_configured && remuxable(format)),
        r is Err ==> r matches Err(StreamingError::UnsupportedFormat { .. }),
{
    let name = format_label(format).to_string();
    if matches!(format, ContainerFormat::Mp4 | ContainerFormat::WebM) {
        let mut m = "Direct streaming for ".to_string();
        m.append(name.as_str());
        m.append(" not yet implemented");
        Err(StreamingError::UnsupportedFormat { format: m })
    } else if remuxing_configured {
        if matches!(format, ContainerFormat::Mkv | ContainerFormat::Avi) {
            Ok(())
        } else {
            Err(StreamingError::UnsupportedFormat { format: name })
        }
    } else {
        let mut m = name;
        m.append(" (remuxing not configured)");
        Err(StreamingError::UnsupportedFormat { format: m })
    }
}

/// The streaming capability of a torrent of `format`: browser formats
/// cannot stream yet; with remuxing configured, remuxable formats must be
/// remuxed and can stream, with an estimated minute's delay, once every
/// piece is held; anything else cannot stream.
pub fn streaming_capability(format: ContainerFormat, remuxing_configured: bool, can_reconstruct: bool) -> (c: StreamingCapability)
    ensures
        c.container_format == format,
        c.can_stream == (!browser_playable(format) && remuxing_configured && remuxable(format) && can_reconstruct),
        c.requires_remuxing == (!browser_playable(format) && remuxing_configured && remuxable(format)),
        c.can_stream ==> (c.estimated_delay matches Some(d) && d.total_nanos() == 60 * 1_000_000_000),
        !c.can_stream ==> c.estimated_delay is None,
{
    if matches!(format, ContainerFormat::Mp4 | ContainerFormat::WebM) {
        StreamingCapability { can_stream: false, container_format: format, requires_remuxing: false, estimated_delay: None }
    } else if remuxing_configured && matches!(format, ContainerFormat::Mkv | ContainerFormat::Avi) {
        if can_reconstruct {
            StreamingCapability { can_stream: true, container_format: format, requires_remuxing: true, estimated_delay: Some(Duration::from_secs(60)) }
        } else {
            StreamingCapability { can_stream: false, container_format: format, requires_remuxing: true, estimated_delay: None }
        }
    } else {
        StreamingCapability { can_stream: false, container_format: format, requires_remuxing: false, estimated_delay: None }
    }
}

} // verus!
