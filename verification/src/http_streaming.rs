//! HTTP streaming of a torrent's media: which producer serves it.
use vstd::prelude::*;

use crate::media_info::{detect_container_format, detected_format, extension, extension_of, mime_of, mime_type, needs_remux, requires_remuxing};
use crate::remux::types::StrategyError;

verus! {

/// Bytes of the file's start read to detect its format.
pub const HEADER_SIZE: usize = 64;

/// The producer a stream gets.
#[derive(Debug, Clone)]
pub enum ProducerChoice {
    /// Remux a file of this container (its usual extension).
    Remux { source_format: String },
    /// Serve the file as it is, with this MIME type.
    Direct { content_type: String },
}

/// The producer for a file whose first bytes are `header`: detection
/// failure (too few bytes) is an error; formats that need remuxing are
/// remuxed, the rest served directly.
pub fn choose_producer(header: &[u8]) -> (r: Result<ProducerChoice, StrategyError>)
    ensures
        header@.len() < 12 ==> r matches Err(StrategyError::FormatDetectionFailed),
        header@.len() >= 12 ==> (r matches Ok(c) && {
            let f = detected_format(header@);
            if needs_remux(f) {
                c matches ProducerChoice::Remux { source_format } && source_format@ == extension_of(f)
            } else {
                c matches ProducerChoice::Direct { content_type } && content_type@ == mime_of(f)
            }
        }),
{
    let format = match detect_container_format(header) {
        Ok(f) => f,
        Err(_) => return Err(StrategyError::FormatDetectionFailed),
    };
    if requires_remuxing(&format) {
        Ok(ProducerChoice::Remux { source_format: extension(&format).to_string() })
    } else {
        Ok(ProducerChoice::Direct { content_type: mime_type(&format).to_string() })
    }
}

/// HTTP streaming of one file through its stream producer.
pub struct HttpStreaming<S> {
    producer: S,
}

impl<S> HttpStreaming<S> {
    /// The producer.
    pub closed spec fn spec_producer(&self) -> S {
        self.producer
    }

    /// Streaming through `producer`.
    pub fn from_producer(producer: S) -> (h: HttpStreaming<S>)
        ensures
            h.spec_producer() == producer,
    {
        HttpStreaming { producer }
    }

    /// The producer.
    pub fn producer(&self) -> (p: &S)
        ensures
            *p == self.spec_producer(),
    {
        &self.producer
    }
}

} // verus!
