//! Serving one torrent's data through the piece provider interface.
use vstd::prelude::*;
use vstd::string::StringExecFns;

use crate::storage::DataError;
use crate::torrent::InfoHash;

verus! {

/// Errors of a piece provider.
#[derive(Debug)]
pub enum PieceProviderError {
    /// The bytes are not downloaded yet.
    NotYetAvailable,
    /// The read does not fit the file.
    InvalidRange { offset: u64, length: usize, file_size: u64 },
    /// The storage failed.
    StorageError(String),
}

/// `<std::io::Error as Display>::fmt`, rendered to a string. Nothing is
/// claimed of the text: it comes from the operating system.
#[verifier::external_body]
fn io_error_text(e: &std::io::Error) -> String {
    e.to_string()
}

/// Whether every range in a data error runs forwards, so that its length
/// can be taken.
pub open spec fn ranges_forward(error: DataError) -> bool {
    match error {
        DataError::RangeExceedsFile { start, end, .. } => start <= end,
        DataError::InvalidRange { start, end } => start <= end,
        _ => true,
    }
}

/// The provider error that a data error becomes: missing data is not yet
/// available; storage, cache, missing-file, torrent and I/O failures are
/// storage errors with a reason; a range past the end or an invalid range
/// becomes an invalid read of the range's length (the file size unknown,
/// zero, for an invalid range).
pub fn convert_data_error(error: DataError) -> (r: PieceProviderError)
    requires
        ranges_forward(error),
    ensures
        error is InsufficientData <==> r is NotYetAvailable,
        error matches DataError::Storage { reason } ==> (r matches PieceProviderError::StorageError(s) && s@ == reason@),
        error matches DataError::Cache { reason } ==> (r matches PieceProviderError::StorageError(s) && s@ == reason@),
        error matches DataError::RangeExceedsFile { start, end, file_size } ==> r == (PieceProviderError::InvalidRange {
            offset: start,
            length: (end - start) as usize,
            file_size,
        }),
        error matches DataError::InvalidRange { start, end } ==> r == (PieceProviderError::InvalidRange {
            offset: start,
            length: (end - start) as usize,
            file_size: 0,
        }),
        error is FileNotFound ==> (r matches PieceProviderError::StorageError(s) && s@ == "File not found"@),
        error matches DataError::Torrent { source } ==> (r matches PieceProviderError::StorageError(s)
            && s@ == "Torrent error: "@ + (if source is PieceHashMismatch { "piece hash mismatch"@ } else { "torrent not found"@ })),
        error is Io ==> (r matches PieceProviderError::StorageError(s) && s@.len() >= 10 && s@.subrange(0, 10) == "IO error: "@),
{
    proof {
        reveal_strlit("IO error: ");
    }
    match error {
        DataError::InsufficientData { .. } => PieceProviderError::NotYetAvailable,
        DataError::Storage { reason } => PieceProviderError::StorageError(reason),
        DataError::Cache { reason } => PieceProviderError::StorageError(reason),
        DataError::RangeExceedsFile { start, end, file_size } => {
            #[verifier::truncate]
            let length = (end - start) as usize;
            PieceProviderError::InvalidRange { offset: start, length, file_size }
        },
        DataError::InvalidRange { start, end } => {
            #[verifier::truncate]
            let length = (end - start) as usize;
            PieceProviderError::InvalidRange { offset: start, length, file_size: 0 }
        },
        DataError::FileNotFound { .. } => PieceProviderError::StorageError("File not found".to_string()),
        DataError::Torrent { source } => {
            let mut s = "Torrent error: ".to_string();
            s.append(source.describe().as_str());
            PieceProviderError::StorageError(s)
        },
        DataError::Io { source } => {
            let mut s = "IO error: ".to_string();
            s.append(io_error_text(&source).as_str());
            PieceProviderError::StorageError(s)
        },
    }
}

/// A piece provider over a data source, for one torrent.
pub struct PieceProviderAdapter<D> {
    data_source: D,
    info_hash: InfoHash,
}

impl<D> PieceProviderAdapter<D> {
    /// The data source.
    pub closed spec fn spec_data_source(&self) -> D {
        self.data_source
    }

    /// The torrent served.
    pub closed spec fn spec_info_hash(&self) -> InfoHash {
        self.info_hash
    }

    /// An adapter serving torrent `info_hash` from `data_source`.
    pub fn new(data_source: D, info_hash: InfoHash) -> (a: PieceProviderAdapter<D>)
        ensures
            a.spec_data_source() == data_source,
            a.spec_info_hash() == info_hash,
    {
        PieceProviderAdapter { data_source, info_hash }
    }

    /// The torrent served.
    pub fn info_hash(&self) -> (h: InfoHash)
        ensures
            h == self.spec_info_hash(),
    {
        self.info_hash
    }

    /// The data source.
    pub fn data_source(&self) -> (d: &D)
        ensures
            *d == self.spec_data_source(),
    {
        &self.data_source
    }
}

/// The end of a provider read of `length` bytes at `offset`.
pub fn read_end(offset: u64, length: usize) -> (e: u64)
    requires
        offset + length <= u64::MAX,
    ensures
        e == offset + length,
{
    offset + length as u64
}

} // verus!
