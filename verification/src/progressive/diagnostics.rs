//! Decisions of progressive streaming diagnostics: how many pieces a file
//! has, how far the sequential availability scan reaches per step, and the
//! verdict on whether enough sequential data is there to stream.
use vstd::prelude::*;

verus! {

/// Piece size the diagnosis assumes: 256 KB.
pub const DIAGNOSIS_PIECE_SIZE: u64 = 256 * 1024;
/// Bytes from the start whose availability the diagnosis checks first: 10 MB.
pub const INITIAL_CHECK_BYTES: u64 = 10 * 1024 * 1024;

/// The pieces of a file of `file_size` bytes in pieces of `piece_size`, the
/// last one possibly partial.
pub fn total_pieces(file_size: u64, piece_size: u64) -> (n: u64)
    requires
        piece_size > 0,
    ensures
        n == file_size / piece_size + if file_size % piece_size == 0 { 0int } else { 1int },
{
    let q = file_size / piece_size;
    if file_size % piece_size == 0 {
        q
    } else {
        proof {
            let r = file_size % piece_size;
            vstd::arithmetic::div_mod::lemma_fundamental_div_mod(file_size as int, piece_size as int);
            assert(piece_size * q >= q) by (nonlinear_arith)
                requires piece_size >= 1, q >= 0;
            assert(q + r <= file_size);
        }
        q + 1
    }
}

/// The end of the next range the availability scan checks from `available`:
/// a chunk on, or the file's end.
pub fn scan_step_end(available: u64, chunk_size: u64, file_size: u64) -> (e: u64)
    requires
        available + chunk_size <= u64::MAX,
    ensures
        e == if available + chunk_size <= file_size { (available + chunk_size) as u64 } else { file_size },
{
    let e = available + chunk_size;
    if e <= file_size { e } else { file_size }
}

/// The initial range the diagnosis checks: the first 10 MB, or the whole file.
pub fn initial_check_end(file_size: u64) -> (e: u64)
    ensures
        e == if INITIAL_CHECK_BYTES <= file_size { INITIAL_CHECK_BYTES } else { file_size },
{
    if INITIAL_CHECK_BYTES <= file_size { INITIAL_CHECK_BYTES } else { file_size }
}

/// The verdict on a file's sequential data.
#[derive(Debug, Clone, Copy, PartialEq, Eq, Structural)]
pub enum SequentialVerdict {
    /// The first 10 MB are not available: streaming cannot start.
    InitialMissing,
    /// Under a tenth of the file is available from its start.
    VeryLittle,
    /// Under half of the file is available from its start.
    LessThanHalf,
    /// Enough is available from the start.
    Good,
}

/// The verdict on a file's sequential data: missing when its first 10 MB
/// are not available, else by the share of the file available from its start.
pub open spec fn verdict_of(initial_available: bool, sequential_available: u64, file_size: u64) -> SequentialVerdict {
    if !initial_available {
        SequentialVerdict::InitialMissing
    } else if sequential_available < file_size / 10 {
        SequentialVerdict::VeryLittle
    } else if sequential_available < file_size / 2 {
        SequentialVerdict::LessThanHalf
    } else {
        SequentialVerdict::Good
    }
}

/// The verdict on a file's sequential data (see `verdict_of`).
pub fn diagnose(initial_available: bool, sequential_available: u64, file_size: u64) -> (v: SequentialVerdict)
    ensures
        v == verdict_of(initial_available, sequential_available, file_size),
{
    if !initial_available {
        SequentialVerdict::InitialMissing
    } else if sequential_available < file_size / 10 {
        SequentialVerdict::VeryLittle
    } else if sequential_available < file_size / 2 {
        SequentialVerdict::LessThanHalf
    } else {
        SequentialVerdict::Good
    }
}

/// Pieces fully available when `available_bytes` are available from the
/// start: whole pieces of `piece_size`.
pub fn pieces_downloaded(available_bytes: u64, piece_size: u64) -> (n: u64)
    requires
        piece_size > 0,
    ensures
        n == available_bytes / piece_size,
{
    available_bytes / piece_size
}

} // verus!
