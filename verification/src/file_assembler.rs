//! File assembly from torrent pieces: its errors, the availability query
//! that callers rely on, and the arithmetic of ranges and pieces.
use std::sync::Arc;

use lru::LruCache;
use vstd::prelude::*;

use crate::lru_cache::{entries_distinct, entries_have_key, lru_cap, lru_capacity, lru_entries, lru_get, lru_keys_mru_first, lru_len, lru_new, lru_pop, lru_put, lru_wf};
use crate::storage_cache::{
    drop_torrent, key_position, lemma_key_position, lemma_without_contains, lemma_without_distinct, lemma_without_empty,
    lemma_without_is_drop, lemma_without_remove, lru_insert, lru_lookup, lru_touch, without_keys,
};
use crate::piece_reader::piece_views;
use crate::torrent::{InfoHash, PieceIndex, PieceStore, TorrentError};

verus! {

/// Errors of file assembly.
#[derive(Debug)]
pub enum FileAssemblerError {
    /// The piece store failed.
    Torrent(TorrentError),
    /// The range is empty or reversed.
    InvalidRange { start: u64, end: u64 },
    /// The range runs past the end of the file.
    RangeExceedsFile { start: u64, end: u64, file_size: u64 },
    /// Pieces of the range are missing.
    InsufficientData { start: u64, end: u64, missing_count: usize },
    /// The range cache failed.
    CacheError { reason: String },
}

/// Assembles byte ranges of torrent files from their pieces. The reads
/// themselves are asynchronous and live beside this trait; what the
/// streaming logic decides on is whether a range can be read now. An
/// implementation answers from its stored state: the same question asked of
/// the same assembler gives the same answer.
pub trait FileAssembler {
    /// Whether bytes `start..end` of a torrent's file are available.
    spec fn range_available(&self, info_hash: InfoHash, start: u64, end: u64) -> bool;

    /// Whether bytes `range.start..range.end` of a torrent's file are available.
    fn is_range_available(&self, info_hash: InfoHash, range: std::ops::Range<u64>) -> (b: bool)
        ensures
            b == self.range_available(info_hash, range.start, range.end);
}

/// The cache key of an assembled byte range.
#[derive(Debug, Clone, Copy, PartialEq, Eq, Hash)]
pub struct RangeKey {
    /// The torrent.
    pub info_hash: InfoHash,
    /// First byte of the range.
    pub start: u64,
    /// End of the range (exclusive).
    pub end: u64,
}

impl RangeKey {
    /// The key of bytes `range.start..range.end` of a torrent's file.
    pub fn new(info_hash: InfoHash, range: std::ops::Range<u64>) -> (k: RangeKey)
        ensures
            k.info_hash == info_hash,
            k.start == range.start,
            k.end == range.end,
    {
        RangeKey { info_hash, start: range.start, end: range.end }
    }
}

/// The pieces holding bytes `start..end` of a file in pieces of
/// `piece_size`: from the piece of `start` up to, and excluding, the piece
/// after that of the last byte (of `start` itself for an empty range at 0).
pub fn range_to_pieces(start: u64, end: u64, piece_size: u32) -> (r: (u32, u32))
    requires
        piece_size > 0,
        ((if end > 0 { end - 1 } else { 0 }) as int) / (piece_size as int) < u32::MAX,
    ensures
        r.0 == (((start as int) / (piece_size as int)) as u32),
        r.1 == ((((if end > 0 { end - 1 } else { 0 }) as int) / (piece_size as int)) + 1) as u32,
{
    let ps = piece_size as u64;
    #[verifier::truncate]
    let first: u32 = (start / ps) as u32;
    let last_byte: u64 = if end > 0 { end - 1 } else { 0 };
    let last: u32 = (last_byte / ps) as u32;
    (first, last + 1)
}

/// Checks an assembled read of bytes `start..end` from a file of
/// `file_size` bytes: the range must be non-empty and within the file.
pub fn validate_read(start: u64, end: u64, file_size: u64) -> (r: Result<(), FileAssemblerError>)
    ensures
        start >= end ==> (r matches Err(FileAssemblerError::InvalidRange { start: s, end: e }) && s == start && e == end),
        start < end && end > file_size ==> (r matches Err(FileAssemblerError::RangeExceedsFile { start: s, end: e, file_size: f })
            && s == start && e == end && f == file_size),
        start < end && end <= file_size ==> r is Ok,
{
    if start >= end {
        return Err(FileAssemblerError::InvalidRange { start, end });
    }
    if end > file_size {
        return Err(FileAssemblerError::RangeExceedsFile { start, end, file_size });
    }
    Ok(())
}

/// The size of a torrent's file as assembly estimates it: one piece is its
/// size; more pieces are the full pieces before the last plus the last
/// piece's size when it is held, or all pieces full when it is not.
pub open spec fn estimated_file_size(piece_count: u32, piece_size: u32, last_piece_len: Option<u64>) -> int {
    if piece_count == 1 {
        piece_size as int
    } else {
        match last_piece_len {
            Some(n) => (piece_count - 1) * piece_size + n,
            None => piece_count * piece_size,
        }
    }
}

/// The estimated size of a torrent's file (see `estimated_file_size`).
pub fn estimate_file_size(piece_count: u32, piece_size: u32, last_piece_len: Option<u64>) -> (n: u64)
    requires
        piece_count >= 1,
        estimated_file_size(piece_count, piece_size, last_piece_len) <= u64::MAX,
    ensures
        n == estimated_file_size(piece_count, piece_size, last_piece_len),
{
    if piece_count == 1 {
        piece_size as u64
    } else {
        proof {
            assert((piece_count - 1) * piece_size <= u32::MAX * u32::MAX) by (nonlinear_arith)
                requires piece_count <= u32::MAX, piece_size <= u32::MAX;
            assert(piece_count * piece_size <= u32::MAX * u32::MAX) by (nonlinear_arith)
                requires piece_count <= u32::MAX, piece_size <= u32::MAX;
        }
        match last_piece_len {
            Some(last) => (piece_count - 1) as u64 * piece_size as u64 + last,
            None => piece_count as u64 * piece_size as u64,
        }
    }
}

/// Assembled ranges of at most this many bytes are cached.
pub const MAX_CACHED_RANGE_BYTES: usize = 1024 * 1024;

/// Whether an assembled range of `len` bytes is cached.
pub fn should_cache(len: usize) -> (b: bool)
    ensures
        b == (len <= MAX_CACHED_RANGE_BYTES),
{
    len <= MAX_CACHED_RANGE_BYTES
}

/// The piece size assumed when a torrent's is not known yet.
pub const DEFAULT_PIECE_SIZE: u64 = 262_144;

/// Whether a piece store holds every piece with a byte in `start..end`
/// (for an empty range at 0, the first piece), for pieces of `piece_size`.
pub open spec fn pieces_held<P: PieceStore>(store: P, info_hash: InfoHash, start: u64, end: u64, piece_size: u64) -> bool {
    let first = (start / piece_size) as u32;
    let last = ((if end > 0 { end - 1 } else { 0 }) / (piece_size as int)) as u32;
    forall|i: u32| first <= i <= last ==> #[trigger] store.holds_piece(info_hash, i)
}

/// Whether the pieces holding bytes `start..end` are all in the store
/// (see `pieces_held`); `piece_size` is the torrent's, when known, else
/// the default.
pub fn pieces_available<P: PieceStore>(store: &P, info_hash: InfoHash, start: u64, end: u64, known_piece_size: Option<u32>) -> (b: bool)
    requires
        known_piece_size matches Some(p) ==> p > 0,
    ensures
        b == pieces_held(*store, info_hash, start, end, match known_piece_size {
            Some(p) => p as u64,
            None => DEFAULT_PIECE_SIZE,
        }),
{
    let piece_size: u64 = match known_piece_size {
        Some(p) => p as u64,
        None => DEFAULT_PIECE_SIZE,
    };
    #[verifier::truncate]
    let first: u32 = (start / piece_size) as u32;
    let last_byte: u64 = if end > 0 { end - 1 } else { 0 };
    #[verifier::truncate]
    let last: u32 = (last_byte / piece_size) as u32;
    let mut i: u32 = first;
    if first > last {
        return true;
    }
    loop
        invariant
            first <= i <= last,
            piece_size == (match known_piece_size { Some(p) => p as u64, None => DEFAULT_PIECE_SIZE }),
            piece_size > 0,
            first == ((start / piece_size) as u32),
            last == ((last_byte / piece_size) as u32),
            last_byte == (if end > 0 { end - 1 } else { 0 }),
            forall|j: u32| first <= j < i ==> #[trigger] store.holds_piece(info_hash, j),
        decreases last - i,
    {
        if !store.has_piece(info_hash, PieceIndex::new(i)) {
            return false;
        }
        if i == last {
            return true;
        }
        i = i + 1;
    }
}

/// What assembly knows of a torrent's file: its piece size and its size.
#[derive(Debug, Clone, Copy, PartialEq, Eq, Structural)]
pub struct TorrentMetadata {
    /// Bytes per piece (the last piece may be shorter).
    pub piece_size: u32,
    /// Bytes of the file.
    pub file_size: u64,
}

/// A torrent's metadata from its piece count, the length of the first
/// piece the store holds (`None` when it holds none) and, for more than
/// one piece, the length of the last piece when the store holds it.
///
/// No pieces make an empty file. Otherwise the piece size is the first held
/// piece's length (as a `u32`); when the store holds no piece, or that
/// length is zero, the size cannot be known and every piece counts as
/// missing. The file size is estimated as `estimated_file_size` says.
pub fn compute_metadata(piece_count: u32, first_held_len: Option<usize>, last_piece_len: Option<usize>) -> (r: Result<TorrentMetadata, FileAssemblerError>)
    requires
        piece_count >= 2 ==> (last_piece_len matches Some(n) ==> (piece_count - 1) * u32::MAX + n <= u64::MAX),
    ensures
        piece_count == 0 ==> r == Ok::<TorrentMetadata, FileAssemblerError>(TorrentMetadata { piece_size: 0, file_size: 0 }),
        piece_count > 0 ==> ({
            let piece_size: u32 = match first_held_len {
                Some(n) => n as u32,
                None => 0,
            };
            let last: Option<u64> = match last_piece_len {
                Some(n) => Some(n as u64),
                None => None,
            };
            if piece_size == 0 {
                r matches Err(FileAssemblerError::InsufficientData { start, end, missing_count })
                    && start == 0 && end == 0 && missing_count == piece_count
            } else {
                r matches Ok(m) && m.piece_size == piece_size
                    && m.file_size == estimated_file_size(piece_count, piece_size, last)
            }
        }),
{
    if piece_count == 0 {
        return Ok(TorrentMetadata { piece_size: 0, file_size: 0 });
    }
    #[verifier::truncate]
    let piece_size: u32 = match first_held_len {
        Some(n) => n as u32,
        None => 0,
    };
    if piece_size == 0 {
        return Err(FileAssemblerError::InsufficientData { start: 0, end: 0, missing_count: piece_count as usize });
    }
    let last: Option<u64> = match last_piece_len {
        Some(n) => Some(n as u64),
        None => None,
    };
    proof {
        if piece_count >= 2 {
            if let Some(n) = last {
                assert((piece_count - 1) * piece_size <= (piece_count - 1) * u32::MAX) by (nonlinear_arith)
                    requires piece_count >= 1, piece_size <= u32::MAX;
            }
            assert(piece_count * piece_size <= u32::MAX * u32::MAX) by (nonlinear_arith)
                requires piece_count <= u32::MAX, piece_size <= u32::MAX;
        }
    }
    let file_size = estimate_file_size(piece_count, piece_size, last);
    Ok(TorrentMetadata { piece_size, file_size })
}

/// The number of pieces among `first..end` that the store does not hold.
pub open spec fn missing_count<P: PieceStore>(store: P, info_hash: InfoHash, first: u32, end: int) -> nat
    decreases end - first,
{
    if end <= first {
        0
    } else {
        missing_count(store, info_hash, first, end - 1) + if store.holds_piece(info_hash, (end - 1) as u32) {
            0nat
        } else {
            1nat
        }
    }
}

/// Counts the pieces among `first..end` that the store does not hold.
pub fn count_missing_pieces<P: PieceStore>(store: &P, info_hash: InfoHash, first: u32, end: u32) -> (n: usize)
    ensures
        n == missing_count(*store, info_hash, first, end as int),
{
    let mut n: usize = 0;
    let mut i: u32 = first;
    if end <= first {
        return 0;
    }
    while i < end
        invariant
            first <= i <= end,
            n == missing_count(*store, info_hash, first, i as int),
            n <= i - first,
        decreases end - i,
    {
        if !store.has_piece(info_hash, PieceIndex::new(i)) {
            n = n + 1;
        }
        i = i + 1;
    }
    n
}

/// The bytes assembly collects from `pieces`, the data of consecutive
/// pieces from piece `index` on, for the bytes from `position` up to `end`:
/// each piece gives its bytes from the position (from its start when the
/// position lies before it) up to what the range still needs; collection
/// stops once the range is complete or the pieces run out. A piece shorter
/// than the offset into it cannot be read (`None`).
pub open spec fn collected(pieces: Seq<Seq<u8>>, k: int, index: int, piece_size: int, position: int, end: int) -> Option<Seq<u8>>
    decreases pieces.len() - k,
{
    if k < 0 || k >= pieces.len() {
        Some(Seq::empty())
    } else {
        let data = pieces[k];
        let piece_start = index * piece_size;
        let off = if position >= piece_start {
            position - piece_start
        } else {
            0
        };
        if off > data.len() {
            None
        } else {
            let avail = data.len() - off;
            let copy = if end - position <= avail {
                end - position
            } else {
                avail
            };
            let bytes = data.subrange(off, off + copy);
            if position + copy >= end {
                Some(bytes)
            } else {
                match collected(pieces, k + 1, index + 1, piece_size, position + copy, end) {
                    Some(rest) => Some(bytes + rest),
                    None => None,
                }
            }
        }
    }
}

/// Assembles bytes `start..end` of a file from the data of its pieces
/// `first`, `first + 1`, ... (see `collected`); `None` when a piece is
/// shorter than the offset into it.
pub fn assemble_range_from_pieces(pieces: &Vec<Vec<u8>>, first: u32, piece_size: u32, start: u64, end: u64) -> (r: Option<Vec<u8>>)
    requires
        start < end,
        first + pieces@.len() <= u32::MAX + 1,
    ensures
        r is None <==> collected(piece_views(pieces@), 0, first as int, piece_size as int, start as int, end as int) is None,
        r matches Some(v) ==> Some(v@) == collected(piece_views(pieces@), 0, first as int, piece_size as int, start as int, end as int),
{
    let ghost views = piece_views(pieces@);
    let ghost target = collected(views, 0, first as int, piece_size as int, start as int, end as int);
    let mut result: Vec<u8> = Vec::new();
    let mut current: u64 = start;
    let ps = piece_size as u64;
    let mut k: usize = 0;
    while k < pieces.len()
        invariant
            k <= pieces@.len(),
            views == piece_views(pieces@),
            first + pieces@.len() <= u32::MAX + 1,
            start <= current < end,
            ps == piece_size,
            target == collected(views, 0, first as int, piece_size as int, start as int, end as int),
            target == match collected(views, k as int, first + k, piece_size as int, current as int, end as int) {
                Some(rest) => Some(result@ + rest),
                None => None::<Seq<u8>>,
            },
        decreases pieces@.len() - k,
    {
        let data = &pieces[k];
        let index: u32 = first + k as u32;
        proof {
            assert(data@ == views[k as int]);
            assert(index as u64 * ps <= u32::MAX as u64 * u32::MAX as u64) by (nonlinear_arith)
                requires index <= u32::MAX, ps <= u32::MAX;
        }
        let piece_start: u64 = index as u64 * ps;
        let off: u64 = if current >= piece_start { current - piece_start } else { 0 };
        let len = data.len() as u64;
        if off > len {
            proof {
                assert(collected(views, k as int, first + k, piece_size as int, current as int, end as int) is None);
            }
            return None;
        }
        let avail: u64 = len - off;
        let need: u64 = end - current;
        let copy: u64 = if need <= avail { need } else { avail };
        let ghost before = result@;
        let mut j: usize = off as usize;
        let stop: usize = (off + copy) as usize;
        while j < stop
            invariant
                off <= j <= stop <= data@.len(),
                result@ == before + data@.subrange(off as int, j as int),
            decreases stop - j,
        {
            result.push(data[j]);
            proof {
                assert(result@ =~= before + data@.subrange(off as int, j + 1));
            }
            j = j + 1;
        }
        let ghost cur0 = current as int;
        current = current + copy;
        if current >= end {
            proof {
                assert(collected(views, k as int, first + k, piece_size as int, cur0, end as int)
                    == Some(data@.subrange(off as int, (off + copy) as int)));
                assert(result@ =~= before + data@.subrange(off as int, (off + copy) as int));
                assert(target == Some(result@));
            }
            return Some(result);
        }
        proof {
            let rest = collected(views, k + 1, first + k + 1, piece_size as int, current as int, end as int);
            match rest {
                Some(rr) => {
                    assert(before + (data@.subrange(off as int, (off + copy) as int) + rr) =~= result@ + rr);
                },
                None => {},
            }
        }
        k = k + 1;
    }
    proof {
        assert(result@ + Seq::<u8>::empty() =~= result@);
    }
    Some(result)
}

/// The metadata remembered for `h`, if any.
pub open spec fn metadata_of(t: Seq<(InfoHash, TorrentMetadata)>, h: InfoHash) -> Option<TorrentMetadata> {
    if exists|i: int| 0 <= i < t.len() && (#[trigger] t[i]).0.0@ == h.0@ {
        Some(t[choose|i: int| 0 <= i < t.len() && (#[trigger] t[i]).0.0@ == h.0@].1)
    } else {
        None
    }
}

/// At most one metadata entry per torrent, each with a nonzero piece size.
pub open spec fn metadata_wf(t: Seq<(InfoHash, TorrentMetadata)>) -> bool {
    &&& forall|i: int, j: int| 0 <= i < j < t.len() ==> (#[trigger] t[i]).0.0@ != (#[trigger] t[j]).0.0@
    &&& forall|i: int| 0 <= i < t.len() ==> (#[trigger] t[i]).1.piece_size > 0
}

proof fn lemma_metadata_at(t: Seq<(InfoHash, TorrentMetadata)>, h: InfoHash, i: int)
    requires
        metadata_wf(t),
        0 <= i < t.len(),
        t[i].0.0@ == h.0@,
    ensures
        metadata_of(t, h) == Some(t[i].1),
{
    let k = choose|k: int| 0 <= k < t.len() && (#[trigger] t[k]).0.0@ == h.0@;
    if k != i {
        if k < i {
            assert(t[k].0.0@ != t[i].0.0@);
        } else {
            assert(t[i].0.0@ != t[k].0.0@);
        }
    }
}

/// The cache key of bytes `start..end` of the torrent `h`.
pub open spec fn range_key(h: InfoHash, start: u64, end: u64) -> ([u8; 20], u64, u64) {
    (h.0, start, end)
}

/// The piece size availability checks assume for a torrent: the
/// remembered one, else the default.
pub open spec fn assumed_piece_size(t: Seq<(InfoHash, TorrentMetadata)>, h: InfoHash) -> u64 {
    match metadata_of(t, h) {
        Some(m) => m.piece_size as u64,
        None => DEFAULT_PIECE_SIZE,
    }
}

proof fn lemma_metadata_update_wf(t: Seq<(InfoHash, TorrentMetadata)>, i: int, x: (InfoHash, TorrentMetadata))
    requires
        metadata_wf(t),
        0 <= i < t.len(),
        t[i].0.0@ == x.0.0@,
        x.1.piece_size > 0,
    ensures
        metadata_wf(t.update(i, x)),
{
    let u = t.update(i, x);
    assert forall|a: int, b: int| 0 <= a < b < u.len() implies (#[trigger] u[a]).0.0@ != (#[trigger] u[b]).0.0@ by {
        assert(u[a].0.0@ == t[a].0.0@);
        assert(u[b].0.0@ == t[b].0.0@);
    }
}

proof fn lemma_metadata_push_wf(t: Seq<(InfoHash, TorrentMetadata)>, x: (InfoHash, TorrentMetadata))
    requires
        metadata_wf(t),
        forall|j: int| 0 <= j < t.len() ==> (#[trigger] t[j]).0.0@ != x.0.0@,
        x.1.piece_size > 0,
    ensures
        metadata_wf(t.push(x)),
{
    let u = t.push(x);
    assert forall|a: int, b: int| 0 <= a < b < u.len() implies (#[trigger] u[a]).0.0@ != (#[trigger] u[b]).0.0@ by {
        if b == t.len() {
            assert(u[a] == t[a]);
        } else {
            assert(u[a] == t[a] && u[b] == t[b]);
        }
    }
    assert forall|a: int| 0 <= a < u.len() implies (#[trigger] u[a]).1.piece_size > 0 by {
        if a < t.len() {
            assert(u[a] == t[a]);
        }
    }
}

proof fn lemma_metadata_remove_wf(t: Seq<(InfoHash, TorrentMetadata)>, i: int)
    requires
        metadata_wf(t),
        0 <= i < t.len(),
    ensures
        metadata_wf(t.remove(i)),
{
    let u = t.remove(i);
    assert forall|a: int, b: int| 0 <= a < b < u.len() implies (#[trigger] u[a]).0.0@ != (#[trigger] u[b]).0.0@ by {
        let a0 = if a < i { a } else { a + 1 };
        let b0 = if b < i { b } else { b + 1 };
        assert(u[a] == t[a0]);
        assert(u[b] == t[b0]);
    }
    assert forall|a: int| 0 <= a < u.len() implies (#[trigger] u[a]).1.piece_size > 0 by {
        let a0 = if a < i { a } else { a + 1 };
        assert(u[a] == t[a0]);
    }
}

/// Assembles byte ranges of torrent files from a piece store, keeping the
/// assembled ranges in a least-recently-used cache and each torrent's
/// metadata once computed.
pub struct PieceFileAssembler<P: PieceStore> {
    piece_store: Arc<P>,
    range_cache: LruCache<([u8; 20], u64, u64), Vec<u8>>,
    metadata_cache: Vec<(InfoHash, TorrentMetadata)>,
}

impl<P: PieceStore> PieceFileAssembler<P> {
    /// The cached ranges, least recently used first.
    pub closed spec fn spec_entries(&self) -> Seq<(([u8; 20], u64, u64), Seq<u8>)> {
        lru_entries(self.range_cache)
    }

    /// The number of ranges the cache holds at most.
    pub closed spec fn spec_capacity(&self) -> nat {
        lru_capacity(self.range_cache)
    }

    /// The remembered metadata.
    pub closed spec fn spec_metadata(&self) -> Seq<(InfoHash, TorrentMetadata)> {
        self.metadata_cache@
    }

    /// The piece store.
    pub closed spec fn spec_store(&self) -> P {
        *self.piece_store
    }

    /// The assembler's invariant: the cache keeps its shape and the
    /// metadata is one entry per torrent with nonzero piece sizes.
    pub closed spec fn wf(&self) -> bool {
        &&& lru_wf(self.range_cache)
        &&& metadata_wf(self.metadata_cache@)
    }

    /// An assembler over a piece store caching at most `cache_size` ranges
    /// (64 when absent).
    pub fn new(piece_store: Arc<P>, cache_size: Option<usize>) -> (a: PieceFileAssembler<P>)
        requires
            cache_size != Some(0usize),
        ensures
            a.wf(),
            a.spec_store() == *piece_store,
            a.spec_entries() == Seq::<(([u8; 20], u64, u64), Seq<u8>)>::empty(),
            a.spec_capacity() == match cache_size {
                Some(n) => n as nat,
                None => 64,
            },
            a.spec_metadata() == Seq::<(InfoHash, TorrentMetadata)>::empty(),
    {
        let cap = match cache_size {
            Some(n) => n,
            None => 64,
        };
        PieceFileAssembler { piece_store, range_cache: lru_new(cap), metadata_cache: Vec::new() }
    }

    /// The piece store.
    pub fn piece_store(&self) -> (s: &Arc<P>)
        ensures
            **s == self.spec_store(),
    {
        &self.piece_store
    }

    /// The remembered metadata of a torrent, if any.
    pub fn cached_metadata(&self, info_hash: &InfoHash) -> (r: Option<TorrentMetadata>)
        requires
            self.wf(),
        ensures
            r == metadata_of(self.spec_metadata(), *info_hash),
            r matches Some(m) ==> m.piece_size > 0,
    {
        let n = self.metadata_cache.len();
        let mut i: usize = 0;
        while i < n
            invariant
                self.wf(),
                n == self.metadata_cache@.len(),
                i <= n,
                forall|j: int| 0 <= j < i ==> (#[trigger] self.metadata_cache@[j]).0.0@ != info_hash.0@,
            decreases n - i,
        {
            if self.metadata_cache[i].0 == *info_hash {
                proof {
                    lemma_metadata_at(self.metadata_cache@, *info_hash, i as int);
                }
                return Some(self.metadata_cache[i].1);
            }
            i = i + 1;
        }
        None
    }

    /// Remembers the metadata of a torrent, replacing what was remembered.
    pub fn remember_metadata(&mut self, info_hash: InfoHash, metadata: TorrentMetadata)
        requires
            old(self).wf(),
            metadata.piece_size > 0,
        ensures
            final(self).wf(),
            metadata_of(final(self).spec_metadata(), info_hash) == Some(metadata),
            forall|g: InfoHash| g.0@ != info_hash.0@ ==> #[trigger] metadata_of(final(self).spec_metadata(), g)
                == metadata_of(old(self).spec_metadata(), g),
            final(self).spec_entries() == old(self).spec_entries(),
            final(self).spec_capacity() == old(self).spec_capacity(),
            final(self).spec_store() == old(self).spec_store(),
    {
        let ghost t0 = self.metadata_cache@;
        let n = self.metadata_cache.len();
        let mut i: usize = 0;
        while i < n
            invariant
                self.metadata_cache@ == t0,
                metadata_wf(t0),
                n == t0.len(),
                i <= n,
                forall|j: int| 0 <= j < i ==> (#[trigger] t0[j]).0.0@ != info_hash.0@,
            ensures
                i <= n,
                forall|j: int| 0 <= j < i ==> (#[trigger] t0[j]).0.0@ != info_hash.0@,
                i < n ==> t0[i as int].0.0@ == info_hash.0@,
            decreases n - i,
        {
            if self.metadata_cache[i].0 == info_hash {
                break;
            }
            i = i + 1;
        }
        if i < n {
            proof {
                lemma_metadata_update_wf(t0, i as int, (info_hash, metadata));
            }
            self.metadata_cache.set(i, (info_hash, metadata));
            proof {
                let t = self.metadata_cache@;
                assert(t == t0.update(i as int, (info_hash, metadata)));
                lemma_metadata_at(t, info_hash, i as int);
                assert forall|g: InfoHash| g.0@ != info_hash.0@ implies #[trigger] metadata_of(t, g) == metadata_of(t0, g) by {
                    if exists|k: int| 0 <= k < t.len() && (#[trigger] t[k]).0.0@ == g.0@ {
                        let k = choose|k: int| 0 <= k < t.len() && (#[trigger] t[k]).0.0@ == g.0@;
                        assert(k != i);
                        lemma_metadata_at(t, g, k);
                        lemma_metadata_at(t0, g, k);
                    } else {
                        if exists|k: int| 0 <= k < t0.len() && (#[trigger] t0[k]).0.0@ == g.0@ {
                            let k = choose|k: int| 0 <= k < t0.len() && (#[trigger] t0[k]).0.0@ == g.0@;
                            assert(t[k].0.0@ == g.0@);
                        }
                    }
                }
            }
        } else {
            proof {
                lemma_metadata_push_wf(t0, (info_hash, metadata));
            }
            self.metadata_cache.push((info_hash, metadata));
            proof {
                let t = self.metadata_cache@;
                lemma_metadata_at(t, info_hash, t0.len() as int);
                assert forall|g: InfoHash| g.0@ != info_hash.0@ implies #[trigger] metadata_of(t, g) == metadata_of(t0, g) by {
                    if exists|k: int| 0 <= k < t.len() && (#[trigger] t[k]).0.0@ == g.0@ {
                        let k = choose|k: int| 0 <= k < t.len() && (#[trigger] t[k]).0.0@ == g.0@;
                        assert(k < t0.len());
                        lemma_metadata_at(t, g, k);
                        lemma_metadata_at(t0, g, k);
                    } else {
                        if exists|k: int| 0 <= k < t0.len() && (#[trigger] t0[k]).0.0@ == g.0@ {
                            let k = choose|k: int| 0 <= k < t0.len() && (#[trigger] t0[k]).0.0@ == g.0@;
                            assert(t[k].0.0@ == g.0@);
                        }
                    }
                }
            }
        }
    }

    /// Looks up the cached bytes `start..end` of a torrent; a hit makes the
    /// entry the most recently used.
    pub fn cached_range(&mut self, info_hash: &InfoHash, start: u64, end: u64) -> (r: Option<Vec<u8>>)
        requires
            old(self).wf(),
        ensures
            final(self).wf(),
            final(self).spec_entries() == lru_touch(old(self).spec_entries(), range_key(*info_hash, start, end)),
            match lru_lookup(old(self).spec_entries(), range_key(*info_hash, start, end)) {
                Some(v) => r is Some && r->Some_0@ == v,
                None => r is None,
            },
            final(self).spec_capacity() == old(self).spec_capacity(),
            final(self).spec_metadata() == old(self).spec_metadata(),
            final(self).spec_store() == old(self).spec_store(),
    {
        let k = (info_hash.0, start, end);
        let ghost e = lru_entries(self.range_cache);
        let r = lru_get(&mut self.range_cache, &k);
        proof {
            if entries_have_key(e, k) {
                let i = choose|i: int| 0 <= i < e.len() && (#[trigger] e[i]).0 == k
                    && r is Some && r->Some_0@ == e[i].1
                    && lru_entries(self.range_cache) == e.remove(i).push(e[i]);
                lemma_key_position(e, k, i);
            }
        }
        r
    }

    /// Caches assembled bytes `start..end` of a torrent when they are at
    /// most `MAX_CACHED_RANGE_BYTES` long.
    pub fn cache_range(&mut self, info_hash: &InfoHash, start: u64, end: u64, data: Vec<u8>)
        requires
            old(self).wf(),
        ensures
            final(self).wf(),
            final(self).spec_entries() == if data@.len() <= MAX_CACHED_RANGE_BYTES {
                lru_insert(old(self).spec_entries(), old(self).spec_capacity(), range_key(*info_hash, start, end), data@)
            } else {
                old(self).spec_entries()
            },
            final(self).spec_capacity() == old(self).spec_capacity(),
            final(self).spec_metadata() == old(self).spec_metadata(),
            final(self).spec_store() == old(self).spec_store(),
    {
        if should_cache(data.len()) {
            let k = (info_hash.0, start, end);
            let ghost e = lru_entries(self.range_cache);
            let ghost dv = data@;
            let previous = lru_put(&mut self.range_cache, k, data);
            proof {
                if entries_have_key(e, k) {
                    let i = choose|i: int| 0 <= i < e.len() && (#[trigger] e[i]).0 == k
                        && previous is Some && previous->Some_0@ == e[i].1
                        && lru_entries(self.range_cache) == e.remove(i).push((k, dv));
                    lemma_key_position(e, k, i);
                }
            }
        }
    }

    /// Drops the cached ranges and the metadata of a torrent; the other
    /// torrents' ranges keep their order.
    pub fn clear_cache(&mut self, info_hash: &InfoHash)
        requires
            old(self).wf(),
        ensures
            final(self).wf(),
            final(self).spec_entries() == drop_torrent(old(self).spec_entries(), info_hash.0@),
            metadata_of(final(self).spec_metadata(), *info_hash) is None,
            forall|g: InfoHash| g.0@ != info_hash.0@ ==> #[trigger] metadata_of(final(self).spec_metadata(), g)
                == metadata_of(old(self).spec_metadata(), g),
            final(self).spec_capacity() == old(self).spec_capacity(),
            final(self).spec_store() == old(self).spec_store(),
    {
        let keys = lru_keys_mru_first(&self.range_cache);
        let ghost e0 = lru_entries(self.range_cache);
        let ghost mut removed: Set<([u8; 20], u64, u64)> = Set::empty();
        let n = keys.len();
        let mut i: usize = 0;
        proof {
            lemma_without_empty(e0);
        }
        while i < n
            invariant
                n == keys@.len(),
                n == e0.len(),
                i <= n,
                forall|j: int| 0 <= j < keys@.len() ==> #[trigger] keys@[j] == e0[e0.len() - 1 - j].0,
                entries_distinct(e0),
                lru_wf(self.range_cache),
                metadata_wf(self.metadata_cache@),
                e0 == lru_entries(old(self).range_cache),
                lru_capacity(self.range_cache) == lru_capacity(old(self).range_cache),
                lru_entries(self.range_cache) == without_keys(e0, removed),
                forall|x: ([u8; 20], u64, u64)| removed.contains(x) <==> exists|j: int| 0 <= j < i && #[trigger] keys@[j] == x && x.0@ == info_hash.0@,
                self.metadata_cache == old(self).metadata_cache,
                self.piece_store == old(self).piece_store,
            decreases n - i,
        {
            let k = keys[i];
            if InfoHash(k.0) == *info_hash {
                let ghost before = lru_entries(self.range_cache);
                proof {
                    assert(!removed.contains(k)) by {
                        if removed.contains(k) {
                            let j = choose|j: int| 0 <= j < i && #[trigger] keys@[j] == k && k.0@ == info_hash.0@;
                            assert(e0[e0.len() - 1 - j].0 != e0[e0.len() - 1 - i].0);
                        }
                    }
                    let p = e0.len() - 1 - i;
                    assert(e0[p].0 == k);
                    lemma_without_distinct(e0, removed);
                    assert(entries_have_key(before, k)) by {
                        lemma_without_contains(e0, removed, p);
                    }
                }
                let popped = lru_pop(&mut self.range_cache, &k);
                proof {
                    let j = choose|j: int| 0 <= j < before.len() && (#[trigger] before[j]).0 == k
                        && popped is Some && popped->Some_0@ == before[j].1
                        && lru_entries(self.range_cache) == before.remove(j);
                    lemma_without_remove(e0, removed, k, j);
                    removed = removed.insert(k);
                }
            }
            i = i + 1;
        }
        proof {
            assert forall|j: int| 0 <= j < e0.len() implies (removed.contains(#[trigger] e0[j].0) <==> e0[j].0.0@ == info_hash.0@) by {
                let m = e0.len() - 1 - j;
                assert(keys@[m] == e0[j].0);
                if removed.contains(e0[j].0) {
                    let q = choose|q: int| 0 <= q < n && #[trigger] keys@[q] == e0[j].0 && e0[j].0.0@ == info_hash.0@;
                }
            }
            lemma_without_is_drop(e0, removed, info_hash.0@);
        }
        let ghost t0 = self.metadata_cache@;
        let nm = self.metadata_cache.len();
        let mut q: usize = 0;
        while q < nm
            invariant
                self.metadata_cache@ == t0,
                metadata_wf(t0),
                nm == t0.len(),
                q <= nm,
                forall|j: int| 0 <= j < q ==> (#[trigger] t0[j]).0.0@ != info_hash.0@,
            ensures
                q <= nm,
                forall|j: int| 0 <= j < q ==> (#[trigger] t0[j]).0.0@ != info_hash.0@,
                q < nm ==> t0[q as int].0.0@ == info_hash.0@,
            decreases nm - q,
        {
            if self.metadata_cache[q].0 == *info_hash {
                break;
            }
            q = q + 1;
        }
        if q < nm {
            proof {
                lemma_metadata_remove_wf(t0, q as int);
            }
            let _gone = self.metadata_cache.remove(q);
            proof {
                let t = self.metadata_cache@;
                assert(t == t0.remove(q as int));
                if exists|k: int| 0 <= k < t.len() && (#[trigger] t[k]).0.0@ == info_hash.0@ {
                    let k = choose|k: int| 0 <= k < t.len() && (#[trigger] t[k]).0.0@ == info_hash.0@;
                    let k0 = if k < q { k } else { k + 1 };
                    assert(t[k] == t0[k0]);
                    if k0 < q {
                        assert(t0[k0].0.0@ != t0[q as int].0.0@);
                    } else {
                        assert(t0[q as int].0.0@ != t0[k0].0.0@);
                    }
                }
                assert forall|g: InfoHash| g.0@ != info_hash.0@ implies #[trigger] metadata_of(t, g) == metadata_of(t0, g) by {
                    if exists|k: int| 0 <= k < t.len() && (#[trigger] t[k]).0.0@ == g.0@ {
                        let k = choose|k: int| 0 <= k < t.len() && (#[trigger] t[k]).0.0@ == g.0@;
                        let k0 = if k < q { k } else { k + 1 };
                        assert(t[k] == t0[k0]);
                        lemma_metadata_at(t, g, k);
                        lemma_metadata_at(t0, g, k0);
                    } else {
                        if exists|k: int| 0 <= k < t0.len() && (#[trigger] t0[k]).0.0@ == g.0@ {
                            let k = choose|k: int| 0 <= k < t0.len() && (#[trigger] t0[k]).0.0@ == g.0@;
                            assert(k != q);
                            let k1 = if k < q { k } else { k - 1 };
                            assert(t[k1] == t0[k]);
                        }
                    }
                }
            }
        }
    }

    /// The number of cached ranges.
    pub fn cache_len(&self) -> (n: usize)
        ensures
            n == self.spec_entries().len(),
    {
        lru_len(&self.range_cache)
    }

    /// The number of ranges the cache holds at most.
    pub fn cache_capacity(&self) -> (n: usize)
        ensures
            n == self.spec_capacity(),
    {
        lru_cap(&self.range_cache)
    }
}

impl<P: PieceStore> PieceFileAssembler<P> {
    /// Whether every piece holding a byte of `range` is in the store, for
    /// the torrent's remembered piece size or else the default.
    pub fn is_range_available(&self, info_hash: InfoHash, range: std::ops::Range<u64>) -> (b: bool)
        requires
            self.wf(),
        ensures
            b == pieces_held(self.spec_store(), info_hash, range.start, range.end, assumed_piece_size(self.spec_metadata(), info_hash)),
    {
        let known = match self.cached_metadata(&info_hash) {
            Some(m) => Some(m.piece_size),
            None => None,
        };
        pieces_available(&*self.piece_store, info_hash, range.start, range.end, known)
    }
}

} // verus!
