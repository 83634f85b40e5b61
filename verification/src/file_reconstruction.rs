//! Whether a torrent's file can be rebuilt from its stored pieces, and
//! which pieces are missing.
use std::sync::Arc;
use vstd::prelude::*;

use crate::strategy::StreamingError;
use crate::torrent::{InfoHash, PieceIndex, PieceStore};

verus! {

/// The pieces below `count` that the store lacks, in index order.
pub open spec fn missing_below<P: PieceStore>(store: P, info_hash: InfoHash, count: nat) -> Seq<u32>
    decreases count,
{
    if count == 0 {
        Seq::empty()
    } else {
        let rest = missing_below(store, info_hash, (count - 1) as nat);
        if store.holds_piece(info_hash, (count - 1) as u32) {
            rest
        } else {
            rest.push((count - 1) as u32)
        }
    }
}

/// Rebuilds files from the pieces of a piece store.
pub struct FileReconstructor<P: PieceStore> {
    piece_store: Arc<P>,
}

impl<P: PieceStore> FileReconstructor<P> {
    /// The piece store.
    pub closed spec fn spec_store(&self) -> P {
        *self.piece_store
    }

    /// A reconstructor over `piece_store`.
    pub fn new(piece_store: Arc<P>) -> (r: FileReconstructor<P>)
        ensures
            r.spec_store() == *piece_store,
    {
        FileReconstructor { piece_store }
    }

    /// The piece store.
    pub fn piece_store(&self) -> (p: &Arc<P>)
        ensures
            **p == self.spec_store(),
    {
        &self.piece_store
    }

    /// Whether the store holds every piece of the torrent; an unknown piece
    /// count is a storage error.
    pub fn can_reconstruct(&self, info_hash: InfoHash) -> (r: Result<bool, StreamingError>)
        ensures
            self.spec_store().count_of(info_hash) is Err <==> r matches Err(StreamingError::PieceStorageError { .. }),
            self.spec_store().count_of(info_hash) matches Ok(n) ==> (r matches Ok(b) && b == forall|i: u32| i < n ==> #[trigger] self.spec_store().holds_piece(info_hash, i)),
    {
        let piece_count = match self.piece_store.piece_count(info_hash) {
            Ok(n) => n,
            Err(e) => return Err(StreamingError::PieceStorageError { reason: e.describe() }),
        };
        let mut i: u32 = 0;
        while i < piece_count
            invariant
                i <= piece_count,
                self.spec_store().count_of(info_hash) == Ok::<u32, crate::torrent::TorrentError>(piece_count),
                forall|j: u32| j < i ==> #[trigger] self.spec_store().holds_piece(info_hash, j),
            decreases piece_count - i,
        {
            if !self.piece_store.has_piece(info_hash, PieceIndex::new(i)) {
                return Ok(false);
            }
            i = i + 1;
        }
        Ok(true)
    }

    /// The pieces of the torrent the store lacks, in index order; an
    /// unknown piece count is a storage error.
    pub fn missing_pieces(&self, info_hash: InfoHash) -> (r: Result<Vec<u32>, StreamingError>)
        ensures
            self.spec_store().count_of(info_hash) is Err <==> r matches Err(StreamingError::PieceStorageError { .. }),
            self.spec_store().count_of(info_hash) matches Ok(n) ==> (r matches Ok(v) && v@ == missing_below(self.spec_store(), info_hash, n as nat)),
    {
        let piece_count = match self.piece_store.piece_count(info_hash) {
            Ok(n) => n,
            Err(e) => return Err(StreamingError::PieceStorageError { reason: e.describe() }),
        };
        let mut missing: Vec<u32> = Vec::new();
        let mut i: u32 = 0;
        while i < piece_count
            invariant
                i <= piece_count,
                missing@ == missing_below(self.spec_store(), info_hash, i as nat),
            decreases piece_count - i,
        {
            if !self.piece_store.has_piece(info_hash, PieceIndex::new(i)) {
                missing.push(i);
            }
            i = i + 1;
        }
        Ok(missing)
    }

    /// The first piece of the torrent the store lacks, if any; reconstruction
    /// stops there with the pieces missing.
    pub fn first_missing_piece(&self, info_hash: InfoHash) -> (r: Result<Option<u32>, StreamingError>)
        ensures
            self.spec_store().count_of(info_hash) is Err <==> r matches Err(StreamingError::PieceStorageError { .. }),
            self.spec_store().count_of(info_hash) matches Ok(n) ==> (r matches Ok(m) && match m {
                Some(i) => i < n && !self.spec_store().holds_piece(info_hash, i)
                    && forall|j: u32| j < i ==> #[trigger] self.spec_store().holds_piece(info_hash, j),
                None => forall|j: u32| j < n ==> #[trigger] self.spec_store().holds_piece(info_hash, j),
            }),
    {
        let piece_count = match self.piece_store.piece_count(info_hash) {
            Ok(n) => n,
            Err(e) => return Err(StreamingError::PieceStorageError { reason: e.describe() }),
        };
        let mut i: u32 = 0;
        while i < piece_count
            invariant
                i <= piece_count,
                self.spec_store().count_of(info_hash) == Ok::<u32, crate::torrent::TorrentError>(piece_count),
                forall|j: u32| j < i ==> #[trigger] self.spec_store().holds_piece(info_hash, j),
            decreases piece_count - i,
        {
            if !self.piece_store.has_piece(info_hash, PieceIndex::new(i)) {
                return Ok(Some(i));
            }
            i = i + 1;
        }
        Ok(None)
    }
}

/// Reconstruction is possible exactly when no piece is missing: for any
/// store, torrent and piece count `n`, the store holds every piece below
/// `n` iff the pieces below `n` that it lacks are none. `can_reconstruct`
/// answers the one and `missing_pieces` lists the other, for the same piece
/// count, and both fail alike when the count is unknown; so the first
/// answers whether the second is empty.
pub proof fn law_can_reconstruct_iff_nothing_missing<P: PieceStore>(store: P, info_hash: InfoHash, n: u32)
    ensures
        (forall|i: u32| i < n ==> #[trigger] store.holds_piece(info_hash, i))
            <==> missing_below(store, info_hash, n as nat).len() == 0,
{
    lemma_missing_empty(store, info_hash, n as nat);
}

proof fn lemma_missing_empty<P: PieceStore>(store: P, info_hash: InfoHash, count: nat)
    requires
        count <= u32::MAX + 1,
    ensures
        (forall|i: u32| i < count ==> #[trigger] store.holds_piece(info_hash, i))
            <==> missing_below(store, info_hash, count).len() == 0,
    decreases count,
{
    if count > 0 {
        let last = (count - 1) as u32;
        lemma_missing_empty(store, info_hash, (count - 1) as nat);
        if forall|i: u32| i < count ==> #[trigger] store.holds_piece(info_hash, i) {
            assert(store.holds_piece(info_hash, last));
        }
    }
}

/// The estimated size of a file whose first piece has `first_piece_len`
/// bytes: that size times the piece count (the last piece may be smaller).
pub fn estimate_file_size_from(first_piece_len: u64, piece_count: u32) -> (n: u64)
    requires
        first_piece_len * piece_count <= u64::MAX,
    ensures
        n == first_piece_len * piece_count,
{
    first_piece_len * piece_count as u64
}

} // verus!
