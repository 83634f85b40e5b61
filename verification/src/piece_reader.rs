//! Reading byte ranges of a torrent's file out of its pieces: which pieces
//! a range needs, the file's size, and the assembly of the range's bytes
//! from the pieces' data.
use std::sync::Arc;
use vstd::prelude::*;

use crate::torrent::{PieceStore, TorrentError};

verus! {

/// Errors of piece-based reads.
#[derive(Debug)]
pub enum PieceReaderError {
    /// The piece store failed.
    Torrent(TorrentError),
    /// The range is empty or reversed.
    InvalidRange { start: u64, end: u64 },
    /// The range runs past the end of the file.
    RangeExceedsFile { start: u64, end: u64, file_size: u64 },
    /// A piece holds fewer bytes than the read needs.
    PieceTooSmall { piece_index: u32, actual: usize, minimum: usize },
}

/// Reads file data out of the pieces of a piece store.
pub struct PieceBasedStreamReader<P: PieceStore> {
    piece_store: Arc<P>,
    piece_size: u32,
}

impl<P: PieceStore> PieceBasedStreamReader<P> {
    /// The piece store.
    pub closed spec fn spec_store(&self) -> P {
        *self.piece_store
    }

    /// The size of every piece but the last.
    pub closed spec fn spec_piece_size(&self) -> u32 {
        self.piece_size
    }

    /// A reader over `piece_store`, whose pieces but the last have `piece_size` bytes.
    pub fn new(piece_store: Arc<P>, piece_size: u32) -> (r: PieceBasedStreamReader<P>)
        ensures
            r.spec_store() == *piece_store,
            r.spec_piece_size() == piece_size,
    {
        PieceBasedStreamReader { piece_store, piece_size }
    }

    /// The size of every piece but the last.
    pub fn piece_size(&self) -> (s: u32)
        ensures
            s == self.spec_piece_size(),
    {
        self.piece_size
    }

    /// The piece store.
    pub fn piece_store(&self) -> (s: &Arc<P>)
        ensures
            **s == self.spec_store(),
    {
        &self.piece_store
    }
}

/// A reader over a shared piece store.
pub fn create_piece_reader_from_trait_object<P: PieceStore>(piece_store: Arc<P>, piece_size: u32) -> (r: PieceBasedStreamReader<P>)
    ensures
        r.spec_store() == *piece_store,
        r.spec_piece_size() == piece_size,
{
    PieceBasedStreamReader { piece_store, piece_size }
}

/// The size of a file of `piece_count` pieces: none is empty; one is that
/// piece's size; more are the full pieces before the last plus the last.
pub open spec fn file_size_of(piece_count: u32, piece_size: u64, last_piece_len: u64) -> int {
    if piece_count == 0 {
        0
    } else if piece_count == 1 {
        last_piece_len as int
    } else {
        (piece_count - 1) * piece_size + last_piece_len
    }
}

/// The size of a file from its piece count, piece size and the length of
/// its last piece (see `file_size_of`).
pub fn calculate_file_size(piece_count: u32, piece_size: u64, last_piece_len: u64) -> (n: u64)
    requires
        file_size_of(piece_count, piece_size, last_piece_len) <= u64::MAX,
    ensures
        n == file_size_of(piece_count, piece_size, last_piece_len),
{
    if piece_count == 0 {
        0
    } else if piece_count == 1 {
        last_piece_len
    } else {
        proof {
            assert((piece_count - 1) * piece_size <= file_size_of(piece_count, piece_size, last_piece_len)) by (nonlinear_arith)
                requires
                    piece_count > 1,
                    file_size_of(piece_count, piece_size, last_piece_len) == (piece_count - 1) * piece_size + last_piece_len,
                    last_piece_len >= 0;
        }
        (piece_count - 1) as u64 * piece_size + last_piece_len
    }
}

/// The pieces a read of bytes `start..end` needs, first and last, after
/// checking that the range is not empty and lies within the file.
pub fn plan_read(start: u64, end: u64, file_size: u64, piece_size: u32) -> (r: Result<(u32, u32), PieceReaderError>)
    requires
        piece_size > 0,
    ensures
        start >= end ==> (r matches Err(PieceReaderError::InvalidRange { start: s, end: e }) && s == start && e == end),
        start < end && end > file_size ==> (r matches Err(PieceReaderError::RangeExceedsFile { start: s, end: e, file_size: f })
            && s == start && e == end && f == file_size),
        start < end && end <= file_size ==> (r matches Ok((first, last)) && first == (((start as int) / (piece_size as int)) as u32)
            && last == (((end - 1) / (piece_size as int)) as u32)),
{
    if start >= end {
        return Err(PieceReaderError::InvalidRange { start, end });
    }
    if end > file_size {
        return Err(PieceReaderError::RangeExceedsFile { start, end, file_size });
    }
    let ps = piece_size as u64;
    #[verifier::truncate]
    let first: u32 = (start / ps) as u32;
    #[verifier::truncate]
    let last: u32 = ((end - 1) / ps) as u32;
    Ok((first, last))
}

/// The bytes a read assembles from `pieces`, the data of consecutive
/// pieces starting at piece `index`, with `remaining` bytes still to read
/// from file position `position`: each piece gives its bytes from the
/// position (from its start when the position lies before it) up to what
/// remains; a piece that has no byte at that offset makes the read fail
/// (`None`).
pub open spec fn assembled(pieces: Seq<Seq<u8>>, k: int, index: int, piece_size: int, position: int, remaining: int) -> Option<Seq<u8>>
    decreases pieces.len() - k,
{
    if k < 0 || k >= pieces.len() || remaining <= 0 {
        Some(Seq::empty())
    } else {
        let data = pieces[k];
        let piece_start = index * piece_size;
        let off = if position >= piece_start { position - piece_start } else { 0 };
        if off >= data.len() {
            None
        } else {
            let copy = if remaining <= data.len() - off { remaining } else { data.len() - off };
            match assembled(pieces, k + 1, index + 1, piece_size, position + copy, remaining - copy) {
                Some(rest) => Some(data.subrange(off, off + copy) + rest),
                None => None,
            }
        }
    }
}

/// The data views of a list of pieces.
pub open spec fn piece_views(pieces: Seq<Vec<u8>>) -> Seq<Seq<u8>> {
    pieces.map_values(|p: Vec<u8>| p@)
}

/// Assembles bytes `start..end` of a file from the data of its pieces
/// `first`, `first + 1`, ... (see `assembled`); a piece too small for the
/// read is reported with the offset it lacked.
pub fn assemble_range(pieces: &Vec<Vec<u8>>, first: u32, piece_size: u32, start: u64, end: u64) -> (r: Result<Vec<u8>, PieceReaderError>)
    requires
        start < end,
        first + pieces@.len() <= u32::MAX + 1,
    ensures
        r is Ok <==> assembled(piece_views(pieces@), 0, first as int, piece_size as int, start as int, end - start) is Some,
        r matches Ok(v) ==> assembled(piece_views(pieces@), 0, first as int, piece_size as int, start as int, end - start) == Some(v@),
        r is Err ==> r matches Err(PieceReaderError::PieceTooSmall { .. }),
{
    let ghost views = piece_views(pieces@);
    let ghost target = assembled(views, 0, first as int, piece_size as int, start as int, end - start);
    let mut result: Vec<u8> = Vec::new();
    let mut position: u64 = start;
    let mut remaining: u64 = end - start;
    let mut k: usize = 0;
    let ps = piece_size as u64;
    while k < pieces.len() && remaining > 0
        invariant
            k <= pieces@.len(),
            views == piece_views(pieces@),
            first + pieces@.len() <= u32::MAX + 1,
            position + remaining == end,
            position >= start,
            ps == piece_size,
            target == assembled(views, 0, first as int, piece_size as int, start as int, end - start),
            target == match assembled(views, k as int, first + k, piece_size as int, position as int, remaining as int) {
                Some(rest) => Some(result@ + rest),
                None => None::<Seq<u8>>,
            },
        decreases pieces@.len() - k,
    {
        let data = &pieces[k];
        let index: u32 = first + k as u32;
        proof {
            assert(data@ == views[k as int]);
            assert(index as u64 * ps <= u32::MAX as u64 * u32::MAX as u64) by (nonlinear_arith)
                requires index <= u32::MAX, ps <= u32::MAX;
        }
        let piece_start: u64 = index as u64 * ps;
        let off: u64 = if position >= piece_start { position - piece_start } else { 0 };
        if off >= data.len() as u64 {
            proof {
                assert(assembled(views, k as int, first + k, piece_size as int, position as int, remaining as int) is None);
            }
            #[verifier::truncate]
            let off_usize: usize = off as usize;
            return Err(PieceReaderError::PieceTooSmall {
                piece_index: index,
                actual: data.len(),
                minimum: if off_usize < usize::MAX { off_usize + 1 } else { off_usize },
            });
        }
        let avail: u64 = data.len() as u64 - off;
        let copy: u64 = if remaining <= avail { remaining } else { avail };
        let ghost before = result@;
        let mut j: usize = off as usize;
        let stop: usize = (off + copy) as usize;
        while j < stop
            invariant
                off <= j <= stop <= data@.len(),
                result@ == before + data@.subrange(off as int, j as int),
            decreases stop - j,
        {
            result.push(data[j]);
            proof {
                assert(result@ =~= before + data@.subrange(off as int, j + 1));
            }
            j = j + 1;
        }
        proof {
            let rest = assembled(views, k + 1, first + k + 1, piece_size as int, position + copy, remaining - copy);
            match rest {
                Some(rr) => {
                    assert(before + (data@.subrange(off as int, (off + copy) as int) + rr) =~= result@ + rr);
                },
                None => {},
            }
        }
        position = position + copy;
        remaining = remaining - copy;
        k = k + 1;
    }
    proof {
        assert(assembled(views, k as int, first + k, piece_size as int, position as int, remaining as int) == Some(Seq::<u8>::empty()));
        assert(result@ + Seq::<u8>::empty() =~= result@);
    }
    Ok(result)
}

/// The bytes of a file made of `pieces` (from piece `index` on), laid end to end.
pub open spec fn flattened(pieces: Seq<Seq<u8>>, k: int) -> Seq<u8>
    decreases pieces.len() - k,
{
    if k < 0 || k >= pieces.len() {
        Seq::empty()
    } else {
        pieces[k] + flattened(pieces, k + 1)
    }
}

proof fn lemma_assembled_regular(pieces: Seq<Seq<u8>>, k: int, index: int, piece_size: int, position: int, remaining: int)
    requires
        0 <= k < pieces.len(),
        piece_size > 0,
        index * piece_size <= position,
        forall|j: int| k <= j < pieces.len() - 1 ==> (#[trigger] pieces[j]).len() == piece_size,
        remaining >= 0,
        position - index * piece_size + remaining <= flattened(pieces, k).len(),
        position - index * piece_size < pieces[k].len() || remaining == 0,
    ensures
        assembled(pieces, k, index, piece_size, position, remaining) == Some(
            flattened(pieces, k).subrange(position - index * piece_size, position - index * piece_size + remaining),
        ),
    decreases pieces.len() - k,
{
    let f = flattened(pieces, k);
    let off = position - index * piece_size;
    if remaining == 0 {
        assert(f.subrange(off, off) =~= Seq::<u8>::empty());
    } else {
        let data = pieces[k];
        let piece_start = index * piece_size;
        let copy = if remaining <= data.len() - off { remaining } else { data.len() - off };
        assert(f == data + flattened(pieces, k + 1));
        if copy == remaining {
            assert(f.subrange(off, off + remaining) =~= data.subrange(off, off + copy));
            assert(assembled(pieces, k + 1, index + 1, piece_size, position + copy, 0) == Some(Seq::<u8>::empty()));
            assert(data.subrange(off, off + copy) + Seq::<u8>::empty() =~= data.subrange(off, off + copy));
        } else {
            assert(copy == data.len() - off);
            let g = flattened(pieces, k + 1);
            assert(g.len() == f.len() - data.len());
            assert(k + 1 < pieces.len()) by {
                if k + 1 == pieces.len() {
                    assert(g.len() == 0);
                }
            }
            assert(data.len() == piece_size);
            assert((index + 1) * piece_size == piece_start + piece_size) by (nonlinear_arith)
                requires piece_start == index * piece_size;
            assert(g == pieces[k + 1] + flattened(pieces, k + 2));
            if k + 1 < pieces.len() - 1 {
                assert(pieces[k + 1].len() == piece_size);
            }
            assert(pieces[k + 1].len() > 0 || remaining - copy == 0) by {
                if pieces[k + 1].len() == 0 {
                    if k + 1 < pieces.len() - 1 {
                        assert(pieces[k + 1].len() == piece_size);
                    }
                    assert(flattened(pieces, k + 2).len() == 0) by {
                        assert(k + 2 == pieces.len());
                    }
                }
            }
            lemma_assembled_regular(pieces, k + 1, index + 1, piece_size, position + copy, remaining - copy);
            assert(f.subrange(off, off + remaining) =~= data.subrange(off, off + copy) + g.subrange(0, remaining - copy));
        }
    }
}

/// A read within a file whose pieces but the last are full gives back
/// exactly the file's bytes of the range: assembling bytes `start..end`
/// from the pieces `first`, `first + 1`, ... succeeds and yields those
/// bytes of the pieces laid end to end.
pub proof fn law_read_gives_file_bytes(pieces: Seq<Seq<u8>>, first: int, piece_size: int, start: int, end: int)
    requires
        piece_size > 0,
        first >= 0,
        pieces.len() > 0,
        first * piece_size <= start < end,
        start < first * piece_size + piece_size,
        forall|j: int| 0 <= j < pieces.len() - 1 ==> (#[trigger] pieces[j]).len() == piece_size,
        end - first * piece_size <= flattened(pieces, 0).len(),
    ensures
        assembled(pieces, 0, first, piece_size, start, end - start) == Some(
            flattened(pieces, 0).subrange(start - first * piece_size, end - first * piece_size),
        ),
{
    lemma_flattened_len(pieces, 0);
    if start - first * piece_size >= pieces[0].len() {
        // the first piece is full, so the read start lies within it
        if pieces.len() > 1 {
            assert(pieces[0].len() == piece_size);
        } else {
            assert(flattened(pieces, 0) =~= pieces[0] + flattened(pieces, 1));
        }
    }
    lemma_assembled_regular(pieces, 0, first, piece_size, start, end - start);
}

proof fn lemma_flattened_len(pieces: Seq<Seq<u8>>, k: int)
    requires
        0 <= k <= pieces.len(),
    ensures
        k < pieces.len() ==> flattened(pieces, k) == pieces[k] + flattened(pieces, k + 1),
        k == pieces.len() ==> flattened(pieces, k).len() == 0,
        flattened(pieces, k).len() >= 0,
{
}

} // verus!
