//! HTTP byte ranges over torrent pieces: which pieces a range needs, which
//! pieces keep playback ahead of the position, in what order to fetch them,
//! and what kind of media each file of a torrent is.
use vstd::prelude::*;

use crate::text::{file_extension, lowercase, lowercase_extension, opt_view, text_equals, to_lowercase};
use crate::time::Duration;

verus! {

/// A request for one or more byte ranges, each as (start, end).
#[derive(Debug, Clone)]
pub struct RangeRequest {
    /// The requested ranges.
    pub ranges: Vec<(u64, u64)>,
}

/// The answer to a range request.
#[derive(Debug, Clone)]
pub struct RangeResponse {
    /// The bytes of the range.
    pub data: Vec<u8>,
    /// First byte offset.
    pub start: u64,
    /// Last byte offset.
    pub end: u64,
    /// Size of the whole content.
    pub total_size: u64,
    /// MIME type of the content.
    pub content_type: String,
}

/// Download priority of a piece.
#[derive(Debug, Clone, Copy, PartialEq, Eq, Structural)]
pub enum PiecePriority {
    /// Needed immediately for playback.
    Critical,
    /// Needed soon for smooth streaming.
    High,
    /// Prefetch for later playback.
    Normal,
    /// Background download.
    Low,
}

/// The bytes needed from one piece, as offsets within the piece (both inclusive).
#[derive(Debug, Clone, Copy)]
pub struct PieceRange {
    /// The piece.
    pub piece_index: u32,
    /// First needed offset within the piece.
    pub start_offset: u32,
    /// Last needed offset within the piece.
    pub end_offset: u32,
    /// Download priority.
    pub priority: PiecePriority,
}

/// The pieces that keep playback ahead of a position.
#[derive(Debug, Clone)]
pub struct StreamingBuffer {
    /// The piece holding the position.
    pub current_piece: u32,
    /// Pieces needed right after the position.
    pub critical_pieces: Vec<PieceRange>,
    /// Pieces to fetch ahead for the buffer duration.
    pub prefetch_pieces: Vec<PieceRange>,
    /// How long the buffer is meant to last.
    pub buffer_duration: Duration,
    /// The bitrate the buffer was sized for, in bits per second.
    pub estimated_bitrate: u64,
}

/// Errors of range handling.
#[derive(Debug, Clone, PartialEq, Eq, Structural)]
pub enum RangeError {
    /// The range starts at or past the end of the content.
    InvalidStart { start: u64, total_size: u64 },
    /// The range runs past the end of the content.
    InvalidLength { start: u64, length: u64, total_size: u64 },
    /// The range cannot be satisfied.
    NotSatisfiable,
}

/// The priority of a piece by its index: the first ten pieces are
/// Critical, the next forty High, the rest Normal.
pub open spec fn priority_for_piece(piece_index: u32) -> PiecePriority {
    if piece_index < 10 {
        PiecePriority::Critical
    } else if piece_index < 50 {
        PiecePriority::High
    } else {
        PiecePriority::Normal
    }
}

/// The index of the piece holding byte `offset`, as a `u32` (truncated).
pub open spec fn piece_of(offset: int, piece_size: u32) -> u32 {
    (offset / (piece_size as int)) as u32
}

/// The last byte of the range of `length` bytes at `start`.
pub open spec fn range_last(start: u64, length: u64) -> int {
    start + length - 1
}

/// The last piece a range needs: the piece of its last byte, but no
/// later than the last piece of the torrent.
pub open spec fn last_needed_piece(piece_size: u32, total_pieces: u32, start: u64, length: u64) -> int {
    let ep = piece_of(range_last(start, length), piece_size);
    if ep <= total_pieces - 1 {
        ep as int
    } else {
        total_pieces - 1
    }
}

/// The bytes a range needs from piece `i`: from the range start within the
/// first piece (else from the piece's start) to the range end within the
/// last piece (else to the piece's end, the content's end for the torrent's
/// last piece), each offset taken as a `u32`.
pub open spec fn piece_range_at(
    piece_size: u32,
    total_pieces: u32,
    total_size: u64,
    start: u64,
    length: u64,
    i: u32,
) -> PieceRange {
    let last = range_last(start, length);
    let sp = piece_of(start as int, piece_size);
    let ep = piece_of(last, piece_size);
    let piece_start = i * piece_size;
    let piece_end = if i == total_pieces - 1 {
        total_size - 1
    } else {
        piece_start + piece_size - 1
    };
    PieceRange {
        piece_index: i,
        start_offset: (if i == sp { start - piece_start } else { 0 }) as u32,
        end_offset: (if i == ep { last - piece_start } else { piece_end - piece_start }) as u32,
        priority: priority_for_piece(i),
    }
}

/// The pieces a range needs, in index order: from the piece of its first
/// byte to the last needed piece.
pub open spec fn required_pieces(
    piece_size: u32,
    total_pieces: u32,
    total_size: u64,
    start: u64,
    length: u64,
) -> Seq<PieceRange> {
    let sp = piece_of(start as int, piece_size) as int;
    let hi = last_needed_piece(piece_size, total_pieces, start, length);
    Seq::new(
        if sp <= hi { (hi - sp + 1) as nat } else { 0nat },
        |k: int| piece_range_at(piece_size, total_pieces, total_size, start, length, (sp + k) as u32),
    )
}

/// Whether the piece computation is defined for a range: a nonzero piece
/// size and piece count, a last byte that exists as a `u64`, and, when the
/// torrent's last piece is among the needed ones, content that reaches into
/// it (its end is computed from the content size).
pub open spec fn required_pieces_defined(
    piece_size: u32,
    total_pieces: u32,
    total_size: u64,
    start: u64,
    length: u64,
) -> bool {
    let sp = piece_of(start as int, piece_size) as int;
    let ep = piece_of(range_last(start, length), piece_size) as int;
    &&& piece_size > 0
    &&& total_pieces > 0
    &&& 1 <= start + length <= u64::MAX
    &&& sp <= total_pieces - 1 <= ep ==> {
        &&& total_size >= 1
        &&& total_pieces - 1 < ep ==> total_size - 1 >= (total_pieces - 1) * piece_size
    }
}

proof fn lemma_div_bounds(x: int, d: int)
    requires
        x >= 0,
        d > 0,
    ensures
        (x / d) * d <= x < (x / d) * d + d,
        x / d >= 0,
{
    assert((x / d) * d <= x < (x / d) * d + d) by (nonlinear_arith) requires x >= 0, d > 0;
    assert(x / d >= 0) by (nonlinear_arith) requires x >= 0, d > 0;
}

proof fn lemma_div_monotone(x: int, y: int, d: int)
    requires
        0 <= x <= y,
        d > 0,
    ensures
        x / d <= y / d,
{
    assert(x / d <= y / d) by (nonlinear_arith) requires 0 <= x <= y, d > 0;
}

proof fn lemma_cover_element(
    piece_size: u32,
    total_pieces: u32,
    total_size: u64,
    start: u64,
    length: u64,
    sp: int,
    ep: int,
    k: int,
)
    requires
        piece_size > 0,
        sp == (start as int) / (piece_size as int),
        ep == range_last(start, length) / (piece_size as int),
        sp * piece_size <= start < sp * piece_size + piece_size,
        ep * piece_size <= range_last(start, length) < ep * piece_size + piece_size,
        0 <= sp <= ep < total_pieces,
        0 <= k <= ep - sp,
        length >= 1,
    ensures
        ({
            let x = piece_range_at(piece_size, total_pieces, total_size, start, length, (sp + k) as u32);
            let ps = piece_size as int;
            &&& x.piece_index == sp + k
            &&& x.start_offset == (if k == 0 { start - sp * ps } else { 0 })
            &&& x.end_offset == (if sp + k == ep { range_last(start, length) - (sp + k) * ps } else { ps - 1 })
            &&& x.start_offset <= x.end_offset < ps
        }),
{
    let ps = piece_size as int;
    let i = sp + k;
    let last = range_last(start, length);
    assert(piece_of(start as int, piece_size) == sp);
    assert(piece_of(last, piece_size) == ep);
    assert(0 <= i * ps) by (nonlinear_arith) requires i >= 0, ps > 0;
    if i < ep {
        assert(i * ps + ps <= ep * ps) by (nonlinear_arith) requires i + 1 <= ep, ps > 0;
    }
    if i > sp {
        assert(sp * ps + ps <= i * ps) by (nonlinear_arith) requires sp + 1 <= i, ps > 0;
    }
    let iu = i as u32;
    assert(iu == i);
    let piece_start = iu * piece_size;
    assert(piece_start == i * ps);
    let so: int = if iu == piece_of(start as int, piece_size) { start - piece_start } else { 0 };
    let eo: int = if iu == piece_of(last, piece_size) { last - piece_start } else {
        (if iu == total_pieces - 1 { total_size - 1 } else { piece_start + piece_size - 1 }) - piece_start };
    assert(0 <= so < ps);
    assert(0 <= eo < ps);
    assert(so <= eo);
    let x = piece_range_at(piece_size, total_pieces, total_size, start, length, iu);
    assert(x.start_offset == so as u32);
    assert(x.start_offset == so);
    assert(x.end_offset == eo);
}

/// A range within content whose pieces are consistent with its size maps
/// to the pieces that cover exactly its bytes: consecutive pieces from the
/// piece of its first byte to the piece of its last byte, the first
/// starting at the range's first byte, the last ending at its last byte,
/// and each piece's bytes continuing where the previous piece's end.
pub proof fn law_required_pieces_cover_range(piece_size: u32, total_pieces: u32, total_size: u64, start: u64, length: u64)
    requires
        piece_size > 0,
        total_pieces > 0,
        (total_pieces - 1) * piece_size < total_size <= total_pieces * piece_size,
        length >= 1,
        start + length <= total_size,
    ensures
        required_pieces_defined(piece_size, total_pieces, total_size, start, length),
        ({
            let r = required_pieces(piece_size, total_pieces, total_size, start, length);
            let ps = piece_size as int;
            let last = start + length - 1;
            &&& r.len() == last / ps - (start as int) / ps + 1
            &&& forall|k: int| 0 <= k < r.len() ==> (#[trigger] r[k]).piece_index == (start as int) / ps + k
            &&& forall|k: int| 0 <= k < r.len() ==> (#[trigger] r[k]).start_offset <= r[k].end_offset < ps
            &&& r[0].piece_index * ps + r[0].start_offset == start
            &&& r[r.len() - 1].piece_index * ps + r[r.len() - 1].end_offset == last
            &&& forall|k: int, l: int| #![trigger r[k], r[l]] 0 <= k && l == k + 1 && l < r.len() ==>
                r[k].piece_index * ps + r[k].end_offset + 1 == r[l].piece_index * ps + r[l].start_offset
        }),
{
    let ps = piece_size as int;
    let tp = total_pieces as int;
    let last = range_last(start, length);
    lemma_div_bounds(start as int, ps);
    lemma_div_bounds(last, ps);
    lemma_div_monotone(start as int, last, ps);
    let sp = (start as int) / ps;
    let ep = last / ps;
    assert(ep < tp) by (nonlinear_arith)
        requires ep * ps <= last, last < tp * ps, ps > 0;
    assert(piece_of(start as int, piece_size) == sp);
    assert(piece_of(last, piece_size) == ep);
    assert(last_needed_piece(piece_size, total_pieces, start, length) == ep);
    let r = required_pieces(piece_size, total_pieces, total_size, start, length);
    assert(r.len() == ep - sp + 1);
    assert forall|k: int| 0 <= k < r.len() implies (#[trigger] r[k]).piece_index == sp + k
        && r[k].start_offset <= r[k].end_offset < ps by {
        lemma_cover_element(piece_size, total_pieces, total_size, start, length, sp, ep, k);
    }
    assert forall|k: int, l: int| #![trigger r[k], r[l]] 0 <= k && l == k + 1 && l < r.len() implies
        r[k].piece_index * ps + r[k].end_offset + 1 == r[l].piece_index * ps + r[l].start_offset by {
        lemma_cover_element(piece_size, total_pieces, total_size, start, length, sp, ep, k);
        lemma_cover_element(piece_size, total_pieces, total_size, start, length, sp, ep, k + 1);
        assert((sp + k) * ps + ps == (sp + k + 1) * ps) by (nonlinear_arith);
    }
    lemma_cover_element(piece_size, total_pieces, total_size, start, length, sp, ep, 0);
    lemma_cover_element(piece_size, total_pieces, total_size, start, length, sp, ep, ep - sp);
}

/// How many bytes a buffer of `duration` holds at `bitrate` bits per
/// second (whole seconds only).
pub open spec fn buffer_bytes_for(bitrate: u64, duration: Duration) -> int {
    bitrate * duration.spec_secs() / 8
}

/// The distance of a piece ahead of the current piece; pieces behind it
/// are as far as can be.
pub open spec fn distance_ahead(piece: u32, current: u32) -> u32 {
    if piece >= current {
        (piece - current) as u32
    } else {
        u32::MAX
    }
}

/// The streaming order key of a piece: its distance ahead of the current
/// piece first, then available pieces before unavailable ones.
pub open spec fn order_key(x: PieceRange, current: u32, available: Seq<u32>) -> int {
    distance_ahead(x.piece_index, current) * 2 + if available.contains(x.piece_index) { 0int } else { 1int }
}

/// `x` placed into `s` after every element whose key is not greater than its own.
pub open spec fn insert_in_order(s: Seq<PieceRange>, x: PieceRange, current: u32, available: Seq<u32>) -> Seq<PieceRange>
    decreases s.len(),
{
    if s.len() == 0 {
        seq![x]
    } else if order_key(s.last(), current, available) > order_key(x, current, available) {
        insert_in_order(s.drop_last(), x, current, available).push(s.last())
    } else {
        s.push(x)
    }
}

/// The stable sort of `s` by streaming order key: elements of equal key
/// keep their order.
pub open spec fn streaming_order(s: Seq<PieceRange>, current: u32, available: Seq<u32>) -> Seq<PieceRange>
    decreases s.len(),
{
    if s.len() == 0 {
        s
    } else {
        insert_in_order(streaming_order(s.drop_last(), current, available), s.last(), current, available)
    }
}

proof fn lemma_insert_in_order_at(s: Seq<PieceRange>, x: PieceRange, current: u32, available: Seq<u32>, p: int)
    requires
        0 <= p <= s.len(),
        forall|j: int| p <= j < s.len() ==> order_key(#[trigger] s[j], current, available) > order_key(x, current, available),
        p > 0 ==> order_key(s[p - 1], current, available) <= order_key(x, current, available),
    ensures
        insert_in_order(s, x, current, available) == s.insert(p, x),
    decreases s.len(),
{
    if s.len() == 0 {
        assert(s.insert(p, x) =~= seq![x]);
    } else if p == s.len() {
        assert(s.insert(p, x) =~= s.push(x));
    } else {
        let t = s.drop_last();
        assert forall|j: int| p <= j < t.len() implies order_key(#[trigger] t[j], current, available) > order_key(x, current, available) by {
            assert(t[j] == s[j]);
        }
        lemma_insert_in_order_at(t, x, current, available, p);
        assert(t.insert(p, x).push(s.last()) =~= s.insert(p, x));
    }
}

proof fn lemma_insert_in_order_sorted(s: Seq<PieceRange>, x: PieceRange, current: u32, available: Seq<u32>)
    requires
        forall|i: int, j: int| 0 <= i < j < s.len() ==> order_key(#[trigger] s[i], current, available) <= order_key(#[trigger] s[j], current, available),
    ensures
        ({
            let r = insert_in_order(s, x, current, available);
            &&& forall|i: int, j: int| 0 <= i < j < r.len() ==> order_key(#[trigger] r[i], current, available) <= order_key(#[trigger] r[j], current, available)
            &&& r.to_multiset() =~= s.to_multiset().insert(x)
        }),
    decreases s.len(),
{
    broadcast use vstd::seq_lib::group_to_multiset_ensures;
    if s.len() == 0 {
        assert(seq![x] =~= Seq::<PieceRange>::empty().push(x));
    } else if order_key(s.last(), current, available) > order_key(x, current, available) {
        let t = s.drop_last();
        lemma_insert_in_order_sorted(t, x, current, available);
        let r0 = insert_in_order(t, x, current, available);
        let r = r0.push(s.last());
        assert(t.push(s.last()) =~= s);
        assert forall|i: int, j: int| 0 <= i < j < r.len() implies order_key(#[trigger] r[i], current, available) <= order_key(#[trigger] r[j], current, available) by {
            if j == r.len() - 1 {
                assert(r[j] == s.last());
                let y = r0[i];
                assert(r0.to_multiset().count(y) > 0);
                if y != x {
                    assert(t.to_multiset().count(y) > 0);
                    let k = choose|k: int| 0 <= k < t.len() && t[k] == y;
                    assert(s[k] == t[k]);
                    assert(order_key(s[k], current, available) <= order_key(s[s.len() - 1], current, available));
                }
            } else {
                assert(r[i] == r0[i] && r[j] == r0[j]);
            }
        }
    } else {
        let r = s.push(x);
        assert forall|i: int, j: int| 0 <= i < j < r.len() implies order_key(#[trigger] r[i], current, available) <= order_key(#[trigger] r[j], current, available) by {
            if j == r.len() - 1 {
                assert(order_key(s[i], current, available) <= order_key(s[s.len() - 1], current, available) || i == s.len() - 1);
            } else {
                assert(r[i] == s[i] && r[j] == s[j]);
            }
        }
    }
}

/// The streaming order puts pieces in order of their key (nearer pieces
/// first, then available ones) and keeps every piece: it is a sorted
/// permutation of its input.
pub proof fn law_streaming_order_sorted_permutation(s: Seq<PieceRange>, current: u32, available: Seq<u32>)
    ensures
        ({
            let r = streaming_order(s, current, available);
            &&& forall|i: int, j: int| 0 <= i < j < r.len() ==> order_key(#[trigger] r[i], current, available) <= order_key(#[trigger] r[j], current, available)
            &&& r.to_multiset() =~= s.to_multiset()
        }),
    decreases s.len(),
{
    broadcast use vstd::seq_lib::group_to_multiset_ensures;
    if s.len() > 0 {
        let t = s.drop_last();
        law_streaming_order_sorted_permutation(t, current, available);
        lemma_insert_in_order_sorted(streaming_order(t, current, available), s.last(), current, available);
        assert(t.push(s.last()) =~= s);
    }
}

fn is_available(available: &[u32], piece: u32) -> (b: bool)
    ensures
        b == available@.contains(piece),
{
    let mut i: usize = 0;
    while i < available.len()
        invariant
            i <= available@.len(),
            forall|j: int| 0 <= j < i ==> available@[j] != piece,
        decreases available@.len() - i,
    {
        if available[i] == piece {
            return true;
        }
        i = i + 1;
    }
    false
}

fn order_key_of(x: &PieceRange, current: u32, available: &[u32]) -> (k: u64)
    ensures
        k == order_key(*x, current, available@),
{
    let d: u32 = if x.piece_index >= current { x.piece_index - current } else { u32::MAX };
    let bit: u64 = if is_available(available, x.piece_index) { 0 } else { 1 };
    d as u64 * 2 + bit
}

/// Piece arithmetic for one torrent's content.
pub struct RangeHandler {
    piece_size: u32,
    total_pieces: u32,
    total_size: u64,
}

impl RangeHandler {
    /// The size of a piece.
    pub closed spec fn spec_piece_size(&self) -> u32 {
        self.piece_size
    }

    /// The number of pieces.
    pub closed spec fn spec_total_pieces(&self) -> u32 {
        self.total_pieces
    }

    /// The size of the content.
    pub closed spec fn spec_total_size(&self) -> u64 {
        self.total_size
    }

    /// A handler for content of `total_size` bytes in `total_pieces` pieces of `piece_size`.
    pub fn new(piece_size: u32, total_pieces: u32, total_size: u64) -> (h: RangeHandler)
        ensures
            h.spec_piece_size() == piece_size,
            h.spec_total_pieces() == total_pieces,
            h.spec_total_size() == total_size,
    {
        RangeHandler { piece_size, total_pieces, total_size }
    }

    /// The pieces needed for `length` bytes at `start`, each with the
    /// offsets needed within it and a download priority.
    pub fn calculate_required_pieces(&self, start: u64, length: u64) -> (v: Vec<PieceRange>)
        requires
            required_pieces_defined(self.spec_piece_size(), self.spec_total_pieces(), self.spec_total_size(), start, length),
        ensures
            v@ == required_pieces(self.spec_piece_size(), self.spec_total_pieces(), self.spec_total_size(), start, length),
    {
        let ghost target = required_pieces(self.piece_size, self.total_pieces, self.total_size, start, length);
        let end: u64 = start + length - 1;
        let ps: u64 = self.piece_size as u64;
        #[verifier::truncate]
        let start_piece: u32 = (start / ps) as u32;
        #[verifier::truncate]
        let end_piece: u32 = (end / ps) as u32;
        let last_piece: u32 = self.total_pieces - 1;
        let hi: u32 = if end_piece <= last_piece { end_piece } else { last_piece };
        let mut pieces: Vec<PieceRange> = Vec::new();
        if start_piece > hi {
            proof {
                assert(pieces@ =~= target);
            }
            return pieces;
        }
        let mut piece_index: u32 = start_piece;
        loop
            invariant
                start_piece <= piece_index <= hi,
                hi == last_needed_piece(self.piece_size, self.total_pieces, start, length),
                start_piece == piece_of(start as int, self.piece_size),
                end_piece == piece_of(range_last(start, length), self.piece_size),
                end == range_last(start, length),
                ps == self.piece_size,
                last_piece == self.total_pieces - 1,
                required_pieces_defined(self.piece_size, self.total_pieces, self.total_size, start, length),
                target == required_pieces(self.piece_size, self.total_pieces, self.total_size, start, length),
                pieces@ == target.take(piece_index - start_piece),
            decreases hi - piece_index,
        {
            proof {
                assert(piece_index as u64 * ps <= u32::MAX as u64 * u32::MAX as u64) by (nonlinear_arith)
                    requires piece_index <= u32::MAX, ps <= u32::MAX;
            }
            let piece_start: u64 = piece_index as u64 * ps;
            proof {
                let qs = start / ps;
                let qe = end / ps;
                assert((qs as u32) as u64 <= qs) by (bit_vector);
                assert((qe as u32) as u64 <= qe) by (bit_vector);
                assert(qs * ps <= start) by (nonlinear_arith) requires qs == start / ps, ps > 0;
                assert(qe * ps <= end) by (nonlinear_arith) requires qe == end / ps, ps > 0;
                if piece_index == start_piece {
                    assert(piece_start <= start) by (nonlinear_arith)
                        requires piece_start == piece_index * ps, piece_index <= qs, qs * ps <= start;
                }
                if piece_index == end_piece {
                    assert(piece_start <= end) by (nonlinear_arith)
                        requires piece_start == piece_index * ps, piece_index <= qe, qe * ps <= end;
                }
            }
            let piece_end: u64 = if piece_index == last_piece {
                self.total_size - 1
            } else {
                piece_start + ps - 1
            };
            proof {
                if piece_index != end_piece && piece_index == last_piece {
                    assert(piece_end >= piece_start);
                }
            }
            let range_start_in_piece: u64 = if piece_index == start_piece { start - piece_start } else { 0 };
            let range_end_in_piece: u64 = if piece_index == end_piece { end - piece_start } else { piece_end - piece_start };
            let priority = Self::calculate_piece_priority(piece_index);
            #[verifier::truncate]
            let so: u32 = range_start_in_piece as u32;
            #[verifier::truncate]
            let eo: u32 = range_end_in_piece as u32;
            pieces.push(PieceRange { piece_index, start_offset: so, end_offset: eo, priority });
            proof {
                assert(pieces@ =~= target.take(piece_index - start_piece + 1));
            }
            if piece_index == hi {
                proof {
                    assert(pieces@ =~= target);
                }
                return pieces;
            }
            piece_index = piece_index + 1;
        }
    }

    /// The pieces that keep playback smooth from `current_position`: those
    /// holding the next `buffer_bytes` (at most three pieces) as critical,
    /// and, when the buffer reaches past the current piece, the pieces from
    /// the current one up to the piece the buffer reaches as prefetch. The
    /// buffer holds `bitrate_estimate * seconds / 8` bytes.
    pub fn calculate_streaming_buffer(&self, current_position: u64, bitrate_estimate: u64, buffer_duration: Duration) -> (b: StreamingBuffer)
        requires
            self.spec_piece_size() > 0,
            bitrate_estimate * buffer_duration.spec_secs() <= u64::MAX,
            current_position + buffer_bytes_for(bitrate_estimate, buffer_duration) <= u64::MAX,
            ({
                let ps = self.spec_piece_size();
                let bb = buffer_bytes_for(bitrate_estimate, buffer_duration);
                let critical_len = if bb <= ps * 3 { bb } else { ps * 3 };
                let cp = piece_of(current_position as int, ps);
                let ap = piece_of(current_position + bb, ps);
                &&& required_pieces_defined(ps, self.spec_total_pieces(), self.spec_total_size(), current_position, critical_len as u64)
                &&& ap > cp ==> required_pieces_defined(ps, self.spec_total_pieces(), self.spec_total_size(), (cp * ps) as u64, ((ap - cp) * ps) as u64)
            }),
        ensures
            ({
                let ps = self.spec_piece_size();
                let bb = buffer_bytes_for(bitrate_estimate, buffer_duration);
                let critical_len = if bb <= ps * 3 { bb } else { ps * 3 };
                let cp = piece_of(current_position as int, ps);
                let ap = piece_of(current_position + bb, ps);
                &&& b.current_piece == cp
                &&& b.critical_pieces@ == required_pieces(ps, self.spec_total_pieces(), self.spec_total_size(), current_position, critical_len as u64)
                &&& ap > cp ==> b.prefetch_pieces@ == required_pieces(ps, self.spec_total_pieces(), self.spec_total_size(), (cp * ps) as u64, ((ap - cp) * ps) as u64)
                &&& ap <= cp ==> b.prefetch_pieces@.len() == 0
                &&& b.buffer_duration == buffer_duration
                &&& b.estimated_bitrate == bitrate_estimate
            }),
    {
        let buffer_bytes: u64 = bitrate_estimate * buffer_duration.as_secs() / 8;
        let ahead_position: u64 = current_position + buffer_bytes;
        let ps: u64 = self.piece_size as u64;
        #[verifier::truncate]
        let current_piece: u32 = (current_position / ps) as u32;
        #[verifier::truncate]
        let ahead_piece: u32 = (ahead_position / ps) as u32;
        let limit: u64 = ps * 3;
        let critical_len: u64 = if buffer_bytes <= limit { buffer_bytes } else { limit };
        let critical_pieces = self.calculate_required_pieces(current_position, critical_len);
        let prefetch_pieces = if ahead_piece > current_piece {
            let diff: u32 = ahead_piece - current_piece;
            proof {
                assert(current_piece as u64 * ps <= u32::MAX as u64 * u32::MAX as u64) by (nonlinear_arith)
                    requires current_piece <= u32::MAX, ps <= u32::MAX;
                assert(diff as u64 * ps <= u32::MAX as u64 * u32::MAX as u64) by (nonlinear_arith)
                    requires diff <= u32::MAX, ps <= u32::MAX;
            }
            self.calculate_required_pieces(current_piece as u64 * ps, diff as u64 * ps)
        } else {
            Vec::new()
        };
        StreamingBuffer {
            current_piece,
            critical_pieces,
            prefetch_pieces,
            buffer_duration,
            estimated_bitrate: bitrate_estimate,
        }
    }

    /// Orders pieces for streaming: nearest ahead of the piece holding
    /// `current_position` first (pieces behind it last), and among equally
    /// near pieces the available ones first; pieces of equal rank keep
    /// their order.
    pub fn optimize_download_order(&self, required_pieces: Vec<PieceRange>, current_position: u64, available_pieces: &[u32]) -> (v: Vec<PieceRange>)
        requires
            self.spec_piece_size() > 0,
        ensures
            v@ == streaming_order(required_pieces@, piece_of(current_position as int, self.spec_piece_size()), available_pieces@),
    {
        let ps: u64 = self.piece_size as u64;
        #[verifier::truncate]
        let current_piece: u32 = (current_position / ps) as u32;
        let ghost avail = available_pieces@;
        let n = required_pieces.len();
        let mut out: Vec<PieceRange> = Vec::new();
        let mut i: usize = 0;
        while i < n
            invariant
                n == required_pieces@.len(),
                i <= n,
                avail == available_pieces@,
                out@ == streaming_order(required_pieces@.take(i as int), current_piece, avail),
            decreases n - i,
        {
            let x = required_pieces[i];
            let kx = order_key_of(&x, current_piece, available_pieces);
            let mut p: usize = out.len();
            while p > 0
                invariant
                    p <= out@.len(),
                    kx == order_key(x, current_piece, avail),
                    avail == available_pieces@,
                    forall|j: int| p <= j < out@.len() ==> order_key(#[trigger] out@[j], current_piece, avail) > kx,
                ensures
                    p <= out@.len(),
                    forall|j: int| p <= j < out@.len() ==> order_key(#[trigger] out@[j], current_piece, avail) > kx,
                    p > 0 ==> order_key(out@[p - 1], current_piece, avail) <= kx,
                decreases p,
            {
                let kp = order_key_of(&out[p - 1], current_piece, available_pieces);
                if kp <= kx {
                    break;
                }
                p = p - 1;
            }
            proof {
                lemma_insert_in_order_at(out@, x, current_piece, avail, p as int);
                assert(required_pieces@.take(i + 1).drop_last() =~= required_pieces@.take(i as int));
            }
            out.insert(p, x);
            i = i + 1;
        }
        proof {
            assert(required_pieces@.take(n as int) =~= required_pieces@);
        }
        out
    }

    /// The download priority of a piece (see `priority_for_piece`).
    fn calculate_piece_priority(piece_index: u32) -> (p: PiecePriority)
        ensures
            p == priority_for_piece(piece_index),
    {
        if piece_index < 10 {
            PiecePriority::Critical
        } else if piece_index < 50 {
            PiecePriority::High
        } else {
            PiecePriority::Normal
        }
    }

    /// Checks that `length` bytes at `start` lie within the content.
    pub fn validate_range(&self, start: u64, length: u64) -> (r: Result<(), RangeError>)
        requires
            start < self.spec_total_size() ==> start + length <= u64::MAX,
        ensures
            start >= self.spec_total_size() ==> r == Err::<(), RangeError>(RangeError::InvalidStart { start, total_size: self.spec_total_size() }),
            start < self.spec_total_size() && start + length > self.spec_total_size() ==> r == Err::<(), RangeError>(RangeError::InvalidLength { start, length, total_size: self.spec_total_size() }),
            start < self.spec_total_size() && start + length <= self.spec_total_size() ==> r is Ok,
    {
        if start >= self.total_size {
            return Err(RangeError::InvalidStart { start, total_size: self.total_size });
        }
        if start + length > self.total_size {
            return Err(RangeError::InvalidLength { start, length, total_size: self.total_size });
        }
        Ok(())
    }
}

} // verus!

verus! {

/// The MIME type and media status of a lowercase file extension: known
/// video and audio extensions map to their MIME type and are media; any
/// other extension, or none, is `application/octet-stream` and not media.
pub open spec fn file_type_of(ext: Option<Seq<char>>) -> (Option<Seq<char>>, bool) {
    match ext {
        Some(e) => if e == "mp4"@ {
            (Some("video/mp4"@), true)
        } else if e == "mkv"@ {
            (Some("video/x-matroska"@), true)
        } else if e == "avi"@ {
            (Some("video/x-msvideo"@), true)
        } else if e == "mov"@ {
            (Some("video/quicktime"@), true)
        } else if e == "wmv"@ {
            (Some("video/x-ms-wmv"@), true)
        } else if e == "flv"@ {
            (Some("video/x-flv"@), true)
        } else if e == "webm"@ {
            (Some("video/webm"@), true)
        } else if e == "m4v"@ {
            (Some("video/x-m4v"@), true)
        } else if e == "mp3"@ {
            (Some("audio/mpeg"@), true)
        } else if e == "flac"@ {
            (Some("audio/flac"@), true)
        } else if e == "wav"@ {
            (Some("audio/wav"@), true)
        } else if e == "aac"@ {
            (Some("audio/aac"@), true)
        } else if e == "ogg"@ {
            (Some("audio/ogg"@), true)
        } else if e == "m4a"@ {
            (Some("audio/mp4"@), true)
        } else {
            (Some("application/octet-stream"@), false)
        },
        None => (Some("application/octet-stream"@), false),
    }
}

/// The MIME type and media status of a lowercase extension (see `file_type_of`).
pub fn file_type_for_extension(ext: Option<String>) -> (r: (Option<String>, bool))
    ensures
        (opt_view(r.0), r.1) == file_type_of(opt_view(ext)),
{
    match ext {
        Some(e) => {
            if text_equals(&e, "mp4") {
                (Some("video/mp4".to_string()), true)
            } else if text_equals(&e, "mkv") {
                (Some("video/x-matroska".to_string()), true)
            } else if text_equals(&e, "avi") {
                (Some("video/x-msvideo".to_string()), true)
            } else if text_equals(&e, "mov") {
                (Some("video/quicktime".to_string()), true)
            } else if text_equals(&e, "wmv") {
                (Some("video/x-ms-wmv".to_string()), true)
            } else if text_equals(&e, "flv") {
                (Some("video/x-flv".to_string()), true)
            } else if text_equals(&e, "webm") {
                (Some("video/webm".to_string()), true)
            } else if text_equals(&e, "m4v") {
                (Some("video/x-m4v".to_string()), true)
            } else if text_equals(&e, "mp3") {
                (Some("audio/mpeg".to_string()), true)
            } else if text_equals(&e, "flac") {
                (Some("audio/flac".to_string()), true)
            } else if text_equals(&e, "wav") {
                (Some("audio/wav".to_string()), true)
            } else if text_equals(&e, "aac") {
                (Some("audio/aac".to_string()), true)
            } else if text_equals(&e, "ogg") {
                (Some("audio/ogg".to_string()), true)
            } else if text_equals(&e, "m4a") {
                (Some("audio/mp4".to_string()), true)
            } else {
                (Some("application/octet-stream".to_string()), false)
            }
        },
        None => (Some("application/octet-stream".to_string()), false),
    }
}

/// The MIME type and media status of a file name, from its extension taken in lowercase.
pub fn determine_file_type(filename: &str) -> (r: (Option<String>, bool))
    ensures
        (opt_view(r.0), r.1) == file_type_of(lowercase_extension(filename@)),
{
    let ext = match file_extension(filename) {
        Some(e) => Some(to_lowercase(e.as_str())),
        None => None,
    };
    file_type_for_extension(ext)
}

/// A file within a torrent.
#[derive(Debug, Clone)]
pub struct FileInfo {
    /// Its name.
    pub name: String,
    /// Its size in bytes.
    pub size: u64,
    /// Its offset within the torrent's content.
    pub offset: u64,
    /// Its MIME type.
    pub mime_type: Option<String>,
    /// Whether it is audio or video.
    pub is_media: bool,
}

/// Whether a file is worth streaming: media of more than one million bytes.
pub open spec fn streamable(f: FileInfo) -> bool {
    f.is_media && f.size > 1_000_000
}

/// Whether byte `offset` lies within the file's bytes.
pub open spec fn file_holds(f: FileInfo, offset: u64) -> bool {
    f.offset <= offset <= f.offset + f.size - 1
}

/// Whether the file's last byte offset exists as a `u64`.
pub open spec fn byte_range_defined(f: FileInfo) -> bool {
    1 <= f.offset + f.size <= u64::MAX
}

impl FileInfo {
    /// A file of the given name, size and offset, typed by its extension.
    pub fn from_torrent_file(name: String, size: u64, offset: u64) -> (f: FileInfo)
        ensures
            f.name@ == name@,
            f.size == size,
            f.offset == offset,
            (opt_view(f.mime_type), f.is_media) == file_type_of(lowercase_extension(name@)),
    {
        let (mime_type, is_media) = determine_file_type(name.as_str());
        FileInfo { name, size, offset, mime_type, is_media }
    }

    /// Whether the file is worth streaming (see `streamable`).
    pub fn is_streamable(&self) -> (b: bool)
        ensures
            b == streamable(*self),
    {
        self.is_media && self.size > 1_000_000
    }

    /// The first and last byte offsets of the file.
    pub fn byte_range(&self) -> (r: (u64, u64))
        requires
            byte_range_defined(*self),
        ensures
            r.0 == self.offset,
            r.1 == self.offset + self.size - 1,
    {
        (self.offset, self.offset + self.size - 1)
    }
}

/// The index of the largest streamable file, the last of equally large ones.
pub open spec fn largest_streamable(files: Seq<FileInfo>) -> Option<int>
    decreases files.len(),
{
    if files.len() == 0 {
        None
    } else {
        let i = files.len() - 1;
        let best = largest_streamable(files.drop_last());
        if streamable(files[i]) && (best is None || files[best.unwrap()].size <= files[i].size) {
            Some(i)
        } else {
            best
        }
    }
}

/// The streamable files, in order.
pub open spec fn streamable_of(files: Seq<FileInfo>) -> Seq<FileInfo> {
    files.filter(|f: FileInfo| streamable(f))
}

/// The content of a torrent.
#[derive(Debug, Clone)]
pub struct ContentInfo {
    /// The torrent's name.
    pub name: String,
    /// Size of all its content.
    pub total_size: u64,
    /// MIME type of its largest streamable file.
    pub mime_type: Option<String>,
    /// Its files.
    pub files: Vec<FileInfo>,
    /// Its piece size.
    pub piece_size: u32,
    /// Its number of pieces.
    pub total_pieces: u32,
}

impl ContentInfo {
    /// The content of a torrent, typed by its largest streamable file (the
    /// last of equally large ones).
    pub fn from_torrent_metadata(name: String, total_size: u64, piece_size: u32, total_pieces: u32, files: Vec<FileInfo>) -> (c: ContentInfo)
        ensures
            c.name@ == name@,
            c.total_size == total_size,
            c.piece_size == piece_size,
            c.total_pieces == total_pieces,
            c.files@ == files@,
            opt_view(c.mime_type) == match largest_streamable(files@) {
                Some(i) => opt_view(files@[i].mime_type),
                None => None,
            },
    {
        let mut best: Option<usize> = None;
        let mut i: usize = 0;
        while i < files.len()
            invariant
                i <= files@.len(),
                match best {
                    Some(b) => largest_streamable(files@.take(i as int)) == Some(b as int),
                    None => largest_streamable(files@.take(i as int)) is None,
                },
                best matches Some(b) ==> b < i,
            decreases files@.len() - i,
        {
            proof {
                assert(files@.take(i + 1).drop_last() =~= files@.take(i as int));
            }
            if files[i].is_streamable() {
                let replace = match best {
                    Some(b) => files[b].size <= files[i].size,
                    None => true,
                };
                if replace {
                    best = Some(i);
                }
            }
            i = i + 1;
        }
        proof {
            assert(files@.take(files@.len() as int) =~= files@);
        }
        let mime_type = match best {
            Some(b) => match &files[b].mime_type {
                Some(m) => Some(m.clone()),
                None => None,
            },
            None => None,
        };
        ContentInfo { name, total_size, mime_type, files, piece_size, total_pieces }
    }

    /// The streamable files, in order.
    pub fn streamable_files(&self) -> (v: Vec<&FileInfo>)
        ensures
            v@.len() == streamable_of(self.files@).len(),
            forall|k: int| 0 <= k < v@.len() ==> *(#[trigger] v@[k]) == streamable_of(self.files@)[k],
    {
        let mut v: Vec<&FileInfo> = Vec::new();
        let mut i: usize = 0;
        while i < self.files.len()
            invariant
                i <= self.files@.len(),
                v@.len() == streamable_of(self.files@.take(i as int)).len(),
                forall|k: int| 0 <= k < v@.len() ==> *(#[trigger] v@[k]) == streamable_of(self.files@.take(i as int))[k],
            decreases self.files@.len() - i,
        {
            proof {
                assert(self.files@.take(i + 1).drop_last() =~= self.files@.take(i as int));
                reveal(Seq::filter);
            }
            let f = &self.files[i];
            if f.is_streamable() {
                v.push(f);
            }
            i = i + 1;
        }
        proof {
            assert(self.files@.take(self.files@.len() as int) =~= self.files@);
        }
        v
    }

    /// The first file holding byte `offset`, with its index.
    pub fn file_at_offset(&self, offset: u64) -> (r: Option<(usize, &FileInfo)>)
        requires
            forall|j: int|
                0 <= j < self.files@.len() && (forall|k: int| 0 <= k < j ==> !file_holds(#[trigger] self.files@[k], offset))
                    ==> byte_range_defined(#[trigger] self.files@[j]),
        ensures
            match r {
                Some((i, f)) => {
                    &&& i < self.files@.len()
                    &&& *f == self.files@[i as int]
                    &&& file_holds(self.files@[i as int], offset)
                    &&& forall|k: int| 0 <= k < i ==> !file_holds(#[trigger] self.files@[k], offset)
                },
                None => forall|k: int| 0 <= k < self.files@.len() ==> !file_holds(#[trigger] self.files@[k], offset),
            },
    {
        let mut i: usize = 0;
        while i < self.files.len()
            invariant
                i <= self.files@.len(),
                forall|k: int| 0 <= k < i ==> !file_holds(#[trigger] self.files@[k], offset),
                forall|j: int|
                    0 <= j < self.files@.len() && (forall|k: int| 0 <= k < j ==> !file_holds(#[trigger] self.files@[k], offset))
                        ==> byte_range_defined(#[trigger] self.files@[j]),
            decreases self.files@.len() - i,
        {
            let f = &self.files[i];
            let (start, end) = f.byte_range();
            if offset >= start && offset <= end {
                return Some((i, f));
            }
            i = i + 1;
        }
        None
    }
}

/// Typing by extension: a lowercase extension is media exactly when it is
/// one of the listed video and audio extensions, each of which maps to its
/// own MIME type; every other extension, and a name without one, is
/// `application/octet-stream` and not media.
pub proof fn law_media_extensions(e: Seq<char>)
    ensures
        file_type_of(Some(e)).1 <==> (e == "mp4"@ || e == "mkv"@ || e == "avi"@ || e == "mov"@ || e == "wmv"@
            || e == "flv"@ || e == "webm"@ || e == "m4v"@ || e == "mp3"@ || e == "flac"@ || e == "wav"@
            || e == "aac"@ || e == "ogg"@ || e == "m4a"@),
        !file_type_of(Some(e)).1 ==> file_type_of(Some(e)).0 == Some("application/octet-stream"@),
        file_type_of(None) == (Some("application/octet-stream"@), false),
        forall|i: int| 0 <= i < media_table().len() ==>
            file_type_of(Some(#[trigger] media_table()[i].0)) == (Some(media_table()[i].1), true),
{
    reveal_strlit("mp4");
    reveal_strlit("mkv");
    reveal_strlit("avi");
    reveal_strlit("mov");
    reveal_strlit("wmv");
    reveal_strlit("flv");
    reveal_strlit("webm");
    reveal_strlit("m4v");
    reveal_strlit("mp3");
    reveal_strlit("flac");
    reveal_strlit("wav");
    reveal_strlit("aac");
    reveal_strlit("ogg");
    reveal_strlit("m4a");
    let t = media_table();
    assert forall|i: int| 0 <= i < t.len() implies file_type_of(Some(#[trigger] t[i].0)) == (Some(t[i].1), true) by {
        if i == 0 {
            assert(t[i] == ("mp4"@, "video/mp4"@));
            assert(file_type_of(Some("mp4"@)) == (Some("video/mp4"@), true));
        } else if i == 1 {
            assert(t[i] == ("mkv"@, "video/x-matroska"@));
            assert("mkv"@[1] != "mp4"@[1]);
            assert(file_type_of(Some("mkv"@)) == (Some("video/x-matroska"@), true));
        } else if i == 2 {
            assert(t[i] == ("avi"@, "video/x-msvideo"@));
            assert("avi"@[0] != "mp4"@[0]);
            assert("avi"@[0] != "mkv"@[0]);
            assert(file_type_of(Some("avi"@)) == (Some("video/x-msvideo"@), true));
        } else if i == 3 {
            assert(t[i] == ("mov"@, "video/quicktime"@));
            assert("mov"@[1] != "mp4"@[1]);
            assert("mov"@[1] != "mkv"@[1]);
            assert("mov"@[0] != "avi"@[0]);
            assert(file_type_of(Some("mov"@)) == (Some("video/quicktime"@), true));
        } else if i == 4 {
            assert(t[i] == ("wmv"@, "video/x-ms-wmv"@));
            assert("wmv"@[0] != "mp4"@[0]);
            assert("wmv"@[0] != "mkv"@[0]);
            assert("wmv"@[0] != "avi"@[0]);
            assert("wmv"@[0] != "mov"@[0]);
            assert(file_type_of(Some("wmv"@)) == (Some("video/x-ms-wmv"@), true));
        } else if i == 5 {
            assert(t[i] == ("flv"@, "video/x-flv"@));
            assert("flv"@[0] != "mp4"@[0]);
            assert("flv"@[0] != "mkv"@[0]);
            assert("flv"@[0] != "avi"@[0]);
            assert("flv"@[0] != "mov"@[0]);
            assert("flv"@[0] != "wmv"@[0]);
            assert(file_type_of(Some("flv"@)) == (Some("video/x-flv"@), true));
        } else if i == 6 {
            assert(t[i] == ("webm"@, "video/webm"@));
            assert("webm"@.len() != "mp4"@.len());
            assert("webm"@.len() != "mkv"@.len());
            assert("webm"@.len() != "avi"@.len());
            assert("webm"@.len() != "mov"@.len());
            assert("webm"@.len() != "wmv"@.len());
            assert("webm"@.len() != "flv"@.len());
            assert(file_type_of(Some("webm"@)) == (Some("video/webm"@), true));
        } else if i == 7 {
            assert(t[i] == ("m4v"@, "video/x-m4v"@));
            assert("m4v"@[1] != "mp4"@[1]);
            assert("m4v"@[1] != "mkv"@[1]);
            assert("m4v"@[0] != "avi"@[0]);
            assert("m4v"@[1] != "mov"@[1]);
            assert("m4v"@[0] != "wmv"@[0]);
            assert("m4v"@[0] != "flv"@[0]);
            assert("m4v"@.len() != "webm"@.len());
            assert(file_type_of(Some("m4v"@)) == (Some("video/x-m4v"@), true));
        } else if i == 8 {
            assert(t[i] == ("mp3"@, "audio/mpeg"@));
            assert("mp3"@[2] != "mp4"@[2]);
            assert("mp3"@[1] != "mkv"@[1]);
            assert("mp3"@[0] != "avi"@[0]);
            assert("mp3"@[1] != "mov"@[1]);
            assert("mp3"@[0] != "wmv"@[0]);
            assert("mp3"@[0] != "flv"@[0]);
            assert("mp3"@.len() != "webm"@.len());
            assert("mp3"@[1] != "m4v"@[1]);
            assert(file_type_of(Some("mp3"@)) == (Some("audio/mpeg"@), true));
        } else if i == 9 {
            assert(t[i] == ("flac"@, "audio/flac"@));
            assert("flac"@.len() != "mp4"@.len());
            assert("flac"@.len() != "mkv"@.len());
            assert("flac"@.len() != "avi"@.len());
            assert("flac"@.len() != "mov"@.len());
            assert("flac"@.len() != "wmv"@.len());
            assert("flac"@.len() != "flv"@.len());
            assert("flac"@[0] != "webm"@[0]);
            assert("flac"@.len() != "m4v"@.len());
            assert("flac"@.len() != "mp3"@.len());
            assert(file_type_of(Some("flac"@)) == (Some("audio/flac"@), true));
        } else if i == 10 {
            assert(t[i] == ("wav"@, "audio/wav"@));
            assert("wav"@[0] != "mp4"@[0]);
            assert("wav"@[0] != "mkv"@[0]);
            assert("wav"@[0] != "avi"@[0]);
            assert("wav"@[0] != "mov"@[0]);
            assert("wav"@[1] != "wmv"@[1]);
            assert("wav"@[0] != "flv"@[0]);
            assert("wav"@.len() != "webm"@.len());
            assert("wav"@[0] != "m4v"@[0]);
            assert("wav"@[0] != "mp3"@[0]);
            assert("wav"@.len() != "flac"@.len());
            assert(file_type_of(Some("wav"@)) == (Some("audio/wav"@), true));
        } else if i == 11 {
            assert(t[i] == ("aac"@, "audio/aac"@));
            assert("aac"@[0] != "mp4"@[0]);
            assert("aac"@[0] != "mkv"@[0]);
            assert("aac"@[1] != "avi"@[1]);
            assert("aac"@[0] != "mov"@[0]);
            assert("aac"@[0] != "wmv"@[0]);
            assert("aac"@[0] != "flv"@[0]);
            assert("aac"@.len() != "webm"@.len());
            assert("aac"@[0] != "m4v"@[0]);
            assert("aac"@[0] != "mp3"@[0]);
            assert("aac"@.len() != "flac"@.len());
            assert("aac"@[0] != "wav"@[0]);
            assert(file_type_of(Some("aac"@)) == (Some("audio/aac"@), true));
        } else if i == 12 {
            assert(t[i] == ("ogg"@, "audio/ogg"@));
            assert("ogg"@[0] != "mp4"@[0]);
            assert("ogg"@[0] != "mkv"@[0]);
            assert("ogg"@[0] != "avi"@[0]);
            assert("ogg"@[0] != "mov"@[0]);
            assert("ogg"@[0] != "wmv"@[0]);
            assert("ogg"@[0] != "flv"@[0]);
            assert("ogg"@.len() != "webm"@.len());
            assert("ogg"@[0] != "m4v"@[0]);
            assert("ogg"@[0] != "mp3"@[0]);
            assert("ogg"@.len() != "flac"@.len());
            assert("ogg"@[0] != "wav"@[0]);
            assert("ogg"@[0] != "aac"@[0]);
            assert(file_type_of(Some("ogg"@)) == (Some("audio/ogg"@), true));
        } else if i == 13 {
            assert(t[i] == ("m4a"@, "audio/mp4"@));
            assert("m4a"@[1] != "mp4"@[1]);
            assert("m4a"@[1] != "mkv"@[1]);
            assert("m4a"@[0] != "avi"@[0]);
            assert("m4a"@[1] != "mov"@[1]);
            assert("m4a"@[0] != "wmv"@[0]);
            assert("m4a"@[0] != "flv"@[0]);
            assert("m4a"@.len() != "webm"@.len());
            assert("m4a"@[2] != "m4v"@[2]);
            assert("m4a"@[1] != "mp3"@[1]);
            assert("m4a"@.len() != "flac"@.len());
            assert("m4a"@[0] != "wav"@[0]);
            assert("m4a"@[0] != "aac"@[0]);
            assert("m4a"@[0] != "ogg"@[0]);
            assert(file_type_of(Some("m4a"@)) == (Some("audio/mp4"@), true));
        }
    }
}

/// The media extensions with their MIME types.
pub open spec fn media_table() -> Seq<(Seq<char>, Seq<char>)> {
    seq![
        ("mp4"@, "video/mp4"@), ("mkv"@, "video/x-matroska"@), ("avi"@, "video/x-msvideo"@),
        ("mov"@, "video/quicktime"@), ("wmv"@, "video/x-ms-wmv"@), ("flv"@, "video/x-flv"@),
        ("webm"@, "video/webm"@), ("m4v"@, "video/x-m4v"@), ("mp3"@, "audio/mpeg"@),
        ("flac"@, "audio/flac"@), ("wav"@, "audio/wav"@), ("aac"@, "audio/aac"@),
        ("ogg"@, "audio/ogg"@), ("m4a"@, "audio/mp4"@),
    ]
}

} // verus!
