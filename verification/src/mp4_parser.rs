//! Reading media durations out of container headers: MP4 boxes (`moov`,
//! `mvhd`) and the AVI main header. The durations themselves are
//! fractional seconds and are formed from the integer fields found here.
use vstd::prelude::*;

verus! {

/// The big-endian number in bytes `at..at + 4`.
pub open spec fn be32_at(data: Seq<u8>, at: int) -> int {
    (data[at] as int) * 16777216 + (data[at + 1] as int) * 65536 + (data[at + 2] as int) * 256 + (data[at + 3] as int)
}

/// The little-endian number in bytes `at..at + 4`.
pub open spec fn le32_at(data: Seq<u8>, at: int) -> int {
    (data[at + 3] as int) * 16777216 + (data[at + 2] as int) * 65536 + (data[at + 1] as int) * 256 + (data[at] as int)
}

/// What the search for a box gives.
pub enum AtomSearch {
    /// The box's payload lies in bytes `start..end`.
    Found(int, int),
    /// No such box.
    NotFound,
}

/// The search for a box of type `ty` among consecutive boxes from `pos`:
/// each box starts with its big-endian size and its type; a box of the
/// type is found with its payload after the 8-byte header; a zero size
/// ends the search, and so does a next box whose header would not fit.
pub open spec fn atom_search(data: Seq<u8>, pos: int, ty: Seq<u8>) -> AtomSearch
    decreases data.len() - pos,
{
    if pos < 0 || pos + 8 > data.len() {
        AtomSearch::NotFound
    } else {
        let size = be32_at(data, pos);
        if data.subrange(pos + 4, pos + 8) == ty {
            AtomSearch::Found(pos + 8, pos + size)
        } else if size == 0 || pos + size + 8 > data.len() {
            AtomSearch::NotFound
        } else {
            atom_search(data, pos + size, ty)
        }
    }
}

proof fn lemma_atom_found_start(data: Seq<u8>, pos: int, ty: Seq<u8>)
    ensures
        atom_search(data, pos, ty) matches AtomSearch::Found(s, e) ==> s >= pos + 8 && s >= 8,
    decreases data.len() - pos,
{
    if pos >= 0 && pos + 8 <= data.len() {
        let size = be32_at(data, pos);
        if data.subrange(pos + 4, pos + 8) != ty && !(size == 0 || pos + size + 8 > data.len()) {
            assert(size > 0);
            lemma_atom_found_start(data, pos + size, ty);
        }
    }
}

/// Whether the box found (if any) is well formed: its size covers its
/// header and it lies within the data.
pub open spec fn atom_search_sound(data: Seq<u8>, ty: Seq<u8>) -> bool {
    match atom_search(data, 0, ty) {
        AtomSearch::Found(s, e) => s <= e <= data.len(),
        AtomSearch::NotFound => true,
    }
}

fn be32(data: &[u8], at: usize) -> (v: u64)
    requires
        at + 4 <= data@.len(),
        data@.len() <= usize::MAX,
    ensures
        v == be32_at(data@, at as int),
{
    (data[at] as u64) * 16777216 + (data[at + 1] as u64) * 65536 + (data[at + 2] as u64) * 256 + (data[at + 3] as u64)
}

fn le32(data: &[u8], at: usize) -> (v: u64)
    requires
        at + 4 <= data@.len(),
        data@.len() <= usize::MAX,
    ensures
        v == le32_at(data@, at as int),
{
    (data[at + 3] as u64) * 16777216 + (data[at + 2] as u64) * 65536 + (data[at + 1] as u64) * 256 + (data[at] as u64)
}

fn tag_at(data: &[u8], at: usize, ty: &[u8; 4]) -> (b: bool)
    requires
        at + 4 <= data@.len(),
    ensures
        b == (data@.subrange(at as int, at + 4) == ty@),
{
    let b = data[at] == ty[0] && data[at + 1] == ty[1] && data[at + 2] == ty[2] && data[at + 3] == ty[3];
    proof {
        let s = data@.subrange(at as int, at + 4);
        if b {
            assert(s =~= ty@);
        } else if s == ty@ {
            assert(s[0] == ty@[0] && s[1] == ty@[1] && s[2] == ty@[2] && s[3] == ty@[3]);
        }
    }
    b
}

/// Whether the first box of type `atom_type` in `data`, if there is one, is
/// well formed (see `atom_search_sound`): the check to make before `find_atom`.
pub fn atom_sound(data: &[u8], atom_type: &[u8; 4]) -> (b: bool)
    requires
        data@.len() <= u64::MAX / 2,
    ensures
        b == atom_search_sound(data@, atom_type@),
{
    let n = data.len();
    let mut pos: usize = 0;
    while pos <= n && n - pos >= 8
        invariant
            n == data@.len(),
            n <= u64::MAX / 2,
            atom_search(data@, pos as int, atom_type@) == atom_search(data@, 0, atom_type@),
        decreases n - pos,
    {
        let size = be32(data, pos);
        if tag_at(data, pos + 4, atom_type) {
            return size >= 8 && pos as u64 + size <= n as u64;
        }
        if size == 0 || pos as u64 + size + 8 > n as u64 {
            return true;
        }
        pos = (pos as u64 + size) as usize;
    }
    true
}

/// The payload of the first box of type `atom_type` among the boxes of
/// `data` (see `atom_search`).
pub fn find_atom(data: &[u8], atom_type: &[u8; 4]) -> (r: Option<Vec<u8>>)
    requires
        data@.len() <= u64::MAX / 2,
        atom_search_sound(data@, atom_type@),
    ensures
        match atom_search(data@, 0, atom_type@) {
            AtomSearch::Found(s, e) => r matches Some(v) && v@ == data@.subrange(s, e),
            AtomSearch::NotFound => r is None,
        },
{
    let n = data.len();
    let mut pos: usize = 0;
    while pos <= n && n - pos >= 8
        invariant
            n == data@.len(),
            n <= u64::MAX / 2,
            atom_search(data@, pos as int, atom_type@) == atom_search(data@, 0, atom_type@),
            atom_search_sound(data@, atom_type@),
        decreases n - pos,
    {
        let size = be32(data, pos);
        if tag_at(data, pos + 4, atom_type) {
            let start = pos + 8;
            let end = (pos as u64 + size) as usize;
            let mut v: Vec<u8> = Vec::new();
            let mut i: usize = start;
            while i < end
                invariant
                    start <= i <= end <= n,
                    n == data@.len(),
                    v@ == data@.subrange(start as int, i as int),
                decreases end - i,
            {
                v.push(data[i]);
                proof {
                    assert(v@ =~= data@.subrange(start as int, i + 1));
                }
                i = i + 1;
            }
            return Some(v);
        }
        if size == 0 || pos as u64 + size + 8 > n as u64 {
            return None;
        }
        pos = (pos as u64 + size) as usize;
    }
    None
}

/// The timescale and duration of an `mvhd` box payload: version 0 holds a
/// 32-bit timescale at offset 12 and a 32-bit duration at 16; version 1 a
/// 32-bit timescale at 20 and a 64-bit duration at 24. Too short a payload,
/// another version or a zero timescale gives nothing.
pub open spec fn mvhd_fields(d: Seq<u8>) -> Option<(u64, u32)> {
    if d.len() < 20 {
        None
    } else if d[0] == 0 {
        let ts = be32_at(d, 12);
        if ts > 0 { Some((be32_at(d, 16) as u64, ts as u32)) } else { None }
    } else if d[0] == 1 {
        if d.len() < 32 {
            None
        } else {
            let ts = be32_at(d, 20);
            if ts > 0 {
                Some(((be32_at(d, 24) * 4294967296 + be32_at(d, 28)) as u64, ts as u32))
            } else {
                None
            }
        }
    } else {
        None
    }
}

/// The duration and timescale of an `mvhd` box payload (see `mvhd_fields`);
/// the duration in seconds is their quotient.
pub fn parse_mvhd_fields(mvhd_data: &[u8]) -> (r: Option<(u64, u32)>)
    ensures
        r == mvhd_fields(mvhd_data@),
{
    if mvhd_data.len() < 20 {
        return None;
    }
    if mvhd_data[0] == 0 {
        let ts = be32(mvhd_data, 12);
        if ts > 0 {
            return Some((be32(mvhd_data, 16), ts as u32));
        }
        return None;
    }
    if mvhd_data[0] == 1 {
        if mvhd_data.len() < 32 {
            return None;
        }
        let ts = be32(mvhd_data, 20);
        if ts > 0 {
            let hi = be32(mvhd_data, 24);
            let lo = be32(mvhd_data, 28);
            proof {
                assert(hi * 4294967296 + lo <= u64::MAX) by (nonlinear_arith)
                    requires hi <= 4294967295, lo <= 4294967295;
            }
            return Some((hi * 4294967296 + lo, ts as u32));
        }
        return None;
    }
    None
}

/// The duration fields of an MP4 file: those of the `mvhd` box inside its `moov` box.
pub fn mp4_duration_fields(data: &[u8]) -> (r: Option<(u64, u32)>)
    requires
        data@.len() <= u64::MAX / 2,
        atom_search_sound(data@, seq![0x6Du8, 0x6Fu8, 0x6Fu8, 0x76u8]),
        match atom_search(data@, 0, seq![0x6Du8, 0x6Fu8, 0x6Fu8, 0x76u8]) {
            AtomSearch::Found(s, e) => atom_search_sound(data@.subrange(s, e), seq![0x6Du8, 0x76u8, 0x68u8, 0x64u8]),
            AtomSearch::NotFound => true,
        },
    ensures
        r == match atom_search(data@, 0, seq![0x6Du8, 0x6Fu8, 0x6Fu8, 0x76u8]) {
            AtomSearch::Found(s, e) => {
                let moov = data@.subrange(s, e);
                match atom_search(moov, 0, seq![0x6Du8, 0x76u8, 0x68u8, 0x64u8]) {
                    AtomSearch::Found(s2, e2) => mvhd_fields(moov.subrange(s2, e2)),
                    AtomSearch::NotFound => None,
                }
            },
            AtomSearch::NotFound => None,
        },
{
    let moov_tag: [u8; 4] = [0x6D, 0x6F, 0x6F, 0x76];
    let mvhd_tag: [u8; 4] = [0x6D, 0x76, 0x68, 0x64];
    proof {
        assert(moov_tag@ =~= seq![0x6Du8, 0x6Fu8, 0x6Fu8, 0x76u8]);
        assert(mvhd_tag@ =~= seq![0x6Du8, 0x76u8, 0x68u8, 0x64u8]);
    }
    match find_atom(data, &moov_tag) {
        Some(moov) => match {
            proof {
                lemma_atom_found_start(data@, 0, moov_tag@);
                if let AtomSearch::Found(st, en) = atom_search(data@, 0, moov_tag@) {
                    assert(moov@.len() == en - st);
                }
            }
            find_atom(moov.as_slice(), &mvhd_tag)
        } {
            Some(mvhd) => parse_mvhd_fields(mvhd.as_slice()),
            None => None,
        },
        None => None,
    }
}

/// Whether an AVI duration of `total_frames` frames of `us_per_frame`
/// microseconds is plausible: between one second and a day.
pub open spec fn plausible_avi(us_per_frame: u32, total_frames: u32) -> bool {
    us_per_frame > 0 && total_frames > 0 && 1_000_000 <= us_per_frame * total_frames <= 86_400_000_000
}

/// Whether an AVI duration is plausible (see `plausible_avi`); the
/// duration in seconds is the product over a million.
pub fn avi_timing_plausible(us_per_frame: u32, total_frames: u32) -> (b: bool)
    ensures
        b == plausible_avi(us_per_frame, total_frames),
{
    if us_per_frame == 0 || total_frames == 0 {
        return false;
    }
    proof {
        assert(us_per_frame as u64 * total_frames as u64 <= u32::MAX as u64 * u32::MAX as u64) by (nonlinear_arith)
            requires us_per_frame <= u32::MAX, total_frames <= u32::MAX;
    }
    let p: u64 = us_per_frame as u64 * total_frames as u64;
    1_000_000 <= p && p <= 86_400_000_000
}

/// A little-endian size read from bytes is never negative.
pub proof fn lemma_le32_nonneg(data: Seq<u8>, at: int)
    requires
        0 <= at,
        at + 4 <= data.len(),
    ensures
        le32_at(data, at) >= 0,
{
}

/// Whether the four bytes at `at` are `t`.
pub open spec fn tag_is(data: Seq<u8>, at: int, t: Seq<u8>) -> bool {
    data.subrange(at, at + 4) == t
}

/// The position after a chunk of `size` bytes whose header starts at
/// `at`, padded to an even offset.
pub open spec fn next_chunk(at: int, size: int) -> int {
    let next = at + 8 + size;
    if next % 2 == 1 { next + 1 } else { next }
}

/// The timing of the first plausible `avih` header among the sub-chunks of
/// the `hdrl` list at `pos` of `list_size` bytes, from the sub-chunk at `h`
/// on. Each chunk is a four-byte identifier, a little-endian size and the
/// payload.
pub open spec fn avih_scan(data: Seq<u8>, pos: int, list_size: int, h: int) -> Option<(u32, u32)>
    decreases (if h < data.len() { data.len() - h } else { 0 }),
{
    if h + 8 < pos + list_size && h + 8 < data.len() && h >= 0 {
        let here = if tag_is(data, h, seq![0x61u8, 0x76u8, 0x69u8, 0x68u8]) && h + 8 + 32 <= data.len() {
            let us = le32_at(data, h + 8) as u32;
            let frames = le32_at(data, h + 24) as u32;
            if plausible_avi(us, frames) { Some((us, frames)) } else { None }
        } else {
            None
        };
        if here is Some {
            here
        } else {
            proof {
                lemma_le32_nonneg(data, h + 4);
            }
            avih_scan(data, pos, list_size, next_chunk(h, le32_at(data, h + 4)))
        }
    } else {
        None
    }
}

/// The timing of the first plausible `avih` header found in an `hdrl` list
/// among the top-level chunks from the chunk at `pos` on.
pub open spec fn avi_scan(data: Seq<u8>, pos: int) -> Option<(u32, u32)>
    decreases (if pos < data.len() { data.len() - pos } else { 0 }),
{
    if pos + 8 < data.len() && pos >= 0 {
        let size = le32_at(data, pos + 4);
        let inner = if tag_is(data, pos, seq![0x4Cu8, 0x49u8, 0x53u8, 0x54u8]) && pos + 12 < data.len()
            && tag_is(data, pos + 8, seq![0x68u8, 0x64u8, 0x72u8, 0x6Cu8]) {
            avih_scan(data, pos, size, pos + 12)
        } else {
            None
        };
        if inner is Some {
            inner
        } else {
            proof {
                lemma_le32_nonneg(data, pos + 4);
            }
            avi_scan(data, next_chunk(pos, size))
        }
    } else {
        None
    }
}

/// The frame timing of an AVI file (`RIFF` ... `AVI ` header): the first
/// plausible `avih` header within an `hdrl` list, as (microseconds per
/// frame, total frames), walking chunks by their little-endian sizes padded
/// to even offsets (see `avi_scan`); `None` for any other file.
pub open spec fn avi_timing_of(data: Seq<u8>) -> Option<(u32, u32)> {
    if data.len() >= 12 && tag_is(data, 0, seq![0x52u8, 0x49u8, 0x46u8, 0x46u8])
        && tag_is(data, 8, seq![0x41u8, 0x56u8, 0x49u8, 0x20u8]) {
        avi_scan(data, 12)
    } else {
        None
    }
}

/// The frame timing of an AVI file (see `avi_timing_of`).
pub fn avi_frame_timing(data: &[u8]) -> (r: Option<(u32, u32)>)
    requires
        data@.len() <= u64::MAX / 4,
    ensures
        r == avi_timing_of(data@),
        r matches Some((us, frames)) ==> plausible_avi(us, frames),
{
    let n = data.len();
    if n < 12 {
        return None;
    }
    let riff: [u8; 4] = [0x52, 0x49, 0x46, 0x46];
    let avi: [u8; 4] = [0x41, 0x56, 0x49, 0x20];
    let list: [u8; 4] = [0x4C, 0x49, 0x53, 0x54];
    let hdrl: [u8; 4] = [0x68, 0x64, 0x72, 0x6C];
    let avih: [u8; 4] = [0x61, 0x76, 0x69, 0x68];
    proof {
        assert(riff@ =~= seq![0x52u8, 0x49u8, 0x46u8, 0x46u8]);
        assert(avi@ =~= seq![0x41u8, 0x56u8, 0x49u8, 0x20u8]);
        assert(list@ =~= seq![0x4Cu8, 0x49u8, 0x53u8, 0x54u8]);
        assert(hdrl@ =~= seq![0x68u8, 0x64u8, 0x72u8, 0x6Cu8]);
        assert(avih@ =~= seq![0x61u8, 0x76u8, 0x69u8, 0x68u8]);
    }
    if !tag_at(data, 0, &riff) || !tag_at(data, 8, &avi) {
        return None;
    }
    let mut pos: u64 = 12;
    while pos + 8 < n as u64
        invariant
            n == data@.len(),
            n <= u64::MAX / 4,
            pos <= n as u64 + 8 + u32::MAX as u64 + 1,
            list@ == seq![0x4Cu8, 0x49u8, 0x53u8, 0x54u8],
            hdrl@ == seq![0x68u8, 0x64u8, 0x72u8, 0x6Cu8],
            avih@ == seq![0x61u8, 0x76u8, 0x69u8, 0x68u8],
            avi_timing_of(data@) == avi_scan(data@, pos as int),
        decreases n as u64 + 8 + u32::MAX as u64 + 2 - pos,
    {
        let p = pos as usize;
        let chunk_size = le32(data, p + 4);
        let ghost rest = avi_scan(data@, next_chunk(pos as int, chunk_size as int));
        if tag_at(data, p, &list) && pos + 12 < n as u64 && tag_at(data, p + 8, &hdrl) {
            proof {
                assert(avi_scan(data@, pos as int) == (if avih_scan(data@, pos as int, chunk_size as int, pos + 12) is Some {
                    avih_scan(data@, pos as int, chunk_size as int, pos + 12)
                } else {
                    rest
                }));
            }
            let mut h: u64 = pos + 12;
            while h + 8 < pos + chunk_size && h + 8 < n as u64
                invariant
                    n == data@.len(),
                    n <= u64::MAX / 4,
                    pos + 8 < n,
                    chunk_size == le32_at(data@, pos + 4),
                    chunk_size <= u32::MAX,
                    h >= pos + 12,
                    h <= n as u64 + 8 + u32::MAX as u64 + 1,
                    avih@ == seq![0x61u8, 0x76u8, 0x69u8, 0x68u8],
                    avih_scan(data@, pos as int, chunk_size as int, pos + 12) == avih_scan(
                        data@,
                        pos as int,
                        chunk_size as int,
                        h as int,
                    ),
                    avi_timing_of(data@) == (if avih_scan(data@, pos as int, chunk_size as int, pos + 12) is Some {
                        avih_scan(data@, pos as int, chunk_size as int, pos + 12)
                    } else {
                        rest
                    }),
                decreases n as u64 + 8 + u32::MAX as u64 + 2 - h,
            {
                let q = h as usize;
                let sub_size = le32(data, q + 4);
                if tag_at(data, q, &avih) && h + 8 + 32 <= n as u64 {
                    let hs = q + 8;
                    let us = le32(data, hs) as u32;
                    let frames = le32(data, hs + 16) as u32;
                    if avi_timing_plausible(us, frames) {
                        proof {
                            assert(tag_is(data@, h as int, seq![0x61u8, 0x76u8, 0x69u8, 0x68u8]));
                            assert(avih_scan(data@, pos as int, chunk_size as int, h as int) == Some((us, frames)));
                        }
                        return Some((us, frames));
                    }
                }
                h = h + 8 + sub_size;
                if h % 2 == 1 {
                    h = h + 1;
                }
            }
        } else {
            proof {
                assert(avi_scan(data@, pos as int) == rest);
            }
        }
        pos = pos + 8 + chunk_size;
        if pos % 2 == 1 {
            pos = pos + 1;
        }
    }
    None
}

/// An AVI duration is accepted exactly within one second to one day: for
/// any frame duration and frame count, the timing is plausible when both
/// are positive and the total of `us_per_frame * total_frames` microseconds
/// lies between 1 s and 86 400 s inclusive, and not otherwise.
pub proof fn law_avi_duration_window(us_per_frame: u32, total_frames: u32)
    ensures
        us_per_frame > 0 && total_frames > 0
            && 1 * 1_000_000 <= us_per_frame * total_frames
            && us_per_frame * total_frames <= 24 * 60 * 60 * 1_000_000
            ==> plausible_avi(us_per_frame, total_frames),
        us_per_frame * total_frames > 24 * 60 * 60 * 1_000_000 ==> !plausible_avi(us_per_frame, total_frames),
        us_per_frame * total_frames < 1_000_000 ==> !plausible_avi(us_per_frame, total_frames),
        us_per_frame == 0 || total_frames == 0 ==> !plausible_avi(us_per_frame, total_frames),
        forall|seconds: int| 1 <= seconds <= 24 * 60 * 60 && us_per_frame > 0 && total_frames > 0
            && #[trigger] (seconds * 1_000_000) == us_per_frame * total_frames
            ==> plausible_avi(us_per_frame, total_frames),
{
}

} // verus!
