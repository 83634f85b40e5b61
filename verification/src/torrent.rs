//! Torrent identity shared by the streaming components.
use vstd::prelude::*;
use vstd::string::StringExecFns;

verus! {

/// The 20-byte SHA-1 identity of a torrent.
#[derive(Debug, Clone, Copy, Eq, Hash)]
pub struct InfoHash(pub [u8; 20]);

impl InfoHash {
    /// Wraps the 20 raw bytes of a torrent's identity.
    pub fn new(bytes: [u8; 20]) -> (h: InfoHash)
        ensures
            h.0 == bytes,
    {
        InfoHash(bytes)
    }

    /// The raw bytes of this identity.
    pub fn as_bytes(&self) -> (b: [u8; 20])
        ensures
            b == self.0,
    {
        self.0
    }

    /// The identity as 40 lowercase hexadecimal digits, two per byte.
    pub fn to_hex(&self) -> (s: String)
        ensures
            s@ == hex_text(self.0@),
    {
        let mut s = String::new();
        let mut i: usize = 0;
        while i < 20
            invariant
                i <= 20,
                s@ == hex_text(self.0@.take(i as int)),
            decreases 20 - i,
        {
            let b = self.0[i];
            s.append(hex_str(b / 16));
            s.append(hex_str(b % 16));
            proof {
                assert(self.0@.take(i + 1).drop_last() =~= self.0@.take(i as int));
                assert(s@ =~= hex_text(self.0@.take(i + 1)));
            }
            i = i + 1;
        }
        proof {
            assert(self.0@.take(20) =~= self.0@);
        }
        s
    }
}

/// The lowercase hexadecimal digit of a value below sixteen.
pub open spec fn hex_digit(d: int) -> char {
    if d < 10 {
        (('0' as int) + d) as char
    } else {
        (('a' as int) + d - 10) as char
    }
}

/// The lowercase hexadecimal rendering of bytes, two digits per byte.
pub open spec fn hex_text(b: Seq<u8>) -> Seq<char>
    decreases b.len(),
{
    if b.len() == 0 {
        Seq::empty()
    } else {
        hex_text(b.drop_last()) + seq![hex_digit((b.last() / 16) as int), hex_digit((b.last() % 16) as int)]
    }
}

fn hex_str(d: u8) -> (s: &'static str)
    requires
        d < 16,
    ensures
        s@ == seq![hex_digit(d as int)],
{
    proof {
        reveal_strlit("0");
        reveal_strlit("1");
        reveal_strlit("2");
        reveal_strlit("3");
        reveal_strlit("4");
        reveal_strlit("5");
        reveal_strlit("6");
        reveal_strlit("7");
        reveal_strlit("8");
        reveal_strlit("9");
        reveal_strlit("a");
        reveal_strlit("b");
        reveal_strlit("c");
        reveal_strlit("d");
        reveal_strlit("e");
        reveal_strlit("f");
    }
    match d {
        0 => "0",
        1 => "1",
        2 => "2",
        3 => "3",
        4 => "4",
        5 => "5",
        6 => "6",
        7 => "7",
        8 => "8",
        9 => "9",
        10 => "a",
        11 => "b",
        12 => "c",
        13 => "d",
        14 => "e",
        _ => "f",
    }
}

impl PartialEq for InfoHash {
    fn eq(&self, other: &Self) -> (r: bool) {
        let mut i: usize = 0;
        while i < 20
            invariant
                i <= 20,
                forall|j: int| 0 <= j < i ==> self.0@[j] == other.0@[j],
            decreases 20 - i,
        {
            if self.0[i] != other.0[i] {
                return false;
            }
            i = i + 1;
        }
        proof {
            assert(self.0@ =~= other.0@);
        }
        true
    }
}

impl vstd::std_specs::cmp::PartialEqSpecImpl for InfoHash {
    open spec fn obeys_eq_spec() -> bool {
        true
    }

    open spec fn eq_spec(&self, other: &InfoHash) -> bool {
        self.0@ == other.0@
    }
}

/// The index of a piece within a torrent.
#[derive(Debug, Clone, Copy, PartialEq, Eq, Hash, Structural)]
pub struct PieceIndex(pub u32);

impl PieceIndex {
    /// The piece at `index`.
    pub fn new(index: u32) -> (p: PieceIndex)
        ensures
            p.0 == index,
    {
        PieceIndex(index)
    }

    /// The index as a number.
    pub fn as_u32(&self) -> (i: u32)
        ensures
            i == self.0,
    {
        self.0
    }
}

/// A piece of a torrent with its data.
#[derive(Debug, Clone)]
pub struct TorrentPiece {
    /// Its index.
    pub index: u32,
    /// Its SHA-1 hash.
    pub hash: [u8; 20],
    /// Its bytes.
    pub data: Vec<u8>,
}

/// Errors of torrent piece storage.
#[derive(Debug, Clone, Copy)]
pub enum TorrentError {
    /// A piece failed its hash check.
    PieceHashMismatch { index: PieceIndex },
    /// The torrent is not known.
    TorrentNotFound { info_hash: InfoHash },
}

impl TorrentError {
    /// A short description of the error.
    pub fn describe(&self) -> (s: String)
        ensures
            self is PieceHashMismatch ==> s@ == "piece hash mismatch"@,
            self is TorrentNotFound ==> s@ == "torrent not found"@,
    {
        match self {
            TorrentError::PieceHashMismatch { .. } => "piece hash mismatch".to_string(),
            TorrentError::TorrentNotFound { .. } => "torrent not found".to_string(),
        }
    }
}

/// Piece storage of torrents, as implemented by the storage layer. An
/// implementation answers from its stored state: the same question asked
/// of the same store gives the same answer.
pub trait PieceStore {
    /// Whether the store holds a piece of a torrent.
    spec fn holds_piece(&self, info_hash: InfoHash, piece_index: u32) -> bool;

    /// The number of pieces of a torrent, or why it is unknown.
    spec fn count_of(&self, info_hash: InfoHash) -> Result<u32, TorrentError>;

    /// Whether the store holds a piece of a torrent.
    fn has_piece(&self, info_hash: InfoHash, piece_index: PieceIndex) -> (b: bool)
        ensures
            b == self.holds_piece(info_hash, piece_index.0);

    /// The number of pieces of a torrent.
    fn piece_count(&self, info_hash: InfoHash) -> (r: Result<u32, TorrentError>)
        ensures
            r == self.count_of(info_hash);
}

} // verus!
