//! The state of a remuxing session and its errors.
use std::time::Instant;
use vstd::prelude::*;

verus! {

/// Errors of a remuxing session.
#[derive(Debug, Clone, PartialEq, Eq)]
pub enum RemuxError {
    /// FFmpeg failed.
    FfmpegFailed { reason: String },
    /// The head and tail of the file are not available yet.
    InsufficientData,
    /// The file's format cannot be remuxed.
    UnsupportedFormat { format: String },
    /// Remuxing took longer than allowed.
    Timeout { duration_secs: u64 },
    /// An I/O operation failed.
    IoError { reason: String },
    /// Too many sessions run already.
    SessionLimitExceeded { current: usize, max: usize },
    /// The session is in a state that does not allow the operation.
    InvalidState { reason: String },
}

impl RemuxError {
    /// Whether retrying may succeed: after missing data, a timeout, an I/O
    /// error or the session limit; not after an FFmpeg failure, an
    /// unsupported format or an invalid state.
    pub fn is_retryable(&self) -> (b: bool)
        ensures
            b == (self is InsufficientData || self is Timeout || self is IoError || self is SessionLimitExceeded),
    {
        match self {
            RemuxError::FfmpegFailed { .. } => false,
            RemuxError::InsufficientData => true,
            RemuxError::UnsupportedFormat { .. } => false,
            RemuxError::Timeout { .. } => true,
            RemuxError::IoError { .. } => true,
            RemuxError::SessionLimitExceeded { .. } => true,
            RemuxError::InvalidState { .. } => false,
        }
    }
}

/// The state of a remuxing session.
#[derive(Debug, Clone)]
pub enum RemuxState {
    /// Waiting for the file's head and tail.
    WaitingForHeadAndTail,
    /// FFmpeg runs since `started_at`.
    Remuxing { started_at: Instant },
    /// Finished; the output is at `output_path`.
    Completed { output_path: String },
    /// Failed, perhaps retryably.
    Failed { error: RemuxError, can_retry: bool },
}

impl RemuxState {
    /// Whether a remux may start: while waiting, or after a retryable failure.
    pub open spec fn allows_start(self) -> bool {
        self is WaitingForHeadAndTail || (self matches RemuxState::Failed { can_retry, .. } && can_retry)
    }

    /// Whether a remux may start: while waiting, or after a retryable failure.
    pub fn can_start_remuxing(&self) -> (b: bool)
        ensures
            b == self.allows_start(),
    {
        match self {
            RemuxState::WaitingForHeadAndTail => true,
            RemuxState::Failed { can_retry, .. } => *can_retry,
            _ => false,
        }
    }

    /// Whether remuxing has completed.
    pub fn is_complete(&self) -> (b: bool)
        ensures
            b == self is Completed,
    {
        matches!(self, RemuxState::Completed { .. })
    }

    /// Whether FFmpeg is running.
    pub fn is_remuxing(&self) -> (b: bool)
        ensures
            b == self is Remuxing,
    {
        matches!(self, RemuxState::Remuxing { .. })
    }

    /// Whether remuxing failed.
    pub fn is_failed(&self) -> (b: bool)
        ensures
            b == self is Failed,
    {
        matches!(self, RemuxState::Failed { .. })
    }

    /// The output path, once remuxing has completed.
    pub fn output_path(&self) -> (p: Option<&String>)
        ensures
            self matches RemuxState::Completed { output_path } ==> (p matches Some(q) && *q == output_path),
            !(self is Completed) ==> p is None,
    {
        match self {
            RemuxState::Completed { output_path } => Some(output_path),
            _ => None,
        }
    }
}

/// The first position of `key` in `line`, if it occurs.
pub open spec fn first_occurrence(line: Seq<char>, key: Seq<char>) -> Option<int> {
    if exists|i: int| 0 <= i && i + key.len() <= line.len() && #[trigger] line.subrange(i, i + key.len()) == key {
        Some(choose|i: int| 0 <= i && i + key.len() <= line.len() && #[trigger] line.subrange(i, i + key.len()) == key
            && forall|j: int| 0 <= j < i ==> #[trigger] line.subrange(j, j + key.len()) != key)
    } else {
        None
    }
}

/// The value after `key` in an FFmpeg progress line: from the end of its
/// first occurrence to the next space, or to the end of the line.
pub open spec fn value_after(line: Seq<char>, key: Seq<char>, start: int) -> Seq<char> {
    let rest = line.subrange(start, line.len() as int);
    if exists|k: int| 0 <= k < rest.len() && rest[k] == ' ' {
        let k = choose|k: int| 0 <= k < rest.len() && rest[k] == ' ' && forall|m: int| 0 <= m < k ==> #[trigger] rest[m] != ' ';
        rest.subrange(0, k)
    } else {
        rest
    }
}

fn chars_of(s: &str) -> (v: Vec<char>)
    ensures
        v@ == s@,
{
    let mut v: Vec<char> = Vec::new();
    let n = s.unicode_len();
    let mut i: usize = 0;
    while i < n
        invariant
            n == s@.len(),
            i <= n,
            v@ == s@.subrange(0, i as int),
        decreases n - i,
    {
        v.push(s.get_char(i));
        proof {
            assert(v@ =~= s@.subrange(0, i + 1));
        }
        i = i + 1;
    }
    proof {
        assert(v@ =~= s@);
    }
    v
}

fn matches_at(line: &Vec<char>, at: usize, key: &Vec<char>) -> (b: bool)
    requires
        at + key@.len() <= line@.len(),
        line@.len() <= usize::MAX,
    ensures
        b == (line@.subrange(at as int, at + key@.len()) == key@),
{
    let mut j: usize = 0;
    while j < key.len()
        invariant
            at + key@.len() <= line@.len(),
            line@.len() <= usize::MAX,
            j <= key@.len(),
            forall|m: int| 0 <= m < j ==> line@[at + m] == key@[m],
        decreases key@.len() - j,
    {
        if line[at + j] != key[j] {
            proof {
                let s = line@.subrange(at as int, at + key@.len());
                if s == key@ {
                    assert(s[j as int] == key@[j as int]);
                }
            }
            return false;
        }
        j = j + 1;
    }
    proof {
        assert(line@.subrange(at as int, at + key@.len()) =~= key@);
    }
    true
}

/// The value after `key` in an FFmpeg progress line (see `value_after`),
/// if the key occurs in it.
pub fn extract_value<'a>(line: &'a str, key: &str) -> (r: Option<&'a str>)
    ensures
        first_occurrence(line@, key@) is None ==> r is None,
        first_occurrence(line@, key@) matches Some(i) ==> (r matches Some(v) && v@ == value_after(line@, key@, i + key@.len())),
{
    let l = chars_of(line);
    let k = chars_of(key);
    let n = l.len();
    let m = k.len();
    if m > n {
        proof {
            assert(!exists|i: int| 0 <= i && i + key@.len() <= line@.len() && #[trigger] line@.subrange(i, i + key@.len()) == key@);
        }
        return None;
    }
    let mut i: usize = 0;
    let mut found: Option<usize> = None;
    while i <= n - m
        invariant_except_break
            found is None,
        invariant
            n == l@.len(),
            m == k@.len(),
            m <= n,
            l@ == line@,
            k@ == key@,
            i <= n - m + 1,
            i <= n,
            forall|j: int| 0 <= j < i ==> #[trigger] line@.subrange(j, j + key@.len()) != key@,
        ensures
            found matches Some(f) ==> f <= n - m && line@.subrange(f as int, f + key@.len()) == key@
                && forall|j: int| 0 <= j < f ==> #[trigger] line@.subrange(j, j + key@.len()) != key@,
            found is None ==> forall|j: int| 0 <= j && j + key@.len() <= line@.len() ==> #[trigger] line@.subrange(j, j + key@.len()) != key@,
        decreases n - m + 1 - i,
    {
        if matches_at(&l, i, &k) {
            found = Some(i);
            break;
        }
        if i == n - m {
            break;
        }
        i = i + 1;
    }
    let f = match found {
        None => return None,
        Some(f) => f,
    };
    proof {
        let c = choose|j: int| 0 <= j && j + key@.len() <= line@.len() && #[trigger] line@.subrange(j, j + key@.len()) == key@
            && forall|q: int| 0 <= q < j ==> #[trigger] line@.subrange(q, q + key@.len()) != key@;
        assert(line@.subrange(f as int, f + key@.len()) == key@);
        if c != f {
            if c < f {
                assert(line@.subrange(c, c + key@.len()) != key@);
            } else {
                assert(line@.subrange(f as int, f + key@.len()) != key@);
            }
        }
        assert(first_occurrence(line@, key@) == Some(f as int));
    }
    let start = f + m;
    let ghost rest = line@.subrange(start as int, n as int);
    let mut v: Vec<char> = Vec::new();
    let mut p: usize = start;
    while p < n && l[p] != ' '
        invariant
            start <= p <= n,
            n == l@.len(),
            l@ == line@,
            rest == line@.subrange(start as int, n as int),
            forall|q: int| start <= q < p ==> l@[q] != ' ',
            v@ == line@.subrange(start as int, p as int),
        decreases n - p,
    {
        v.push(l[p]);
        proof {
            assert(v@ =~= line@.subrange(start as int, p + 1));
        }
        p = p + 1;
    }
    proof {
        if p < n {
            let kk = (p - start) as int;
            assert(rest[kk] == ' ');
            assert forall|q: int| 0 <= q < kk implies #[trigger] rest[q] != ' ' by {
                assert(rest[q] == l@[start + q]);
            }
            let c = choose|q: int| 0 <= q < rest.len() && rest[q] == ' ' && forall|mm: int| 0 <= mm < q ==> #[trigger] rest[mm] != ' ';
            if c < kk {
                assert(rest[c] == l@[start + c]);
            } else if c > kk {
                assert(rest[kk] != ' ');
            }
            assert(v@ =~= rest.subrange(0, kk));
        } else {
            assert forall|q: int| 0 <= q < rest.len() implies rest[q] != ' ' by {
                assert(rest[q] == l@[start + q]);
            }
            assert(v@ =~= rest);
        }
    }
    let out = line.substring_char(start, p);
    proof {
        assert(out@ =~= v@);
    }
    Some(out)
}

} // verus!
