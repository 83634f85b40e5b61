//! Scheduling of piece downloads around the streaming position: a priority
//! queue of requests, a bounded set of requests in flight, retries, and
//! stall detection.
use std::collections::{HashMap, VecDeque};
use std::time::Instant;
use vstd::prelude::*;

use crate::clock::{elapsed_since, now};
use crate::time::Duration;
use crate::torrent::InfoHash;

verus! {

broadcast use vstd::std_specs::hash::group_hash_axioms;

/// Errors of the download scheduler.
#[derive(Debug)]
pub enum DownloaderError {
    /// No torrent engine is attached.
    EngineNotAvailable { info_hash: InfoHash },
    /// A piece request could not be submitted.
    PieceRequestFailed { info_hash: InfoHash, piece_index: u32, reason: String },
    /// No progress was made for longer than the stall timeout.
    DownloadStalled { info_hash: InfoHash, duration: Duration },
    /// A piece range does not fit the torrent.
    InvalidPieceRange { info_hash: InfoHash, start: u32, end: u32, total: u32 },
    /// The configuration is invalid.
    Configuration { reason: String },
}

/// Urgency of a piece download, most urgent first.
#[derive(Debug, Clone, Copy, PartialEq, Eq, Structural)]
pub enum DownloadPriority {
    /// Needed immediately for playback.
    Critical,
    /// Needed for the immediate lookahead.
    High,
    /// Needed for buffer management.
    Normal,
    /// Background download.
    Low,
}

/// The position of a priority in the order Critical, High, Normal, Low.
pub open spec fn rank(p: DownloadPriority) -> int {
    match p {
        DownloadPriority::Critical => 0,
        DownloadPriority::High => 1,
        DownloadPriority::Normal => 2,
        DownloadPriority::Low => 3,
    }
}

impl DownloadPriority {
    /// The position of this priority, most urgent being zero.
    pub fn rank(&self) -> (r: u8)
        ensures
            r == rank(*self),
    {
        match self {
            DownloadPriority::Critical => 0,
            DownloadPriority::High => 1,
            DownloadPriority::Normal => 2,
            DownloadPriority::Low => 3,
        }
    }
}

/// A request to download one piece.
#[derive(Debug, Clone, Copy)]
pub struct DownloadRequest {
    /// The piece to download.
    pub piece_index: u32,
    /// Its urgency.
    pub priority: DownloadPriority,
    /// Byte offset within the file.
    pub byte_offset: u64,
    /// Time until the piece is needed, if estimated.
    pub urgency: Option<Duration>,
    /// When the request was made.
    pub timestamp: Instant,
}

/// Counters of the scheduler.
#[derive(Debug, Clone, Copy)]
pub struct DownloadStats {
    /// Pieces requested.
    pub total_requests: u64,
    /// Pieces downloaded.
    pub successful_downloads: u64,
    /// Requests given up after their retries.
    pub failed_downloads: u64,
    /// Requests waiting in the queue.
    pub queue_size: usize,
    /// Mean download time of the downloaded pieces.
    pub avg_download_time: Duration,
    /// Stalls detected.
    pub stall_count: u64,
    /// When the last piece was downloaded.
    pub last_success: Option<Instant>,
}

/// Limits and timings of the scheduler.
#[derive(Debug, Clone, Copy)]
pub struct DownloaderConfig {
    /// Requests in flight at most.
    pub max_concurrent_requests: usize,
    /// Lookahead buffer in pieces.
    pub lookahead_pieces: u32,
    /// Pieces that must be available around the position.
    pub critical_buffer_pieces: u32,
    /// No progress for longer than this is a stall.
    pub stall_timeout: Duration,
    /// Submission attempts of a request before it is given up.
    pub max_retry_attempts: u32,
    /// Delay before retrying a failed request.
    pub retry_delay: Duration,
}

impl Default for DownloaderConfig {
    fn default() -> (c: DownloaderConfig)
        ensures
            c.max_concurrent_requests == 8,
            c.lookahead_pieces == 20,
            c.critical_buffer_pieces == 5,
            c.stall_timeout.spec_secs() == 30 && c.stall_timeout.spec_nanos() == 0,
            c.max_retry_attempts == 3,
            c.retry_delay.spec_secs() == 2 && c.retry_delay.spec_nanos() == 0,
    {
        DownloaderConfig {
            max_concurrent_requests: 8,
            lookahead_pieces: 20,
            critical_buffer_pieces: 5,
            stall_timeout: Duration::from_secs(30),
            max_retry_attempts: 3,
            retry_delay: Duration::from_secs(2),
        }
    }
}

/// A queued request with its retry bookkeeping.
#[derive(Debug, Clone, Copy)]
pub struct PieceRequest {
    /// The request.
    pub request: DownloadRequest,
    /// Failed submissions so far.
    pub retry_count: u32,
    /// When it was last submitted or queued.
    pub last_attempt: Instant,
}

/// What scheduling decisions depend on in a queued request: its piece,
/// priority, byte offset and retry count.
pub open spec fn req_view(x: PieceRequest) -> (u32, DownloadPriority, u64, u32) {
    (x.request.piece_index, x.request.priority, x.request.byte_offset, x.retry_count)
}

/// The queue as the scheduling decisions see it.
pub open spec fn queue_view(q: Seq<PieceRequest>) -> Seq<(u32, DownloadPriority, u64, u32)> {
    q.map_values(|x: PieceRequest| req_view(x))
}

/// The distance of a piece ahead of the streaming position; pieces behind
/// it are as far as can be.
pub open spec fn piece_distance(piece: u32, position: u32) -> u32 {
    if piece >= position {
        (piece - position) as u32
    } else {
        u32::MAX
    }
}

/// The priority of a piece at a distance from the streaming position:
/// within 2 pieces Critical, within 10 High, within 50 Normal, else Low.
pub open spec fn priority_for_distance(d: u32) -> DownloadPriority {
    if d <= 2 {
        DownloadPriority::Critical
    } else if d <= 10 {
        DownloadPriority::High
    } else if d <= 50 {
        DownloadPriority::Normal
    } else {
        DownloadPriority::Low
    }
}

/// The queue with every request's priority recomputed from its distance to `position`.
pub open spec fn reprioritized(q: Seq<PieceRequest>, position: u32) -> Seq<PieceRequest> {
    Seq::new(q.len(), |i: int| PieceRequest {
        request: DownloadRequest {
            priority: priority_for_distance(piece_distance(q[i].request.piece_index, position)),
            ..q[i].request
        },
        ..q[i]
    })
}

/// The requests of one priority rank, in queue order.
pub open spec fn with_rank(s: Seq<PieceRequest>, r: int) -> Seq<PieceRequest>
    decreases s.len(),
{
    if s.len() == 0 {
        s
    } else if rank(s.last().request.priority) == r {
        with_rank(s.drop_last(), r).push(s.last())
    } else {
        with_rank(s.drop_last(), r)
    }
}

/// A stable sort of the queue by priority: each rank's requests in their
/// queue order, the ranks from most to least urgent.
pub open spec fn sorted_by_priority(s: Seq<PieceRequest>) -> Seq<PieceRequest> {
    with_rank(s, 0) + with_rank(s, 1) + with_rank(s, 2) + with_rank(s, 3)
}

/// Whether the queue is ordered by priority rank.
pub open spec fn priority_ordered(s: Seq<PieceRequest>) -> bool {
    forall|i: int, j: int| 0 <= i < j < s.len() ==> rank(#[trigger] s[i].request.priority) <= rank(#[trigger] s[j].request.priority)
}

/// Whether submitting a piece fails: the engine integration is simulated,
/// and every piece whose index ends in 99 (modulo 100) is refused.
pub open spec fn submission_fails(piece: u32) -> bool {
    piece % 100 == 99
}

/// The weight of a queued request in the scheduler's termination measure.
pub open spec fn retry_budget(max_retry: u32, retry: u32) -> int {
    max_retry - retry + 1
}

/// The total retry budget of a queue.
pub open spec fn potential(q: Seq<(u32, DownloadPriority, u64, u32)>, max_retry: u32) -> int
    decreases q.len(),
{
    if q.len() == 0 {
        0
    } else {
        retry_budget(max_retry, q[0].3) + potential(q.drop_first(), max_retry)
    }
}

/// One step of queue processing on the front request: skipped when already
/// downloaded or in flight; submitted into flight unless submission fails;
/// a failed request is queued again at the back with one more retry while
/// that count stays below `max_retry`, and is otherwise given up (counted as failed).
pub open spec fn schedule_step(
    q: Seq<(u32, DownloadPriority, u64, u32)>,
    in_flight: Set<u32>,
    downloaded: Set<u32>,
    max_retry: u32,
    failed: int,
) -> (Seq<(u32, DownloadPriority, u64, u32)>, Set<u32>, int) {
    let x = q[0];
    let rest = q.drop_first();
    if downloaded.contains(x.0) || in_flight.contains(x.0) {
        (rest, in_flight, failed)
    } else if !submission_fails(x.0) {
        (rest, in_flight.insert(x.0), failed)
    } else if x.3 + 1 < max_retry {
        (rest.push((x.0, x.1, x.2, (x.3 + 1) as u32)), in_flight, failed)
    } else {
        (rest, in_flight, failed + 1)
    }
}

/// Queue processing: steps while requests wait and fewer than
/// `max_concurrent` are in flight (at most `fuel` steps).
pub open spec fn schedule(
    q: Seq<(u32, DownloadPriority, u64, u32)>,
    in_flight: Set<u32>,
    downloaded: Set<u32>,
    max_concurrent: int,
    max_retry: u32,
    failed: int,
    fuel: nat,
) -> (Seq<(u32, DownloadPriority, u64, u32)>, Set<u32>, int)
    decreases fuel,
{
    if fuel == 0 || q.len() == 0 || in_flight.len() >= max_concurrent {
        (q, in_flight, failed)
    } else {
        let (q2, f2, n2) = schedule_step(q, in_flight, downloaded, max_retry, failed);
        schedule(q2, f2, downloaded, max_concurrent, max_retry, n2, (fuel - 1) as nat)
    }
}

proof fn lemma_potential_push(q: Seq<(u32, DownloadPriority, u64, u32)>, x: (u32, DownloadPriority, u64, u32), m: u32)
    ensures
        potential(q.push(x), m) == potential(q, m) + retry_budget(m, x.3),
    decreases q.len(),
{
    if q.len() == 0 {
        assert(q.push(x).drop_first() =~= q);
    } else {
        assert(q.push(x).drop_first() =~= q.drop_first().push(x));
        lemma_potential_push(q.drop_first(), x, m);
    }
}

proof fn lemma_potential_bound(q: Seq<(u32, DownloadPriority, u64, u32)>, m: u32)
    requires
        forall|i: int| 0 <= i < q.len() ==> (#[trigger] q[i]).3 <= m,
    ensures
        potential(q, m) >= q.len(),
    decreases q.len(),
{
    if q.len() > 0 {
        assert(q[0].3 <= m);
        assert forall|i: int| 0 <= i < q.drop_first().len() implies (#[trigger] q.drop_first()[i]).3 <= m by {
            assert(q.drop_first()[i] == q[i + 1]);
        }
        lemma_potential_bound(q.drop_first(), m);
    }
}

proof fn lemma_schedule_stops(
    q: Seq<(u32, DownloadPriority, u64, u32)>,
    fl: Set<u32>,
    dl: Set<u32>,
    mc: int,
    m: u32,
    failed: int,
    fuel: nat,
)
    requires
        q.len() == 0 || fl.len() >= mc,
    ensures
        schedule(q, fl, dl, mc, m, failed, fuel) == (q, fl, failed),
{
}

proof fn lemma_with_rank_skip(s: Seq<PieceRequest>, x: PieceRequest, r: int)
    ensures
        with_rank(s.push(x), r) == if rank(x.request.priority) == r { with_rank(s, r).push(x) } else { with_rank(s, r) },
{
    assert(s.push(x).drop_last() =~= s);
}

proof fn lemma_potential_unfold(q: Seq<(u32, DownloadPriority, u64, u32)>, m: u32)
    requires
        q.len() > 0,
    ensures
        potential(q, m) == retry_budget(m, q[0].3) + potential(q.drop_first(), m),
{
}

proof fn lemma_step_potential(
    q: Seq<(u32, DownloadPriority, u64, u32)>,
    fl: Set<u32>,
    dl: Set<u32>,
    m: u32,
    failed: int,
)
    requires
        q.len() > 0,
        forall|i: int| 0 <= i < q.len() ==> (#[trigger] q[i]).3 <= m,
    ensures
        ({
            let (q2, fl2, f2) = schedule_step(q, fl, dl, m, failed);
            &&& potential(q2, m) < potential(q, m)
            &&& forall|i: int| 0 <= i < q2.len() ==> (#[trigger] q2[i]).3 <= m
            &&& f2 + q2.len() <= failed + q.len()
            &&& failed <= f2
        }),
{
    let x = q[0];
    let rest = q.drop_first();
    lemma_potential_unfold(q, m);
    assert forall|i: int| 0 <= i < rest.len() implies (#[trigger] rest[i]).3 <= m by {
        assert(rest[i] == q[i + 1]);
    }
    if !(dl.contains(x.0) || fl.contains(x.0)) && submission_fails(x.0) && x.3 + 1 < m {
        let y = (x.0, x.1, x.2, (x.3 + 1) as u32);
        lemma_potential_push(rest, y, m);
        let q2 = rest.push(y);
        assert forall|i: int| 0 <= i < q2.len() implies (#[trigger] q2[i]).3 <= m by {
            if i < rest.len() {
                assert(q2[i] == rest[i]);
            }
        }
    }
}

proof fn lemma_schedule_fuel(
    q: Seq<(u32, DownloadPriority, u64, u32)>,
    fl: Set<u32>,
    dl: Set<u32>,
    mc: int,
    m: u32,
    failed: int,
    f1: nat,
    f2: nat,
)
    requires
        f1 >= potential(q, m),
        f2 >= potential(q, m),
        forall|i: int| 0 <= i < q.len() ==> (#[trigger] q[i]).3 <= m,
    ensures
        schedule(q, fl, dl, mc, m, failed, f1) == schedule(q, fl, dl, mc, m, failed, f2),
    decreases f1,
{
    if q.len() == 0 || fl.len() >= mc {
    } else {
        lemma_potential_bound(q, m);
        lemma_step_potential(q, fl, dl, m, failed);
        let (q2, fl2, n2) = schedule_step(q, fl, dl, m, failed);
        lemma_schedule_fuel(q2, fl2, dl, mc, m, n2, (f1 - 1) as nat, (f2 - 1) as nat);
    }
}

/// Whether `pos` is where a request of priority `p` joins the queue:
/// before the first request of a strictly lower priority, at the back if
/// there is none.
pub open spec fn is_insert_position(q: Seq<PieceRequest>, p: DownloadPriority, pos: int) -> bool {
    &&& 0 <= pos <= q.len()
    &&& forall|j: int| 0 <= j < pos ==> rank(#[trigger] q[j].request.priority) <= rank(p)
    &&& pos < q.len() ==> rank(q[pos].request.priority) > rank(p)
}

/// The requests of ranks below `r`, rank by rank, each in queue order.
pub open spec fn ranks_below(s: Seq<PieceRequest>, r: int) -> Seq<PieceRequest>
    decreases r,
{
    if r <= 0 {
        Seq::empty()
    } else {
        ranks_below(s, r - 1) + with_rank(s, r - 1)
    }
}

proof fn lemma_ranks_below_all(s: Seq<PieceRequest>)
    ensures
        ranks_below(s, 4) == sorted_by_priority(s),
{
    reveal_with_fuel(ranks_below, 5);
    assert(ranks_below(s, 4) =~= sorted_by_priority(s));
}

proof fn lemma_with_rank_ranks(s: Seq<PieceRequest>, r: int)
    ensures
        forall|k: int| 0 <= k < with_rank(s, r).len() ==> rank(#[trigger] with_rank(s, r)[k].request.priority) == r,
        with_rank(s, r).len() <= s.len(),
    decreases s.len(),
{
    if s.len() > 0 {
        lemma_with_rank_ranks(s.drop_last(), r);
    }
}

proof fn lemma_with_rank_retry(s: Seq<PieceRequest>, r: int, m: u32)
    requires
        forall|k: int| 0 <= k < s.len() ==> (#[trigger] s[k]).retry_count <= m,
    ensures
        forall|k: int| 0 <= k < with_rank(s, r).len() ==> (#[trigger] with_rank(s, r)[k]).retry_count <= m,
    decreases s.len(),
{
    if s.len() > 0 {
        let t = s.drop_last();
        assert forall|k: int| 0 <= k < t.len() implies (#[trigger] t[k]).retry_count <= m by {
            assert(t[k] == s[k]);
        }
        lemma_with_rank_retry(t, r, m);
    }
}

proof fn lemma_with_rank_multiset(s: Seq<PieceRequest>)
    ensures
        sorted_by_priority(s).to_multiset() =~= s.to_multiset(),
    decreases s.len(),
{
    broadcast use vstd::seq_lib::lemma_multiset_commutative;
    broadcast use vstd::seq_lib::group_to_multiset_ensures;
    if s.len() > 0 {
        let t = s.drop_last();
        let x = s.last();
        assert(t.push(x) =~= s);
        lemma_with_rank_multiset(t);
        lemma_with_rank_skip(t, x, 0);
        lemma_with_rank_skip(t, x, 1);
        lemma_with_rank_skip(t, x, 2);
        lemma_with_rank_skip(t, x, 3);
        assert(rank(x.request.priority) == 0 || rank(x.request.priority) == 1 || rank(x.request.priority) == 2 || rank(x.request.priority) == 3);
    } else {
        assert(sorted_by_priority(s) =~= s);
    }
}

/// Recomputing priorities reorders the queue by priority, most urgent
/// first, and keeps every request: the queue after
/// `recalculate_priorities` is ordered, and it holds the same requests,
/// each with its priority recomputed.
pub proof fn law_recalculated_queue_is_ordered_permutation(q: Seq<PieceRequest>, position: u32)
    ensures
        priority_ordered(sorted_by_priority(reprioritized(q, position))),
        sorted_by_priority(reprioritized(q, position)).to_multiset() =~= reprioritized(q, position).to_multiset(),
{
    let s = reprioritized(q, position);
    lemma_with_rank_ranks(s, 0);
    lemma_with_rank_ranks(s, 1);
    lemma_with_rank_ranks(s, 2);
    lemma_with_rank_ranks(s, 3);
    let a = with_rank(s, 0);
    let b = with_rank(s, 1);
    let c = with_rank(s, 2);
    let d = with_rank(s, 3);
    let all = sorted_by_priority(s);
    assert forall|i: int| 0 <= i < all.len() implies rank(#[trigger] all[i].request.priority) == (
        if i < a.len() { 0int } else if i < a.len() + b.len() { 1int } else if i < a.len() + b.len() + c.len() { 2int } else { 3int }) by {
        if i < a.len() {
            assert(all[i] == a[i]);
        } else if i < a.len() + b.len() {
            assert(all[i] == b[i - a.len()]);
        } else if i < a.len() + b.len() + c.len() {
            assert(all[i] == c[i - a.len() - b.len()]);
        } else {
            assert(all[i] == d[i - a.len() - b.len() - c.len()]);
        }
    }
    lemma_with_rank_multiset(s);
}

/// A request placed at its insertion position keeps a priority-ordered queue ordered.
pub proof fn law_request_keeps_queue_ordered(q: Seq<PieceRequest>, x: PieceRequest, pos: int)
    requires
        priority_ordered(q),
        is_insert_position(q, x.request.priority, pos),
    ensures
        priority_ordered(q.insert(pos, x)),
{
    let n = q.insert(pos, x);
    assert forall|i: int, j: int| 0 <= i < j < n.len() implies rank(#[trigger] n[i].request.priority) <= rank(#[trigger] n[j].request.priority) by {
        if j < pos {
            assert(n[i] == q[i] && n[j] == q[j]);
        } else if j == pos {
            assert(n[i] == q[i]);
        } else if i < pos {
            assert(n[i] == q[i] && n[j] == q[j - 1]);
            assert(rank(q[pos].request.priority) <= rank(q[j - 1].request.priority));
        } else if i == pos {
            assert(n[j] == q[j - 1]);
            assert(rank(q[pos].request.priority) <= rank(q[j - 1].request.priority));
        } else {
            assert(n[i] == q[i - 1] && n[j] == q[j - 1]);
        }
    }
}

fn distance_from(piece: u32, position: u32) -> (d: u32)
    ensures
        d == piece_distance(piece, position),
{
    if piece >= position {
        piece - position
    } else {
        u32::MAX
    }
}

fn priority_at_distance(d: u32) -> (p: DownloadPriority)
    ensures
        p == priority_for_distance(d),
{
    if d <= 2 {
        DownloadPriority::Critical
    } else if d <= 10 {
        DownloadPriority::High
    } else if d <= 50 {
        DownloadPriority::Normal
    } else {
        DownloadPriority::Low
    }
}

/// The mean download time after one more download of `dt`, when `n`
/// downloads are counted with it: the old mean weighted by `n - 1`, plus
/// `dt`, divided by `n`, each count taken as a `u32`.
pub open spec fn next_average(avg: Duration, n: u64, dt: Duration) -> int {
    (avg.total_nanos() * ((n - 1) as u32) + dt.total_nanos()) / ((n as u32) as int)
}

/// Whether the weighted sum behind `next_average` fits a `Duration`.
pub open spec fn average_fits(avg: Duration, n: u64, dt: Duration) -> bool {
    (avg.total_nanos() * ((n - 1) as u32) + dt.total_nanos()) / 1_000_000_000 <= u64::MAX
}

/// Schedules piece downloads for one torrent around the streaming position.
pub struct Downloader {
    info_hash: InfoHash,
    config: DownloaderConfig,
    current_position: u32,
    request_queue: VecDeque<PieceRequest>,
    in_flight: HashMap<u32, Instant>,
    downloaded_pieces: HashMap<u32, Instant>,
    stats: DownloadStats,
    last_progress: Instant,
    shut_down: bool,
}

impl Downloader {
    /// The queued requests, front first.
    pub closed spec fn spec_queue(&self) -> Seq<PieceRequest> {
        self.request_queue@
    }

    /// The pieces in flight.
    pub closed spec fn spec_in_flight(&self) -> Set<u32> {
        self.in_flight@.dom()
    }

    /// The pieces downloaded.
    pub closed spec fn spec_downloaded(&self) -> Set<u32> {
        self.downloaded_pieces@.dom()
    }

    /// The counters.
    pub closed spec fn spec_stats(&self) -> DownloadStats {
        self.stats
    }

    /// The configuration.
    pub closed spec fn spec_config(&self) -> DownloaderConfig {
        self.config
    }

    /// The streaming position, in pieces.
    pub closed spec fn spec_position(&self) -> u32 {
        self.current_position
    }

    /// The torrent scheduled for.
    pub closed spec fn spec_info_hash(&self) -> InfoHash {
        self.info_hash
    }

    /// Whether shutdown was requested.
    pub closed spec fn spec_shut_down(&self) -> bool {
        self.shut_down
    }

    /// The scheduler's invariant: no queued request has exhausted its
    /// retries beyond the limit, the counters' durations are well formed.
    pub closed spec fn wf(&self) -> bool {
        &&& forall|i: int| 0 <= i < self.request_queue@.len()
            ==> (#[trigger] self.request_queue@[i]).retry_count <= self.config.max_retry_attempts
        &&& self.stats.avg_download_time.wf()
        &&& self.config.stall_timeout.wf()
    }

    /// A scheduler at position zero with nothing queued, in flight or downloaded.
    pub fn new(info_hash: InfoHash, config: DownloaderConfig) -> (d: Downloader)
        requires
            config.stall_timeout.wf(),
        ensures
            d.wf(),
            d.spec_info_hash() == info_hash,
            d.spec_config() == config,
            d.spec_position() == 0,
            d.spec_queue().len() == 0,
            d.spec_in_flight() == Set::<u32>::empty(),
            d.spec_downloaded() == Set::<u32>::empty(),
            d.spec_stats().total_requests == 0,
            d.spec_stats().successful_downloads == 0,
            d.spec_stats().failed_downloads == 0,
            d.spec_stats().queue_size == 0,
            d.spec_stats().avg_download_time.total_nanos() == 0,
            d.spec_stats().stall_count == 0,
            d.spec_stats().last_success is None,
            !d.spec_shut_down(),
    {
        Downloader {
            info_hash,
            config,
            current_position: 0,
            request_queue: VecDeque::new(),
            in_flight: HashMap::new(),
            downloaded_pieces: HashMap::new(),
            stats: DownloadStats {
                total_requests: 0,
                successful_downloads: 0,
                failed_downloads: 0,
                queue_size: 0,
                avg_download_time: Duration::from_millis(0),
                stall_count: 0,
                last_success: None,
            },
            last_progress: now(),
            shut_down: false,
        }
    }

    /// Queues a request for a piece, behind every queued request of the
    /// same or a more urgent priority and before the first of a less urgent
    /// one, and counts it.
    pub fn request_piece(&mut self, piece_index: u32, priority: DownloadPriority, byte_offset: u64) -> (r: Result<(), DownloaderError>)
        requires
            old(self).wf(),
            old(self).spec_stats().total_requests < u64::MAX,
        ensures
            r is Ok,
            final(self).wf(),
            exists|pos: int|
                #[trigger] is_insert_position(old(self).spec_queue(), priority, pos)
                    && queue_view(final(self).spec_queue()) == queue_view(old(self).spec_queue()).insert(pos, (piece_index, priority, byte_offset, 0u32)),
            final(self).spec_queue().len() == old(self).spec_queue().len() + 1,
            final(self).spec_stats() == (DownloadStats {
                total_requests: (old(self).spec_stats().total_requests + 1) as u64,
                queue_size: final(self).spec_queue().len() as usize,
                ..old(self).spec_stats()
            }),
            final(self).spec_in_flight() == old(self).spec_in_flight(),
            final(self).spec_downloaded() == old(self).spec_downloaded(),
            final(self).spec_config() == old(self).spec_config(),
            final(self).spec_position() == old(self).spec_position(),
            final(self).spec_info_hash() == old(self).spec_info_hash(),
            final(self).spec_shut_down() == old(self).spec_shut_down(),
    {
        let t = now();
        let request = DownloadRequest { piece_index, priority, byte_offset, urgency: None, timestamp: t };
        let piece_request = PieceRequest { request, retry_count: 0, last_attempt: t };
        let p = priority.rank();
        let n = self.request_queue.len();
        let mut pos: usize = 0;
        while pos < n
            invariant
                n == self.request_queue@.len(),
                p == rank(priority),
                pos <= n,
                forall|j: int| 0 <= j < pos ==> rank(#[trigger] self.request_queue@[j].request.priority) <= rank(priority),
            ensures
                pos <= n,
                forall|j: int| 0 <= j < pos ==> rank(#[trigger] self.request_queue@[j].request.priority) <= rank(priority),
                pos < n ==> rank(self.request_queue@[pos as int].request.priority) > rank(priority),
            decreases n - pos,
        {
            let r = self.request_queue[pos].request.priority.rank();
            if r > p {
                break;
            }
            pos = pos + 1;
        }
        let ghost old_q = self.request_queue@;
        self.request_queue.insert(pos, piece_request);
        proof {
            let nq = self.request_queue@;
            assert(is_insert_position(old_q, priority, pos as int));
            assert(queue_view(nq) =~= queue_view(old_q).insert(pos as int, (piece_index, priority, byte_offset, 0u32)));
            assert forall|i: int| 0 <= i < nq.len() implies (#[trigger] nq[i]).retry_count <= self.config.max_retry_attempts by {
                if i < pos {
                    assert(nq[i] == old_q[i]);
                } else if i > pos {
                    assert(nq[i] == old_q[i - 1]);
                }
            }
        }
        self.stats.total_requests = self.stats.total_requests + 1;
        self.stats.queue_size = self.request_queue.len();
        assert(is_insert_position(old(self).spec_queue(), priority, pos as int));
        assert(queue_view(self.spec_queue()) == queue_view(old(self).spec_queue()).insert(pos as int, (piece_index, priority, byte_offset, 0u32)));
        Ok(())
    }

    /// The simulated submission of a request to the torrent engine: a piece
    /// whose index ends in 99 (modulo 100) is refused.
    fn submit_piece_request(&self, request: &DownloadRequest) -> (r: Result<(), DownloaderError>)
        ensures
            r is Err <==> submission_fails(request.piece_index),
    {
        if request.piece_index % 100 == 99 {
            Err(DownloaderError::PieceRequestFailed {
                info_hash: self.info_hash,
                piece_index: request.piece_index,
                reason: "Simulated failure".to_string(),
            })
        } else {
            Ok(())
        }
    }

    /// Works through the queue while requests wait and fewer than the
    /// configured maximum are in flight: a request for a piece downloaded or
    /// in flight is dropped; otherwise it is submitted and put in flight;
    /// a refused request goes to the back of the queue with one more retry
    /// while its retries stay below the limit, and is otherwise given up and
    /// counted as failed.
    pub fn process_download_queue(&mut self) -> (r: Result<(), DownloaderError>)
        requires
            old(self).wf(),
            old(self).spec_stats().failed_downloads + old(self).spec_queue().len() <= u64::MAX,
        ensures
            r is Ok,
            final(self).wf(),
            ({
                let q0 = queue_view(old(self).spec_queue());
                let m = old(self).spec_config().max_retry_attempts;
                let (q, fl, failed) = schedule(
                    q0,
                    old(self).spec_in_flight(),
                    old(self).spec_downloaded(),
                    old(self).spec_config().max_concurrent_requests as int,
                    m,
                    old(self).spec_stats().failed_downloads as int,
                    potential(q0, m) as nat,
                );
                &&& queue_view(final(self).spec_queue()) == q
                &&& final(self).spec_in_flight() == fl
                &&& final(self).spec_stats() == (DownloadStats {
                    failed_downloads: failed as u64,
                    queue_size: q.len() as usize,
                    ..old(self).spec_stats()
                })
            }),
            final(self).spec_downloaded() == old(self).spec_downloaded(),
            final(self).spec_config() == old(self).spec_config(),
            final(self).spec_position() == old(self).spec_position(),
            final(self).spec_info_hash() == old(self).spec_info_hash(),
            final(self).spec_shut_down() == old(self).spec_shut_down(),
    {
        let ghost q0 = queue_view(self.request_queue@);
        let ghost m = self.config.max_retry_attempts;
        let ghost mc = self.config.max_concurrent_requests as int;
        let ghost dl = self.downloaded_pieces@.dom();
        let ghost target = schedule(q0, self.in_flight@.dom(), dl, mc, m, self.stats.failed_downloads as int, potential(q0, m) as nat);
        let ghost failed0 = self.stats.failed_downloads as int;
        let ghost len0 = q0.len();
        proof {
            assert forall|i: int| 0 <= i < q0.len() implies (#[trigger] q0[i]).3 <= m by {
                assert(q0[i] == req_view(self.request_queue@[i]));
            }
            lemma_potential_bound(q0, m);
        }
        while self.in_flight.len() < self.config.max_concurrent_requests && self.request_queue.len() > 0
            invariant
                self.wf(),
                self.config == old(self).config,
                self.downloaded_pieces == old(self).downloaded_pieces,
                self.current_position == old(self).current_position,
                self.info_hash == old(self).info_hash,
                self.shut_down == old(self).shut_down,
                self.stats == (DownloadStats { failed_downloads: self.stats.failed_downloads, ..old(self).stats }),
                m == self.config.max_retry_attempts,
                mc == self.config.max_concurrent_requests as int,
                dl == self.downloaded_pieces@.dom(),
                failed0 <= self.stats.failed_downloads,
                self.stats.failed_downloads + self.request_queue@.len() <= failed0 + len0,
                failed0 + len0 <= u64::MAX,
                schedule(
                    queue_view(self.request_queue@),
                    self.in_flight@.dom(),
                    dl,
                    mc,
                    m,
                    self.stats.failed_downloads as int,
                    potential(queue_view(self.request_queue@), m) as nat,
                ) == target,
                potential(queue_view(self.request_queue@), m) >= 0,
            decreases potential(queue_view(self.request_queue@), m),
        {
            let ghost q = queue_view(self.request_queue@);
            let ghost fl = self.in_flight@.dom();
            let ghost failed = self.stats.failed_downloads as int;
            proof {
                assert forall|i: int| 0 <= i < q.len() implies (#[trigger] q[i]).3 <= m by {
                    assert(q[i] == req_view(self.request_queue@[i]));
                }
                lemma_potential_bound(q, m);
                lemma_step_potential(q, fl, dl, m, failed);
            }
            let ghost step = schedule_step(q, fl, dl, m, failed);
            let mut piece_request = self.request_queue.pop_front().unwrap();
            proof {
                assert(queue_view(self.request_queue@) =~= q.drop_first());
                assert(req_view(piece_request) == q[0]);
            }
            let piece_index = piece_request.request.piece_index;
            if self.downloaded_pieces.contains_key(&piece_index) || self.in_flight.contains_key(&piece_index) {
            } else {
                match self.submit_piece_request(&piece_request.request) {
                    Ok(()) => {
                        let t = now();
                        self.in_flight.insert(piece_index, t);
                    },
                    Err(_) => {
                        let next: u64 = piece_request.retry_count as u64 + 1;
                        if next < self.config.max_retry_attempts as u64 {
                            piece_request.retry_count = next as u32;
                            piece_request.last_attempt = now();
                            let ghost before = self.request_queue@;
                            self.request_queue.push_back(piece_request);
                            proof {
                                assert(queue_view(self.request_queue@) =~= queue_view(before).push(req_view(piece_request)));
                            }
                        } else {
                            self.stats.failed_downloads = self.stats.failed_downloads + 1;
                        }
                    },
                }
            }
            proof {
                let nq = queue_view(self.request_queue@);
                assert(nq == step.0);
                assert(self.in_flight@.dom() =~= step.1);
                assert(self.stats.failed_downloads as int == step.2);
                assert forall|i: int| 0 <= i < self.request_queue@.len() implies (#[trigger] self.request_queue@[i]).retry_count <= self.config.max_retry_attempts by {
                    assert(nq[i] == req_view(self.request_queue@[i]));
                }
                lemma_potential_bound(nq, m);
                lemma_schedule_fuel(step.0, step.1, dl, mc, m, step.2, (potential(q, m) - 1) as nat, potential(step.0, m) as nat);
            }
        }
        proof {
            let q = queue_view(self.request_queue@);
            assert(self.in_flight.len() == self.in_flight@.len());
            assert(self.in_flight@.len() == self.in_flight@.dom().len());
            lemma_schedule_stops(q, self.in_flight@.dom(), dl, mc, m, self.stats.failed_downloads as int, potential(q, m) as nat);
        }
        self.stats.queue_size = self.request_queue.len();
        Ok(())
    }

    /// Recomputes every queued request's priority from its distance to the
    /// streaming position and reorders the queue by priority, most urgent
    /// first, keeping the queue order within a priority.
    pub fn recalculate_priorities(&mut self)
        requires
            old(self).wf(),
        ensures
            final(self).wf(),
            final(self).spec_queue() == sorted_by_priority(reprioritized(old(self).spec_queue(), old(self).spec_position())),
            final(self).spec_stats() == old(self).spec_stats(),
            final(self).spec_in_flight() == old(self).spec_in_flight(),
            final(self).spec_downloaded() == old(self).spec_downloaded(),
            final(self).spec_config() == old(self).spec_config(),
            final(self).spec_position() == old(self).spec_position(),
            final(self).spec_info_hash() == old(self).spec_info_hash(),
            final(self).spec_shut_down() == old(self).spec_shut_down(),
    {
        let position = self.current_position;
        let n = self.request_queue.len();
        let ghost q = self.request_queue@;
        let ghost target = reprioritized(q, position);
        let mut items: Vec<PieceRequest> = Vec::new();
        let mut i: usize = 0;
        while i < n
            invariant
                n == q.len(),
                q == self.request_queue@,
                target == reprioritized(q, position),
                i <= n,
                items@ == target.take(i as int),
            decreases n - i,
        {
            let mut x = self.request_queue[i];
            x.request.priority = priority_at_distance(distance_from(x.request.piece_index, position));
            items.push(x);
            proof {
                assert(items@ =~= target.take(i + 1));
            }
            i = i + 1;
        }
        proof {
            assert(items@ =~= target);
        }
        let mut out: VecDeque<PieceRequest> = VecDeque::new();
        let mut r: u8 = 0;
        while r < 4
            invariant
                items@ == target,
                n == target.len(),
                r <= 4,
                out@ == ranks_below(target, r as int),
            decreases 4 - r,
        {
            let mut k: usize = 0;
            while k < n
                invariant
                    items@ == target,
                    n == target.len(),
                    r < 4,
                    k <= n,
                    out@ == ranks_below(target, r as int) + with_rank(target.take(k as int), r as int),
                decreases n - k,
            {
                let x = items[k];
                proof {
                    assert(target.take(k + 1) =~= target.take(k as int).push(x));
                    lemma_with_rank_skip(target.take(k as int), x, r as int);
                }
                if x.request.priority.rank() == r {
                    out.push_back(x);
                }
                proof {
                    assert(out@ =~= ranks_below(target, r as int) + with_rank(target.take(k + 1), r as int));
                }
                k = k + 1;
            }
            proof {
                assert(target.take(n as int) =~= target);
                assert(ranks_below(target, r + 1) == ranks_below(target, r as int) + with_rank(target, r as int));
            }
            r = r + 1;
        }
        proof {
            lemma_ranks_below_all(target);
            law_recalculated_queue_is_ordered_permutation(q, position);
            let m = self.config.max_retry_attempts;
            assert forall|k: int| 0 <= k < target.len() implies (#[trigger] target[k]).retry_count <= m by {
                assert(target[k].retry_count == q[k].retry_count);
            }
            lemma_with_rank_retry(target, 0, m);
            lemma_with_rank_retry(target, 1, m);
            lemma_with_rank_retry(target, 2, m);
            lemma_with_rank_retry(target, 3, m);
            let a = with_rank(target, 0);
            let b = with_rank(target, 1);
            let c = with_rank(target, 2);
            let d = with_rank(target, 3);
            assert forall|j: int| 0 <= j < out@.len() implies (#[trigger] out@[j]).retry_count <= m by {
                if j < a.len() {
                    assert(out@[j] == a[j]);
                } else if j < a.len() + b.len() {
                    assert(out@[j] == b[j - a.len()]);
                } else if j < a.len() + b.len() + c.len() {
                    assert(out@[j] == c[j - a.len() - b.len()]);
                } else {
                    assert(out@[j] == d[j - a.len() - b.len() - c.len()]);
                }
            }
        }
        self.request_queue = out;
    }

    /// Moves the streaming position; when it changes, progress is noted and
    /// the queue's priorities are recomputed around the new position.
    pub fn update_streaming_position(&mut self, piece_index: u32)
        requires
            old(self).wf(),
        ensures
            final(self).wf(),
            final(self).spec_position() == piece_index,
            piece_index != old(self).spec_position() ==> final(self).spec_queue() == sorted_by_priority(reprioritized(old(self).spec_queue(), piece_index)),
            piece_index == old(self).spec_position() ==> final(self).spec_queue() == old(self).spec_queue(),
            final(self).spec_stats() == old(self).spec_stats(),
            final(self).spec_in_flight() == old(self).spec_in_flight(),
            final(self).spec_downloaded() == old(self).spec_downloaded(),
            final(self).spec_config() == old(self).spec_config(),
            final(self).spec_info_hash() == old(self).spec_info_hash(),
            final(self).spec_shut_down() == old(self).spec_shut_down(),
    {
        let old_position = self.current_position;
        self.current_position = piece_index;
        if piece_index != old_position {
            self.last_progress = now();
            self.recalculate_priorities();
        }
    }

    /// Records a finished download of `piece_index` that took
    /// `download_time`: if the piece was in flight it leaves flight, counts
    /// as downloaded, and the mean download time takes it in; otherwise
    /// nothing changes.
    pub fn complete_download(&mut self, piece_index: u32, download_time: Duration)
        requires
            old(self).wf(),
            download_time.wf(),
            old(self).spec_in_flight().contains(piece_index) ==> {
                let n = (old(self).spec_stats().successful_downloads + 1) as u64;
                &&& old(self).spec_stats().successful_downloads < u64::MAX
                &&& n as u32 != 0
                &&& average_fits(old(self).spec_stats().avg_download_time, n, download_time)
            },
        ensures
            final(self).wf(),
            !old(self).spec_in_flight().contains(piece_index) ==> *final(self) == *old(self),
            old(self).spec_in_flight().contains(piece_index) ==> {
                let n = (old(self).spec_stats().successful_downloads + 1) as u64;
                &&& final(self).spec_in_flight() == old(self).spec_in_flight().remove(piece_index)
                &&& final(self).spec_downloaded() == old(self).spec_downloaded().insert(piece_index)
                &&& final(self).spec_stats().successful_downloads == n
                &&& final(self).spec_stats().last_success is Some
                &&& final(self).spec_stats().avg_download_time.total_nanos() == next_average(old(self).spec_stats().avg_download_time, n, download_time)
                &&& final(self).spec_stats().total_requests == old(self).spec_stats().total_requests
                &&& final(self).spec_stats().failed_downloads == old(self).spec_stats().failed_downloads
                &&& final(self).spec_stats().queue_size == old(self).spec_stats().queue_size
                &&& final(self).spec_stats().stall_count == old(self).spec_stats().stall_count
                &&& final(self).spec_queue() == old(self).spec_queue()
                &&& final(self).spec_config() == old(self).spec_config()
                &&& final(self).spec_position() == old(self).spec_position()
                &&& final(self).spec_info_hash() == old(self).spec_info_hash()
                &&& final(self).spec_shut_down() == old(self).spec_shut_down()
            },
    {
        if self.in_flight.contains_key(&piece_index) {
            let _ = self.in_flight.remove(&piece_index);
            let t = now();
            let _ = self.downloaded_pieces.insert(piece_index, t);
            let n: u64 = self.stats.successful_downloads + 1;
            #[verifier::truncate]
            let weight: u32 = (n - 1) as u32;
            #[verifier::truncate]
            let count: u32 = n as u32;
            let weighted = self.stats.avg_download_time.mul_u32(weight);
            let total = weighted.add(&download_time);
            self.stats.avg_download_time = total.div_u32(count);
            self.stats.successful_downloads = n;
            self.stats.last_success = Some(t);
            proof {
                assert(self.in_flight@.dom() =~= old(self).in_flight@.dom().remove(piece_index));
                assert(self.downloaded_pieces@.dom() =~= old(self).downloaded_pieces@.dom().insert(piece_index));
            }
        }
    }

    /// Marks a piece as downloaded, timing it from when it was put in
    /// flight: the piece leaves flight, counts as downloaded and as the
    /// latest success, and the mean download time takes the measured time
    /// in. Should the weighted sum behind the mean not fit a `Duration`, the
    /// mean stays as it was. Nothing changes when the piece was not in flight.
    pub fn mark_piece_downloaded(&mut self, piece_index: u32)
        requires
            old(self).wf(),
            old(self).spec_stats().successful_downloads < u64::MAX,
            ((old(self).spec_stats().successful_downloads + 1) as u64) as u32 != 0,
        ensures
            final(self).wf(),
            !old(self).spec_in_flight().contains(piece_index) ==> *final(self) == *old(self),
            old(self).spec_in_flight().contains(piece_index) ==> {
                let n = (old(self).spec_stats().successful_downloads + 1) as u64;
                let avg = old(self).spec_stats().avg_download_time;
                &&& final(self).spec_in_flight() == old(self).spec_in_flight().remove(piece_index)
                &&& final(self).spec_downloaded() == old(self).spec_downloaded().insert(piece_index)
                &&& final(self).spec_stats().successful_downloads == n
                &&& final(self).spec_stats().last_success is Some
                &&& exists|dt: Duration| dt.wf()
                    && (#[trigger] average_fits(avg, n, dt) ==> next_average(avg, n, dt) == final(self).spec_stats().avg_download_time.total_nanos())
                    && (!average_fits(avg, n, dt) ==> final(self).spec_stats().avg_download_time == avg)
                &&& final(self).spec_stats().total_requests == old(self).spec_stats().total_requests
                &&& final(self).spec_stats().failed_downloads == old(self).spec_stats().failed_downloads
                &&& final(self).spec_stats().queue_size == old(self).spec_stats().queue_size
                &&& final(self).spec_stats().stall_count == old(self).spec_stats().stall_count
                &&& final(self).spec_queue() == old(self).spec_queue()
                &&& final(self).spec_config() == old(self).spec_config()
                &&& final(self).spec_position() == old(self).spec_position()
                &&& final(self).spec_info_hash() == old(self).spec_info_hash()
                &&& final(self).spec_shut_down() == old(self).spec_shut_down()
            },
    {
        if self.in_flight.contains_key(&piece_index) {
            let started = *self.in_flight.get(&piece_index).unwrap();
            let dt = elapsed_since(&started);
            let fits = self.average_holds(&dt);
            if fits {
                self.complete_download(piece_index, dt);
            } else {
                self.complete_keeping_average(piece_index);
            }
            assert(average_fits(old(self).spec_stats().avg_download_time, (old(self).spec_stats().successful_downloads + 1) as u64, dt) == fits);
        }
    }

    /// Records a finished download of an in-flight piece without touching
    /// the mean download time.
    fn complete_keeping_average(&mut self, piece_index: u32)
        requires
            old(self).wf(),
            old(self).spec_in_flight().contains(piece_index),
            old(self).spec_stats().successful_downloads < u64::MAX,
        ensures
            final(self).wf(),
            final(self).spec_in_flight() == old(self).spec_in_flight().remove(piece_index),
            final(self).spec_downloaded() == old(self).spec_downloaded().insert(piece_index),
            final(self).spec_stats() == (DownloadStats {
                successful_downloads: (old(self).spec_stats().successful_downloads + 1) as u64,
                last_success: final(self).spec_stats().last_success,
                ..old(self).spec_stats()
            }),
            final(self).spec_stats().last_success is Some,
            final(self).spec_queue() == old(self).spec_queue(),
            final(self).spec_config() == old(self).spec_config(),
            final(self).spec_position() == old(self).spec_position(),
            final(self).spec_info_hash() == old(self).spec_info_hash(),
            final(self).spec_shut_down() == old(self).spec_shut_down(),
    {
        let _ = self.in_flight.remove(&piece_index);
        let t = now();
        let _ = self.downloaded_pieces.insert(piece_index, t);
        self.stats.successful_downloads = self.stats.successful_downloads + 1;
        self.stats.last_success = Some(t);
        proof {
            assert(self.in_flight@.dom() =~= old(self).in_flight@.dom().remove(piece_index));
            assert(self.downloaded_pieces@.dom() =~= old(self).downloaded_pieces@.dom().insert(piece_index));
        }
    }

    /// Whether the mean download time can take in one more download of `dt`.
    fn average_holds(&self, dt: &Duration) -> (b: bool)
        requires
            self.wf(),
            dt.wf(),
            self.stats.successful_downloads < u64::MAX,
        ensures
            b == average_fits(self.stats.avg_download_time, (self.stats.successful_downloads + 1) as u64, *dt),
    {
        let n: u64 = self.stats.successful_downloads + 1;
        #[verifier::truncate]
        let weight: u32 = (n - 1) as u32;
        let a: u128 = self.stats.avg_download_time.as_secs() as u128 * 1_000_000_000 + self.stats.avg_download_time.subsec_nanos() as u128;
        let b: u128 = dt.as_secs() as u128 * 1_000_000_000 + dt.subsec_nanos() as u128;
        proof {
            assert(a <= 18_446_744_074_709_551_615_000_000_000u128);
            assert(b <= 18_446_744_074_709_551_615_000_000_000u128);
            assert(a * weight <= 79_228_162_519_264_337_593_543_950_335_000_000_000int) by (nonlinear_arith)
                requires a <= 18_446_744_074_709_551_615_000_000_000int, weight <= u32::MAX;
        }
        let sum: u128 = a * (weight as u128) + b;
        sum / 1_000_000_000 <= u64::MAX as u128
    }

    /// Decides on a stall after `stall_duration` without progress: longer
    /// than the stall timeout, the stall is counted, the requests in flight
    /// are released for retry and the stall is reported; otherwise nothing
    /// changes.
    pub fn stall_check(&mut self, stall_duration: Duration) -> (r: Result<(), DownloaderError>)
        requires
            old(self).wf(),
            stall_duration.wf(),
            old(self).spec_stats().stall_count < u64::MAX,
        ensures
            final(self).wf(),
            stall_duration.total_nanos() <= old(self).spec_config().stall_timeout.total_nanos() ==> r is Ok && *final(self) == *old(self),
            stall_duration.total_nanos() > old(self).spec_config().stall_timeout.total_nanos() ==> {
                &&& r matches Err(DownloaderError::DownloadStalled { info_hash, duration })
                    && info_hash == old(self).spec_info_hash() && duration == stall_duration
                &&& final(self).spec_stats() == (DownloadStats {
                    stall_count: (old(self).spec_stats().stall_count + 1) as u64,
                    ..old(self).spec_stats()
                })
                &&& final(self).spec_in_flight() == Set::<u32>::empty()
                &&& final(self).spec_queue() == old(self).spec_queue()
                &&& final(self).spec_downloaded() == old(self).spec_downloaded()
                &&& final(self).spec_config() == old(self).spec_config()
                &&& final(self).spec_position() == old(self).spec_position()
                &&& final(self).spec_info_hash() == old(self).spec_info_hash()
                &&& final(self).spec_shut_down() == old(self).spec_shut_down()
            },
    {
        if stall_duration.gt(&self.config.stall_timeout) {
            self.stats.stall_count = self.stats.stall_count + 1;
            self.in_flight.clear();
            proof {
                assert(self.in_flight@.dom() =~= Set::<u32>::empty());
            }
            return Err(DownloaderError::DownloadStalled { info_hash: self.info_hash, duration: stall_duration });
        }
        Ok(())
    }

    /// Checks the time since the last progress against the stall timeout
    /// (see `stall_check`).
    pub fn check_stall_detection(&mut self) -> (r: Result<(), DownloaderError>)
        requires
            old(self).wf(),
            old(self).spec_stats().stall_count < u64::MAX,
        ensures
            final(self).wf(),
            r is Ok ==> *final(self) == *old(self),
            r is Err ==> {
                &&& r matches Err(DownloaderError::DownloadStalled { info_hash, duration })
                    && info_hash == old(self).spec_info_hash()
                    && duration.total_nanos() > old(self).spec_config().stall_timeout.total_nanos()
                &&& final(self).spec_stats() == (DownloadStats {
                    stall_count: (old(self).spec_stats().stall_count + 1) as u64,
                    ..old(self).spec_stats()
                })
                &&& final(self).spec_in_flight() == Set::<u32>::empty()
                &&& final(self).spec_queue() == old(self).spec_queue()
                &&& final(self).spec_downloaded() == old(self).spec_downloaded()
                &&& final(self).spec_config() == old(self).spec_config()
            },
    {
        let stall_duration = elapsed_since(&self.last_progress);
        self.stall_check(stall_duration)
    }

    /// The counters.
    pub fn stats(&self) -> (s: DownloadStats)
        ensures
            s == self.spec_stats(),
    {
        self.stats
    }

    /// Requests shutdown of the scheduler.
    pub fn shutdown(&mut self)
        requires
            old(self).wf(),
        ensures
            final(self).wf(),
            final(self).spec_shut_down(),
            final(self).spec_queue() == old(self).spec_queue(),
            final(self).spec_stats() == old(self).spec_stats(),
            final(self).spec_in_flight() == old(self).spec_in_flight(),
            final(self).spec_downloaded() == old(self).spec_downloaded(),
            final(self).spec_config() == old(self).spec_config(),
            final(self).spec_position() == old(self).spec_position(),
            final(self).spec_info_hash() == old(self).spec_info_hash(),
    {
        self.shut_down = true;
    }

    /// The streaming position, in pieces.
    pub fn current_position(&self) -> (p: u32)
        ensures
            p == self.spec_position(),
    {
        self.current_position
    }

    /// The queued requests, front first.
    pub fn queued_requests(&self) -> (v: Vec<DownloadRequest>)
        ensures
            v@.len() == self.spec_queue().len(),
            forall|i: int| 0 <= i < v@.len() ==> #[trigger] v@[i] == self.spec_queue()[i].request,
    {
        let mut v: Vec<DownloadRequest> = Vec::new();
        let mut i: usize = 0;
        while i < self.request_queue.len()
            invariant
                i <= self.request_queue@.len(),
                v@.len() == i,
                forall|k: int| 0 <= k < i ==> #[trigger] v@[k] == self.request_queue@[k].request,
            decreases self.request_queue@.len() - i,
        {
            v.push(self.request_queue[i].request);
            i = i + 1;
        }
        v
    }

    /// Whether a piece is in flight.
    pub fn is_in_flight(&self, piece_index: u32) -> (b: bool)
        ensures
            b == self.spec_in_flight().contains(piece_index),
    {
        self.in_flight.contains_key(&piece_index)
    }

    /// Whether a piece was downloaded.
    pub fn is_downloaded(&self, piece_index: u32) -> (b: bool)
        ensures
            b == self.spec_downloaded().contains(piece_index),
    {
        self.downloaded_pieces.contains_key(&piece_index)
    }
}

/// Priorities around the streaming position: after recalculation around
/// `position` (and the stable sort that follows), every queued request for
/// a piece `d` pieces ahead of the position is Critical for `d` in 0..=2,
/// High for 3..=10, Normal for 11..=50 and Low beyond; requests behind the
/// position are Low. Nothing else of a request changes.
pub proof fn law_priority_by_distance(q: Seq<PieceRequest>, position: u32)
    ensures
        forall|i: int| 0 <= i < q.len() ==> {
            let x = #[trigger] reprioritized(q, position)[i];
            let piece = q[i].request.piece_index;
            &&& x.request.piece_index == piece
            &&& x.request.byte_offset == q[i].request.byte_offset
            &&& x.retry_count == q[i].retry_count
            &&& (position <= piece && piece - position <= 2 ==> x.request.priority == DownloadPriority::Critical)
            &&& (position + 3 <= piece && piece - position <= 10 ==> x.request.priority == DownloadPriority::High)
            &&& (position + 11 <= piece && piece - position <= 50 ==> x.request.priority == DownloadPriority::Normal)
            &&& (position + 50 < piece || piece < position ==> x.request.priority == DownloadPriority::Low)
        },
        forall|x: PieceRequest| #[trigger] sorted_by_priority(reprioritized(q, position)).contains(x) ==> {
            let piece = x.request.piece_index;
            &&& (position <= piece && piece - position <= 2 ==> x.request.priority == DownloadPriority::Critical)
            &&& (position + 3 <= piece && piece - position <= 10 ==> x.request.priority == DownloadPriority::High)
            &&& (position + 11 <= piece && piece - position <= 50 ==> x.request.priority == DownloadPriority::Normal)
            &&& (position + 50 < piece || piece < position ==> x.request.priority == DownloadPriority::Low)
        },
{
    let s = reprioritized(q, position);
    law_recalculated_queue_is_ordered_permutation(q, position);
    assert forall|x: PieceRequest| #[trigger] sorted_by_priority(s).contains(x) implies {
        let piece = x.request.piece_index;
        &&& (position <= piece && piece - position <= 2 ==> x.request.priority == DownloadPriority::Critical)
        &&& (position + 3 <= piece && piece - position <= 10 ==> x.request.priority == DownloadPriority::High)
        &&& (position + 11 <= piece && piece - position <= 50 ==> x.request.priority == DownloadPriority::Normal)
        &&& (position + 50 < piece || piece < position ==> x.request.priority == DownloadPriority::Low)
    } by {
        vstd::seq_lib::to_multiset_contains(sorted_by_priority(s), x);
        vstd::seq_lib::to_multiset_contains(s, x);
        let i = choose|i: int| 0 <= i < s.len() && s[i] == x;
        assert(s[i] == reprioritized(q, position)[i]);
    }
}

} // verus!
