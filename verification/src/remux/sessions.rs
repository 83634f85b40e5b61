//! The table of remuxing sessions, one per torrent, and the readiness
//! answers derived from a session's state.
use vstd::prelude::*;

use crate::clock::now;
use vstd::string::StringExecFns;
use crate::remux::state::{RemuxError, RemuxState};
use crate::remux::types::{ContainerFormat, RemuxSession, StrategyError, StreamHandle, StreamReadiness};
use crate::time::Duration;
use crate::torrent::InfoHash;

verus! {

/// The readiness that a session's state stands for: waiting for data,
/// processing, ready once completed, and after a failure whether it may be
/// retried.
pub open spec fn state_readiness(state: RemuxState) -> StreamReadiness {
    match state {
        RemuxState::WaitingForHeadAndTail => StreamReadiness::WaitingForData,
        RemuxState::Remuxing { .. } => StreamReadiness::Processing,
        RemuxState::Completed { .. } => StreamReadiness::Ready,
        RemuxState::Failed { can_retry, .. } => if can_retry {
            StreamReadiness::CanRetry
        } else {
            StreamReadiness::Failed
        },
    }
}

/// The readiness that a session's state stands for.
pub fn status_readiness(state: &RemuxState) -> (r: StreamReadiness)
    ensures
        r == state_readiness(*state),
{
    match state {
        RemuxState::WaitingForHeadAndTail => StreamReadiness::WaitingForData,
        RemuxState::Remuxing { .. } => StreamReadiness::Processing,
        RemuxState::Completed { .. } => StreamReadiness::Ready,
        RemuxState::Failed { can_retry, .. } => if *can_retry {
            StreamReadiness::CanRetry
        } else {
            StreamReadiness::Failed
        },
    }
}

/// The name of a state's variant.
pub open spec fn state_label(state: RemuxState) -> Seq<char> {
    match state {
        RemuxState::WaitingForHeadAndTail => "WaitingForHeadAndTail"@,
        RemuxState::Remuxing { .. } => "Remuxing"@,
        RemuxState::Completed { .. } => "Completed"@,
        RemuxState::Failed { .. } => "Failed"@,
    }
}

/// The name of a state's variant, for messages.
pub fn state_name(state: &RemuxState) -> (s: &'static str)
    ensures
        s@ == state_label(*state),
{
    proof {
        reveal_strlit("WaitingForHeadAndTail");
        reveal_strlit("Remuxing");
        reveal_strlit("Completed");
        reveal_strlit("Failed");
    }
    match state {
        RemuxState::WaitingForHeadAndTail => "WaitingForHeadAndTail",
        RemuxState::Remuxing { .. } => "Remuxing",
        RemuxState::Completed { .. } => "Completed",
        RemuxState::Failed { .. } => "Failed",
    }
}

/// The error answered when no session exists for a torrent.
pub open spec fn is_session_not_found(e: StrategyError) -> bool {
    e matches StrategyError::RemuxingFailed { reason } && reason@ == "Session not found"@
}

/// The error answered when no session exists for a torrent.
pub fn session_not_found() -> (e: StrategyError)
    ensures
        is_session_not_found(e),
{
    StrategyError::RemuxingFailed { reason: "Session not found".to_string() }
}

/// Whether `s` is the session of the torrent `h`.
pub open spec fn is_session_of(s: RemuxSession, h: InfoHash) -> bool {
    s.info_hash.0@ == h.0@
}

/// Whether some session of `t` belongs to `h`.
pub open spec fn has_session(t: Seq<RemuxSession>, h: InfoHash) -> bool {
    exists|i: int| 0 <= i < t.len() && is_session_of(#[trigger] t[i], h)
}

/// The position of the session of `h` in `t`, when there is one.
pub open spec fn session_index(t: Seq<RemuxSession>, h: InfoHash) -> int {
    choose|i: int| 0 <= i < t.len() && is_session_of(#[trigger] t[i], h)
}

/// `t` with the session at `i` replaced by `s`.
pub open spec fn replaced(t: Seq<RemuxSession>, i: int, s: RemuxSession) -> Seq<RemuxSession> {
    t.update(i, s)
}

/// Whether `after` is `before` with activity recorded: only the activity
/// time may differ.
pub open spec fn touched(before: RemuxSession, after: RemuxSession) -> bool {
    &&& after.info_hash == before.info_hash
    &&& after.state == before.state
    &&& after.output_path == before.output_path
    &&& after.created_at == before.created_at
    &&& after.session_id == before.session_id
}

/// Whether `after` is `before` moved to `state`, with activity recorded.
pub open spec fn moved_to(before: RemuxSession, after: RemuxSession, state: RemuxState) -> bool {
    &&& after.info_hash == before.info_hash
    &&& after.state == state
    &&& after.output_path == before.output_path
    &&& after.created_at == before.created_at
    &&& after.session_id == before.session_id
}

/// One session per torrent, and every identifier below `next_id` and distinct.
pub open spec fn table_wf(t: Seq<RemuxSession>, next_id: u64) -> bool {
    &&& forall|i: int, j: int| 0 <= i < j < t.len() ==> (#[trigger] t[i]).info_hash.0@ != (#[trigger] t[j]).info_hash.0@
    &&& forall|i: int| 0 <= i < t.len() ==> (#[trigger] t[i]).session_id < next_id
    &&& forall|i: int, j: int| 0 <= i < j < t.len() ==> (#[trigger] t[i]).session_id != (#[trigger] t[j]).session_id
}

/// The sessions of `t` whose flag in `flags` equals `pick`, in order.
pub open spec fn picked(t: Seq<RemuxSession>, flags: Seq<bool>, pick: bool) -> Seq<RemuxSession>
    decreases t.len(),
{
    if t.len() == 0 {
        Seq::empty()
    } else if flags.last() == pick {
        picked(t.drop_last(), flags.drop_last(), pick).push(t.last())
    } else {
        picked(t.drop_last(), flags.drop_last(), pick)
    }
}

proof fn lemma_picked_table_wf(t: Seq<RemuxSession>, flags: Seq<bool>, pick: bool, next_id: u64)
    requires
        table_wf(t, next_id),
        flags.len() == t.len(),
    ensures
        table_wf(picked(t, flags, pick), next_id),
        forall|i: int| 0 <= i < picked(t, flags, pick).len() ==> exists|j: int| 0 <= j < t.len() && t[j] == #[trigger] picked(t, flags, pick)[i],
    decreases t.len(),
{
    if t.len() > 0 {
        let rest = picked(t.drop_last(), flags.drop_last(), pick);
        assert(table_wf(t.drop_last(), next_id)) by {
            let d = t.drop_last();
            assert forall|i: int, j: int| 0 <= i < j < d.len() implies (#[trigger] d[i]).info_hash.0@ != (#[trigger] d[j]).info_hash.0@ by {
                assert(d[i] == t[i] && d[j] == t[j]);
            }
            assert forall|i: int| 0 <= i < d.len() implies (#[trigger] d[i]).session_id < next_id by {
                assert(d[i] == t[i]);
            }
            assert forall|i: int, j: int| 0 <= i < j < d.len() implies (#[trigger] d[i]).session_id != (#[trigger] d[j]).session_id by {
                assert(d[i] == t[i] && d[j] == t[j]);
            }
        }
        lemma_picked_table_wf(t.drop_last(), flags.drop_last(), pick, next_id);
        if flags.last() == pick {
            let p = rest.push(t.last());
            let n = t.len() - 1;
            assert forall|i: int| 0 <= i < p.len() implies exists|j: int| 0 <= j < t.len() && t[j] == #[trigger] p[i] by {
                if i < rest.len() {
                    let j = choose|j: int| 0 <= j < t.drop_last().len() && t.drop_last()[j] == rest[i];
                    assert(t[j] == p[i]);
                } else {
                    assert(t[n] == p[i]);
                }
            }
            assert forall|i: int, j: int| 0 <= i < j < p.len() implies (#[trigger] p[i]).info_hash.0@ != (#[trigger] p[j]).info_hash.0@
                && p[i].session_id != p[j].session_id by {
                if j == rest.len() {
                    let k = choose|k: int| 0 <= k < t.drop_last().len() && t.drop_last()[k] == rest[i];
                    assert(t[k] == p[i]);
                    assert(t[n] == p[j]);
                    assert(k < n);
                } else {
                    assert(p[i] == rest[i] && p[j] == rest[j]);
                }
            }
            assert forall|i: int| 0 <= i < p.len() implies (#[trigger] p[i]).session_id < next_id by {
                if i < rest.len() {
                    assert(p[i] == rest[i]);
                }
            }
        } else {
            assert forall|i: int| 0 <= i < rest.len() implies exists|j: int| 0 <= j < t.len() && t[j] == #[trigger] rest[i] by {
                let j = choose|j: int| 0 <= j < t.drop_last().len() && t.drop_last()[j] == rest[i];
                assert(t[j] == rest[i]);
            }
        }
    }
}

proof fn lemma_picked_lengths(t: Seq<RemuxSession>, flags: Seq<bool>)
    ensures
        picked(t, flags, false).len() + picked(t, flags, true).len() == t.len(),
    decreases t.len(),
{
    if t.len() > 0 {
        lemma_picked_lengths(t.drop_last(), flags.drop_last());
    }
}

/// In a well-formed table, a session of `h` at `i` is the one found for `h`.
pub proof fn lemma_index_of(table: &SessionTable, h: InfoHash, i: int)
    requires
        table.wf(),
        0 <= i < table.spec_sessions().len(),
        is_session_of(table.spec_sessions()[i], h),
    ensures
        has_session(table.spec_sessions(), h),
        session_index(table.spec_sessions(), h) == i,
{
    let t = table.spec_sessions();
    assert(has_session(t, h));
    let k = session_index(t, h);
    if k != i {
        if k < i {
            assert(t[k].info_hash.0@ != t[i].info_hash.0@);
        } else {
            assert(t[i].info_hash.0@ != t[k].info_hash.0@);
        }
    }
}

/// The sessions of torrents, at most one per torrent, with distinct
/// identifiers handed out from a counter.
pub struct SessionTable {
    sessions: Vec<RemuxSession>,
    next_id: u64,
}

impl SessionTable {
    /// The sessions, oldest first.
    pub closed spec fn spec_sessions(&self) -> Seq<RemuxSession> {
        self.sessions@
    }

    /// The identifier the next new session gets.
    pub closed spec fn spec_next_id(&self) -> u64 {
        self.next_id
    }

    /// The table's invariant: one session per torrent, and every
    /// identifier below the counter and distinct.
    pub closed spec fn wf(&self) -> bool {
        table_wf(self.sessions@, self.next_id)
    }

    /// An empty table whose first session gets identifier 1.
    pub fn new() -> (t: SessionTable)
        ensures
            t.wf(),
            t.spec_sessions() == Seq::<RemuxSession>::empty(),
            t.spec_next_id() == 1,
    {
        SessionTable { sessions: Vec::new(), next_id: 1 }
    }

    /// The position of the session of `info_hash`, if any.
    pub fn find(&self, info_hash: &InfoHash) -> (r: Option<usize>)
        requires
            self.wf(),
        ensures
            r is None <==> !has_session(self.spec_sessions(), *info_hash),
            r matches Some(i) ==> i < self.spec_sessions().len() && is_session_of(self.spec_sessions()[i as int], *info_hash)
                && i == session_index(self.spec_sessions(), *info_hash),
    {
        let n = self.sessions.len();
        let mut i: usize = 0;
        while i < n
            invariant
                self.wf(),
                n == self.sessions@.len(),
                i <= n,
                forall|j: int| 0 <= j < i ==> !is_session_of(#[trigger] self.sessions@[j], *info_hash),
            decreases n - i,
        {
            if self.sessions[i].info_hash == *info_hash {
                proof {
                    assert(is_session_of(self.sessions@[i as int], *info_hash));
                    let k = session_index(self.sessions@, *info_hash);
                    assert(is_session_of(self.sessions@[k], *info_hash));
                    if k != i {
                        if k < i {
                            assert(self.sessions@[k].info_hash.0@ != self.sessions@[i as int].info_hash.0@);
                        } else {
                            assert(self.sessions@[i as int].info_hash.0@ != self.sessions@[k].info_hash.0@);
                        }
                    }
                }
                return Some(i);
            }
            i = i + 1;
        }
        None
    }

    /// The session of `info_hash`, if any.
    pub fn get(&self, info_hash: &InfoHash) -> (r: Option<&RemuxSession>)
        requires
            self.wf(),
        ensures
            r is None <==> !has_session(self.spec_sessions(), *info_hash),
            r matches Some(s) ==> *s == self.spec_sessions()[session_index(self.spec_sessions(), *info_hash)],
    {
        match self.find(info_hash) {
            Some(i) => Some(&self.sessions[i]),
            None => None,
        }
    }

    /// The session of `info_hash`, with activity recorded, or a new
    /// waiting session with the next identifier. The handle names the
    /// session; its output is always MP4.
    pub fn get_or_create_session(&mut self, info_hash: InfoHash) -> (h: StreamHandle)
        requires
            old(self).wf(),
            old(self).spec_next_id() < u64::MAX,
        ensures
            final(self).wf(),
            h.info_hash == info_hash,
            h.format == ContainerFormat::Mp4,
            has_session(old(self).spec_sessions(), info_hash) ==> {
                let i = session_index(old(self).spec_sessions(), info_hash);
                &&& h.session_id == old(self).spec_sessions()[i].session_id
                &&& final(self).spec_next_id() == old(self).spec_next_id()
                &&& final(self).spec_sessions().len() == old(self).spec_sessions().len()
                &&& touched(old(self).spec_sessions()[i], final(self).spec_sessions()[i])
                &&& forall|j: int| 0 <= j < old(self).spec_sessions().len() && j != i
                    ==> #[trigger] final(self).spec_sessions()[j] == old(self).spec_sessions()[j]
            },
            !has_session(old(self).spec_sessions(), info_hash) ==> {
                let s = final(self).spec_sessions().last();
                &&& h.session_id == old(self).spec_next_id()
                &&& final(self).spec_next_id() == old(self).spec_next_id() + 1
                &&& final(self).spec_sessions().drop_last() == old(self).spec_sessions()
                &&& final(self).spec_sessions().len() == old(self).spec_sessions().len() + 1
                &&& s.info_hash == info_hash
                &&& s.session_id == old(self).spec_next_id()
                &&& s.state is WaitingForHeadAndTail
                &&& s.output_path is None
            },
    {
        match self.find(&info_hash) {
            Some(i) => {
                let ghost before = self.sessions@;
                let id = self.sessions[i].session_id;
                let mut s = self.sessions.remove(i);
                s.touch();
                self.sessions.insert(i, s);
                proof {
                    assert forall|j: int| 0 <= j < before.len() && j != i implies #[trigger] self.sessions@[j] == before[j] by {
                        if j < i {
                        } else {
                        }
                    }
                    assert forall|a: int, b: int| 0 <= a < b < self.sessions@.len() implies (#[trigger] self.sessions@[a]).info_hash.0@ != (#[trigger] self.sessions@[b]).info_hash.0@ by {
                        assert(self.sessions@[a].info_hash == before[a].info_hash);
                        assert(self.sessions@[b].info_hash == before[b].info_hash);
                    }
                    assert forall|a: int| 0 <= a < self.sessions@.len() implies (#[trigger] self.sessions@[a]).session_id < self.next_id by {
                        assert(self.sessions@[a].session_id == before[a].session_id);
                    }
                    assert forall|a: int, b: int| 0 <= a < b < self.sessions@.len() implies (#[trigger] self.sessions@[a]).session_id != (#[trigger] self.sessions@[b]).session_id by {
                        assert(self.sessions@[a].session_id == before[a].session_id);
                        assert(self.sessions@[b].session_id == before[b].session_id);
                    }
                }
                StreamHandle { info_hash, session_id: id, format: ContainerFormat::Mp4 }
            },
            None => {
                let id = self.next_id;
                self.next_id = self.next_id + 1;
                let ghost before = self.sessions@;
                self.sessions.push(RemuxSession::new(info_hash, id));
                proof {
                    assert(self.sessions@.drop_last() =~= before);
                    assert forall|a: int, b: int| 0 <= a < b < self.sessions@.len() implies (#[trigger] self.sessions@[a]).info_hash.0@ != (#[trigger] self.sessions@[b]).info_hash.0@ by {
                        if b == before.len() {
                            assert(!is_session_of(before[a], info_hash));
                        }
                    }
                }
                StreamHandle { info_hash, session_id: id, format: ContainerFormat::Mp4 }
            },
        }
    }

    /// Puts `s` back at `i`, where a session of the same torrent and
    /// identifier was taken out.
    fn put_back(&mut self, i: usize, s: RemuxSession, Ghost(before): Ghost<Seq<RemuxSession>>)
        requires
            i < before.len(),
            table_wf(before, old(self).next_id),
            old(self).sessions@ == before.remove(i as int),
            s.info_hash == before[i as int].info_hash,
            s.session_id == before[i as int].session_id,
        ensures
            final(self).wf(),
            final(self).spec_sessions() == before.update(i as int, s),
            final(self).spec_next_id() == old(self).spec_next_id(),
    {
        self.sessions.insert(i, s);
        proof {
            assert(self.sessions@ =~= before.update(i as int, s));
            assert forall|a: int, b: int| 0 <= a < b < self.sessions@.len() implies (#[trigger] self.sessions@[a]).info_hash.0@ != (#[trigger] self.sessions@[b]).info_hash.0@ by {
                assert(self.sessions@[a].info_hash == before[a].info_hash);
                assert(self.sessions@[b].info_hash == before[b].info_hash);
            }
            assert forall|a: int| 0 <= a < self.sessions@.len() implies (#[trigger] self.sessions@[a]).session_id < self.next_id by {
                assert(self.sessions@[a].session_id == before[a].session_id);
            }
            assert forall|a: int, b: int| 0 <= a < b < self.sessions@.len() implies (#[trigger] self.sessions@[a]).session_id != (#[trigger] self.sessions@[b]).session_id by {
                assert(self.sessions@[a].session_id == before[a].session_id);
                assert(self.sessions@[b].session_id == before[b].session_id);
            }
        }
    }

    /// Moves the session of `info_hash` into remuxing, writing to
    /// `output_path`. Fails when there is no session, or when its state
    /// allows no start (only waiting and retryable failures do).
    pub fn begin_remuxing(&mut self, info_hash: &InfoHash, output_path: String) -> (r: Result<(), StrategyError>)
        requires
            old(self).wf(),
        ensures
            final(self).wf(),
            final(self).spec_next_id() == old(self).spec_next_id(),
            !has_session(old(self).spec_sessions(), *info_hash) ==> {
                &&& r is Err && is_session_not_found(r->Err_0)
                &&& final(self).spec_sessions() == old(self).spec_sessions()
            },
            has_session(old(self).spec_sessions(), *info_hash) ==> {
                let i = session_index(old(self).spec_sessions(), *info_hash);
                let s = old(self).spec_sessions()[i];
                let t = final(self).spec_sessions()[i];
                if s.state.allows_start() {
                    &&& r is Ok
                    &&& final(self).spec_sessions().len() == old(self).spec_sessions().len()
                    &&& final(self).spec_sessions() == old(self).spec_sessions().update(i, t)
                    &&& t.info_hash == s.info_hash
                    &&& t.session_id == s.session_id
                    &&& t.created_at == s.created_at
                    &&& t.state is Remuxing
                    &&& t.output_path == Some(output_path)
                } else {
                    &&& r matches Err(StrategyError::RemuxingFailed { reason })
                        && reason@ == "Cannot start remuxing in state: "@ + state_label(s.state)
                    &&& final(self).spec_sessions() == old(self).spec_sessions()
                }
            },
    {
        match self.find(info_hash) {
            None => Err(session_not_found()),
            Some(i) => {
                if !self.sessions[i].state.can_start_remuxing() {
                    let mut reason = "Cannot start remuxing in state: ".to_string();
                    reason.append(state_name(&self.sessions[i].state));
                    return Err(StrategyError::RemuxingFailed { reason });
                }
                let ghost before = self.sessions@;
                let mut s = self.sessions.remove(i);
                s.state = RemuxState::Remuxing { started_at: now() };
                s.output_path = Some(output_path);
                s.touch();
                self.put_back(i, s, Ghost(before));
                Ok(())
            },
        }
    }

    /// Moves the session of `info_hash`, if any, to `state`, recording
    /// activity; its output path stays.
    fn move_to(&mut self, info_hash: &InfoHash, state: RemuxState)
        requires
            old(self).wf(),
        ensures
            final(self).wf(),
            final(self).spec_next_id() == old(self).spec_next_id(),
            !has_session(old(self).spec_sessions(), *info_hash) ==> final(self).spec_sessions() == old(self).spec_sessions(),
            has_session(old(self).spec_sessions(), *info_hash) ==> {
                let i = session_index(old(self).spec_sessions(), *info_hash);
                &&& final(self).spec_sessions() == old(self).spec_sessions().update(i, final(self).spec_sessions()[i])
                &&& moved_to(old(self).spec_sessions()[i], final(self).spec_sessions()[i], state)
            },
    {
        match self.find(info_hash) {
            None => {},
            Some(i) => {
                let ghost before = self.sessions@;
                let mut s = self.sessions.remove(i);
                s.state = state;
                s.touch();
                self.put_back(i, s, Ghost(before));
            },
        }
    }

    /// Marks the session of `info_hash`, if any, completed with its output
    /// at `output_path`.
    pub fn mark_completed(&mut self, info_hash: &InfoHash, output_path: String)
        requires
            old(self).wf(),
        ensures
            final(self).wf(),
            final(self).spec_next_id() == old(self).spec_next_id(),
            !has_session(old(self).spec_sessions(), *info_hash) ==> final(self).spec_sessions() == old(self).spec_sessions(),
            has_session(old(self).spec_sessions(), *info_hash) ==> {
                let i = session_index(old(self).spec_sessions(), *info_hash);
                &&& final(self).spec_sessions() == old(self).spec_sessions().update(i, final(self).spec_sessions()[i])
                &&& moved_to(old(self).spec_sessions()[i], final(self).spec_sessions()[i], RemuxState::Completed { output_path })
            },
    {
        self.move_to(info_hash, RemuxState::Completed { output_path });
    }

    /// Marks the session of `info_hash`, if any, failed with `error`; it
    /// may be retried when the error is retryable.
    pub fn mark_failed(&mut self, info_hash: &InfoHash, error: RemuxError)
        requires
            old(self).wf(),
        ensures
            final(self).wf(),
            final(self).spec_next_id() == old(self).spec_next_id(),
            !has_session(old(self).spec_sessions(), *info_hash) ==> final(self).spec_sessions() == old(self).spec_sessions(),
            has_session(old(self).spec_sessions(), *info_hash) ==> {
                let i = session_index(old(self).spec_sessions(), *info_hash);
                let can_retry = error is InsufficientData || error is Timeout || error is IoError || error is SessionLimitExceeded;
                &&& final(self).spec_sessions() == old(self).spec_sessions().update(i, final(self).spec_sessions()[i])
                &&& moved_to(old(self).spec_sessions()[i], final(self).spec_sessions()[i], RemuxState::Failed { error, can_retry })
            },
    {
        let can_retry = error.is_retryable();
        self.move_to(info_hash, RemuxState::Failed { error, can_retry });
    }

    /// Removes the sessions idle for longer than `cleanup_after` by the
    /// clock, and returns them. Which ones those are depends on the time of
    /// the call: the kept and the removed sessions are the table's sessions
    /// split in order, by some choice of which to remove.
    pub fn remove_stale(&mut self, cleanup_after: Duration) -> (removed: Vec<RemuxSession>)
        requires
            old(self).wf(),
            cleanup_after.wf(),
        ensures
            final(self).wf(),
            final(self).spec_next_id() == old(self).spec_next_id(),
            exists|flags: Seq<bool>| #![trigger picked(old(self).spec_sessions(), flags, false)]
                flags.len() == old(self).spec_sessions().len()
                && final(self).spec_sessions() == picked(old(self).spec_sessions(), flags, false)
                && removed@ == picked(old(self).spec_sessions(), flags, true),
            final(self).spec_sessions().len() + removed@.len() == old(self).spec_sessions().len(),
    {
        let ghost orig = self.sessions@;
        let ghost mut flags: Seq<bool> = Seq::empty();
        let mut kept: Vec<RemuxSession> = Vec::new();
        let mut removed: Vec<RemuxSession> = Vec::new();
        let n = self.sessions.len();
        let mut k: usize = 0;
        while k < n
            invariant
                n == orig.len(),
                k <= n,
                self.sessions@ == orig.skip(k as int),
                self.next_id == old(self).next_id,
                flags.len() == k,
                kept@ == picked(orig.take(k as int), flags, false),
                removed@ == picked(orig.take(k as int), flags, true),
                cleanup_after.wf(),
            decreases n - k,
        {
            let s = self.sessions.remove(0);
            let ghost sg = s;
            proof {
                assert(s == orig[k as int]);
                assert(self.sessions@ =~= orig.skip(k + 1));
            }
            let stale = s.is_stale(cleanup_after);
            let ghost flags_old = flags;
            proof {
                flags = flags.push(stale);
                assert(flags.drop_last() =~= flags_old);
            }
            if stale {
                removed.push(s);
            } else {
                kept.push(s);
            }
            proof {
                let t = orig.take(k + 1);
                assert(t.drop_last() =~= orig.take(k as int));
                assert(t.last() == sg);
                assert(flags.last() == stale);
                assert(kept@ == picked(t, flags, false));
                assert(removed@ == picked(t, flags, true));
            }
            k = k + 1;
        }
        proof {
            assert(orig.take(n as int) =~= orig);
            lemma_picked_table_wf(orig, flags, false, self.next_id);
        }
        self.sessions = kept;
        proof {
            assert(self.sessions@ == picked(old(self).spec_sessions(), flags, false));
            assert(removed@ == picked(old(self).spec_sessions(), flags, true));
            lemma_picked_lengths(orig, flags);
        }
        removed
    }

    /// The identifier the next new session gets.
    pub fn next_id(&self) -> (n: u64)
        ensures
            n == self.spec_next_id(),
    {
        self.next_id
    }

    /// The number of sessions.
    pub fn len(&self) -> (n: usize)
        ensures
            n == self.spec_sessions().len(),
    {
        self.sessions.len()
    }
}

} // verus!
