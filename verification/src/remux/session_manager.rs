//! Decisions of the file-based remux session manager: one session per
//! torrent, how much of the file must be there before FFmpeg runs, the
//! FFmpeg command line, and the answers to readiness and status queries.
use vstd::prelude::*;
use vstd::string::StringExecFns;

use crate::remux::remuxer::{output_file, output_path_for, ReadinessCheck};
use crate::remux::sessions::{
    has_session, is_session_not_found, lemma_index_of, picked, touched, session_index, session_not_found, state_label, state_name,
    state_readiness, status_readiness, SessionTable,
};
use crate::remux::state::{RemuxError, RemuxState};
use crate::remux::types::{ContainerFormat, RemuxConfig, RemuxSession, StrategyError, StreamHandle, StreamReadiness};
use crate::text::push_text;
use crate::torrent::InfoHash;

verus! {

/// Files below this size must be complete before FFmpeg runs.
pub const FULL_FILE_LIMIT: u64 = 10 * 1024 * 1024;

/// Bytes from the start of the file that must be there: the configured
/// head size, never more than the file.
pub fn session_head_size(min_head_size: u64, file_size: u64) -> (n: u64)
    ensures
        n == if min_head_size < file_size {
            min_head_size
        } else {
            file_size
        },
{
    if min_head_size < file_size {
        min_head_size
    } else {
        file_size
    }
}

/// Where the tail that must be there starts: the configured tail size
/// before the end, or the start of a shorter file.
pub fn session_tail_start(min_tail_size: u64, file_size: u64) -> (n: u64)
    ensures
        n == if file_size >= min_tail_size {
            file_size - min_tail_size
        } else {
            0
        },
{
    file_size.saturating_sub(min_tail_size)
}

/// Whether enough of the file is there to start FFmpeg: a small file must
/// be complete; a larger one needs its head, or else head and tail.
pub fn session_data_ready(file_size: u64, head_available: bool, full_available: bool, tail_available: bool) -> (b: bool)
    ensures
        b == if file_size < FULL_FILE_LIMIT {
            full_available
        } else {
            head_available || (head_available && tail_available)
        },
{
    if file_size < FULL_FILE_LIMIT {
        return full_available;
    }
    if head_available {
        return true;
    }
    head_available && tail_available
}

/// The FFmpeg arguments of a session: MP4 from standard input with the
/// video copied, audio converted to AAC and the index at the front.
pub open spec fn session_args(output_path: Seq<char>) -> Seq<Seq<char>> {
    seq!["-i"@, "pipe:0"@, "-c:v"@, "copy"@, "-c:a"@, "aac"@, "-movflags"@, "+faststart"@, "-f"@, "mp4"@, output_path]
}

/// The FFmpeg arguments of a session writing to `output_path`.
pub fn session_ffmpeg_args(output_path: &str) -> (args: Vec<String>)
    ensures
        args@.map_values(|s: String| s@) == session_args(output_path@),
{
    let mut args: Vec<String> = Vec::new();
    push_text(&mut args, "-i");
    push_text(&mut args, "pipe:0");
    push_text(&mut args, "-c:v");
    push_text(&mut args, "copy");
    push_text(&mut args, "-c:a");
    push_text(&mut args, "aac");
    push_text(&mut args, "-movflags");
    push_text(&mut args, "+faststart");
    push_text(&mut args, "-f");
    push_text(&mut args, "mp4");
    push_text(&mut args, output_path);
    proof {
        assert(args@.map_values(|s: String| s@) =~= session_args(output_path@));
    }
    args
}

/// What a readiness check of a session in `state` must do: waiting
/// sessions check their data, the others answer from their state.
pub open spec fn session_check(state: RemuxState) -> ReadinessCheck {
    match state {
        RemuxState::WaitingForHeadAndTail => ReadinessCheck::CheckData,
        _ => ReadinessCheck::Answer(state_readiness(state)),
    }
}

/// A readiness check that answers from a session's state answers what the
/// session's status shows; only a waiting session must check its data.
pub proof fn law_session_check_agrees_with_status(state: RemuxState)
    ensures
        session_check(state) matches ReadinessCheck::Answer(r) ==> r == state_readiness(state),
        session_check(state) is CheckData <==> state_readiness(state) == StreamReadiness::WaitingForData,
        !(session_check(state) is CheckChunkServer),
{
}

/// The sessions of the file-based remuxer, one per torrent, with its limits.
pub struct RemuxSessionManager {
    sessions: SessionTable,
    config: RemuxConfig,
}

impl RemuxSessionManager {
    /// The session table.
    pub closed spec fn spec_table(&self) -> SessionTable {
        self.sessions
    }

    /// The sessions, oldest first.
    pub open spec fn spec_sessions(&self) -> Seq<RemuxSession> {
        self.spec_table().spec_sessions()
    }

    /// The configuration.
    pub closed spec fn spec_config(&self) -> RemuxConfig {
        self.config
    }

    /// The manager's invariant: its table is well formed.
    pub open spec fn wf(&self) -> bool {
        self.spec_table().wf()
    }

    /// A manager without sessions.
    pub fn new(config: RemuxConfig) -> (m: RemuxSessionManager)
        ensures
            m.wf(),
            m.spec_sessions() == Seq::<RemuxSession>::empty(),
            m.spec_table().spec_next_id() == 1,
            m.spec_config() == config,
    {
        RemuxSessionManager { sessions: SessionTable::new(), config }
    }

    /// The configuration.
    pub fn config(&self) -> (c: &RemuxConfig)
        ensures
            *c == self.spec_config(),
    {
        &self.config
    }

    /// The session table.
    pub fn sessions(&self) -> (t: &SessionTable)
        ensures
            *t == self.spec_table(),
    {
        &self.sessions
    }

    /// The handle of the torrent's session, created waiting if there is none.
    pub fn get_or_create_session(&mut self, info_hash: InfoHash) -> (h: StreamHandle)
        requires
            old(self).wf(),
            old(self).spec_table().spec_next_id() < u64::MAX,
        ensures
            final(self).wf(),
            final(self).spec_config() == old(self).spec_config(),
            h.info_hash == info_hash,
            has_session(final(self).spec_sessions(), info_hash),
            h.session_id == final(self).spec_sessions()[session_index(final(self).spec_sessions(), info_hash)].session_id,
            has_session(old(self).spec_sessions(), info_hash) ==> h.session_id
                == old(self).spec_sessions()[session_index(old(self).spec_sessions(), info_hash)].session_id,
            !has_session(old(self).spec_sessions(), info_hash) ==> h.session_id == old(self).spec_table().spec_next_id(),
            h.format == ContainerFormat::Mp4,
            has_session(old(self).spec_sessions(), info_hash) ==> {
                &&& final(self).spec_table().spec_next_id() == old(self).spec_table().spec_next_id()
                &&& final(self).spec_sessions().len() == old(self).spec_sessions().len()
                &&& touched(
                    old(self).spec_sessions()[session_index(old(self).spec_sessions(), info_hash)],
                    final(self).spec_sessions()[session_index(old(self).spec_sessions(), info_hash)],
                )
                &&& forall|j: int| 0 <= j < old(self).spec_sessions().len()
                    && j != session_index(old(self).spec_sessions(), info_hash)
                    ==> #[trigger] final(self).spec_sessions()[j] == old(self).spec_sessions()[j]
            },
            !has_session(old(self).spec_sessions(), info_hash) ==> {
                let s = final(self).spec_sessions().last();
                &&& final(self).spec_table().spec_next_id() == old(self).spec_table().spec_next_id() + 1
                &&& final(self).spec_sessions().drop_last() == old(self).spec_sessions()
                &&& s.info_hash == info_hash
                &&& s.session_id == old(self).spec_table().spec_next_id()
                &&& s.state is WaitingForHeadAndTail
                &&& s.output_path is None
            },
    {
        let h = self.sessions.get_or_create_session(info_hash);
        proof {
            let t = self.sessions.spec_sessions();
            let o = old(self).sessions.spec_sessions();
            if has_session(o, info_hash) {
                let i = session_index(o, info_hash);
                assert(t[i].info_hash == o[i].info_hash);
                lemma_index_of(&self.sessions, info_hash, i);
            } else {
                let i = t.len() - 1;
                assert(t[i] == t.last());
                lemma_index_of(&self.sessions, info_hash, i);
            }
        }
        h
    }

    /// What a readiness check of the torrent's session must do next; an
    /// error when the torrent has no session.
    pub fn readiness_check(&self, info_hash: &InfoHash) -> (r: Result<ReadinessCheck, StrategyError>)
        requires
            self.wf(),
        ensures
            !has_session(self.spec_sessions(), *info_hash) ==> r is Err && is_session_not_found(r->Err_0),
            has_session(self.spec_sessions(), *info_hash) ==> r == Ok::<ReadinessCheck, StrategyError>(
                session_check(self.spec_sessions()[session_index(self.spec_sessions(), *info_hash)].state),
            ),
    {
        match self.sessions.get(info_hash) {
            None => Err(session_not_found()),
            Some(s) => match &s.state {
                RemuxState::WaitingForHeadAndTail => Ok(ReadinessCheck::CheckData),
                _ => Ok(ReadinessCheck::Answer(status_readiness(&s.state))),
            },
        }
    }

    /// The readiness shown in the status of the torrent's session; an
    /// error when the torrent has no session.
    pub fn get_status(&self, info_hash: &InfoHash) -> (r: Result<StreamReadiness, StrategyError>)
        requires
            self.wf(),
        ensures
            !has_session(self.spec_sessions(), *info_hash) ==> r is Err && is_session_not_found(r->Err_0),
            has_session(self.spec_sessions(), *info_hash) ==> r == Ok::<StreamReadiness, StrategyError>(
                state_readiness(self.spec_sessions()[session_index(self.spec_sessions(), *info_hash)].state),
            ),
    {
        match self.sessions.get(info_hash) {
            None => Err(session_not_found()),
            Some(s) => Ok(status_readiness(&s.state)),
        }
    }

    /// The output file of the torrent's session once remuxing completed.
    pub fn get_output_path(&self, info_hash: &InfoHash) -> (r: Result<String, StrategyError>)
        requires
            self.wf(),
        ensures
            !has_session(self.spec_sessions(), *info_hash) ==> r is Err && is_session_not_found(r->Err_0),
            has_session(self.spec_sessions(), *info_hash) ==> {
                let s = self.spec_sessions()[session_index(self.spec_sessions(), *info_hash)];
                match s.state {
                    RemuxState::Completed { output_path } => r is Ok && r->Ok_0@ == output_path@,
                    _ => r matches Err(StrategyError::StreamingNotReady { reason }) && reason@ == "Remuxing not completed"@,
                }
            },
    {
        match self.sessions.get(info_hash) {
            None => Err(session_not_found()),
            Some(s) => match &s.state {
                RemuxState::Completed { output_path } => Ok(output_path.clone()),
                _ => Err(StrategyError::StreamingNotReady { reason: "Remuxing not completed".to_string() }),
            },
        }
    }

    /// Checks that the torrent's session may start remuxing and returns
    /// the file FFmpeg must write: `<hex info hash>.mp4` in the cache
    /// directory. Fails without a session or when its state allows no start.
    pub fn plan_remuxing(&self, info_hash: &InfoHash) -> (r: Result<String, StrategyError>)
        requires
            self.wf(),
        ensures
            !has_session(self.spec_sessions(), *info_hash) ==> r is Err && is_session_not_found(r->Err_0),
            has_session(self.spec_sessions(), *info_hash) ==> {
                let s = self.spec_sessions()[session_index(self.spec_sessions(), *info_hash)];
                &&& r is Ok <==> s.state.allows_start()
                &&& r is Ok ==> r->Ok_0@ == output_file(self.spec_config().cache_dir@, *info_hash)
                &&& r is Err ==> (r matches Err(StrategyError::RemuxingFailed { reason })
                    && reason@ == "Cannot start remuxing in state: "@ + state_label(s.state))
            },
    {
        match self.sessions.get(info_hash) {
            None => Err(session_not_found()),
            Some(s) => {
                if !s.state.can_start_remuxing() {
                    let mut reason = "Cannot start remuxing in state: ".to_string();
                    reason.append(state_name(&s.state));
                    return Err(StrategyError::RemuxingFailed { reason });
                }
                Ok(output_path_for(self.config.cache_dir.as_str(), info_hash))
            },
        }
    }

    /// Records that FFmpeg was started for the torrent's session, writing
    /// to `output_path`.
    pub fn commit_remuxing(&mut self, info_hash: &InfoHash, output_path: String) -> (r: Result<(), StrategyError>)
        requires
            old(self).wf(),
        ensures
            final(self).wf(),
            final(self).spec_config() == old(self).spec_config(),
            final(self).spec_table().spec_next_id() == old(self).spec_table().spec_next_id(),
            !has_session(old(self).spec_sessions(), *info_hash) ==> {
                &&& r is Err && is_session_not_found(r->Err_0)
                &&& final(self).spec_sessions() == old(self).spec_sessions()
            },
            has_session(old(self).spec_sessions(), *info_hash) ==> {
                let i = session_index(old(self).spec_sessions(), *info_hash);
                let s = old(self).spec_sessions()[i];
                let t = final(self).spec_sessions()[i];
                if s.state.allows_start() {
                    &&& r is Ok
                    &&& final(self).spec_sessions() == old(self).spec_sessions().update(i, t)
                    &&& t.info_hash == s.info_hash
                    &&& t.session_id == s.session_id
                    &&& t.created_at == s.created_at
                    &&& t.state is Remuxing
                    &&& t.output_path == Some(output_path)
                } else {
                    &&& r matches Err(StrategyError::RemuxingFailed { reason })
                        && reason@ == "Cannot start remuxing in state: "@ + state_label(s.state)
                    &&& final(self).spec_sessions() == old(self).spec_sessions()
                }
            },
    {
        self.sessions.begin_remuxing(info_hash, output_path)
    }

    /// Marks the torrent's session, if any, completed with its output at
    /// `output_path`.
    pub fn mark_completed(&mut self, info_hash: &InfoHash, output_path: String)
        requires
            old(self).wf(),
        ensures
            final(self).wf(),
            final(self).spec_config() == old(self).spec_config(),
            !has_session(old(self).spec_sessions(), *info_hash) ==> final(self).spec_sessions() == old(self).spec_sessions(),
            has_session(old(self).spec_sessions(), *info_hash) ==> {
                let i = session_index(old(self).spec_sessions(), *info_hash);
                &&& final(self).spec_sessions() == old(self).spec_sessions().update(i, final(self).spec_sessions()[i])
                &&& final(self).spec_sessions()[i].state == RemuxState::Completed { output_path }
                &&& final(self).spec_sessions()[i].session_id == old(self).spec_sessions()[i].session_id
            },
    {
        self.sessions.mark_completed(info_hash, output_path);
    }

    /// Marks the torrent's session, if any, failed with `error`.
    pub fn mark_failed(&mut self, info_hash: &InfoHash, error: RemuxError)
        requires
            old(self).wf(),
        ensures
            final(self).wf(),
            final(self).spec_config() == old(self).spec_config(),
            !has_session(old(self).spec_sessions(), *info_hash) ==> final(self).spec_sessions() == old(self).spec_sessions(),
            has_session(old(self).spec_sessions(), *info_hash) ==> {
                let i = session_index(old(self).spec_sessions(), *info_hash);
                let can_retry = error is InsufficientData || error is Timeout || error is IoError || error is SessionLimitExceeded;
                &&& final(self).spec_sessions() == old(self).spec_sessions().update(i, final(self).spec_sessions()[i])
                &&& final(self).spec_sessions()[i].state == RemuxState::Failed { error, can_retry }
                &&& final(self).spec_sessions()[i].session_id == old(self).spec_sessions()[i].session_id
            },
    {
        self.sessions.mark_failed(info_hash, error);
    }

    /// Removes the sessions idle for longer than the cleanup delay and
    /// returns them, so that their output files can be deleted. Which ones
    /// those are depends on the clock at the call: the kept and the removed
    /// sessions are the table's sessions split in order, each kept or
    /// removed whole.
    pub fn cleanup_stale_sessions(&mut self) -> (removed: Vec<RemuxSession>)
        requires
            old(self).wf(),
            old(self).spec_config().cleanup_after.wf(),
        ensures
            final(self).wf(),
            final(self).spec_config() == old(self).spec_config(),
            final(self).spec_table().spec_next_id() == old(self).spec_table().spec_next_id(),
            exists|flags: Seq<bool>| #![trigger picked(old(self).spec_sessions(), flags, false)]
                flags.len() == old(self).spec_sessions().len()
                && final(self).spec_sessions() == picked(old(self).spec_sessions(), flags, false)
                && removed@ == picked(old(self).spec_sessions(), flags, true),
            final(self).spec_sessions().len() + removed@.len() == old(self).spec_sessions().len(),
    {
        let timeout = self.config.cleanup_after;
        let ghost before = self.sessions.spec_sessions();
        let removed = self.sessions.remove_stale(timeout);
        proof {
            let flags = choose|flags: Seq<bool>| #![trigger picked(before, flags, false)]
                flags.len() == before.len()
                && self.sessions.spec_sessions() == picked(before, flags, false)
                && removed@ == picked(before, flags, true);
            assert(picked(old(self).spec_sessions(), flags, false) == self.spec_sessions());
        }
        removed
    }
}

} // verus!
