//! Decisions of the real-time remuxer's session manager: which session a
//! torrent has, what a readiness check must find out next, how much of the
//! file must be there before remuxing starts, and where the output goes.
use vstd::prelude::*;
use vstd::string::StringExecFns;

use crate::media_info::bytes_at;
use crate::remux::sessions::{
    has_session, is_session_not_found, lemma_index_of, picked, state_label, touched, session_index, session_not_found, state_readiness,
    status_readiness, SessionTable,
};
use crate::remux::state::{RemuxError, RemuxState};
use crate::remux::types::{ContainerFormat, RemuxConfig, RemuxSession, StrategyError, StreamHandle, StreamReadiness};
use crate::realtime_remuxer::RemuxConfig as RealtimeRemuxConfig;
use crate::torrent::{hex_text, InfoHash};

verus! {

/// What a readiness check must find out before it can answer.
#[derive(Debug, Clone, Copy, PartialEq, Eq, Structural)]
pub enum ReadinessCheck {
    /// The answer is known.
    Answer(StreamReadiness),
    /// The session waits for data: whether enough of the file is there
    /// decides between starting to remux and waiting on.
    CheckData,
    /// The session remuxes: whether its chunk server can serve playback
    /// decides between ready and processing.
    CheckChunkServer,
}

/// `name` within the directory `dir`, as a path join gives it: `name`
/// alone for an empty directory, no second separator after a trailing one.
pub open spec fn joined(dir: Seq<char>, name: Seq<char>) -> Seq<char> {
    if dir.len() == 0 {
        name
    } else if dir.last() == '/' {
        dir + name
    } else {
        dir + "/"@ + name
    }
}

/// The remuxed file of a torrent: `<hex info hash>.mp4` in `dir`.
pub open spec fn output_file(dir: Seq<char>, info_hash: InfoHash) -> Seq<char> {
    joined(dir, hex_text(info_hash.0@) + ".mp4"@)
}

/// The remuxed file of a torrent: `<hex info hash>.mp4` in the cache directory.
pub fn output_path_for(cache_dir: &str, info_hash: &InfoHash) -> (p: String)
    ensures
        p@ == output_file(cache_dir@, *info_hash),
{
    proof {
        reveal_strlit("/");
        reveal_strlit(".mp4");
    }
    let mut name = info_hash.to_hex();
    name.append(".mp4");
    let n = cache_dir.unicode_len();
    if n == 0 {
        return name;
    }
    let mut p = cache_dir.to_string();
    if cache_dir.get_char(n - 1) != '/' {
        p.append("/");
    }
    p.append(name.as_str());
    p
}

/// Bytes from the start of the file that must be there before real-time
/// remuxing starts: 1 MiB of an AVI file for its metadata, 512 KiB of
/// other files, never more than the file.
pub open spec fn realtime_head(is_avi: bool, file_size: u64) -> u64 {
    let want: u64 = if is_avi {
        1048576u64
    } else {
        524288u64
    };
    if want < file_size {
        want
    } else {
        file_size
    }
}

/// Bytes from the start of the file that must be there before real-time
/// remuxing starts.
pub fn realtime_head_size(is_avi: bool, file_size: u64) -> (n: u64)
    ensures
        n == realtime_head(is_avi, file_size),
{
    let want: u64 = if is_avi {
        1024 * 1024
    } else {
        512 * 1024
    };
    if want < file_size {
        want
    } else {
        file_size
    }
}

/// Files below this size need most of their bytes before remuxing starts.
pub const SMALL_FILE_LIMIT: u64 = 5 * 1024 * 1024;

/// The prefix of a small file that must be there: three quarters of the
/// file, and at least the head.
pub fn realtime_small_file_target(file_size: u64, head: u64) -> (n: u64)
    ensures
        n == if (file_size * 3) / 4 > head {
            ((file_size * 3) / 4) as u64
        } else {
            head
        },
{
    let quarter_three: u64 = ((file_size as u128) * 3 / 4) as u64;
    if quarter_three > head {
        quarter_three
    } else {
        head
    }
}

/// Whether enough of the file is there to start real-time remuxing: for a
/// small file, its target prefix; otherwise the head.
pub fn realtime_data_ready(file_size: u64, head_available: bool, small_prefix_available: bool) -> (b: bool)
    ensures
        b == if file_size < SMALL_FILE_LIMIT {
            small_prefix_available
        } else {
            head_available
        },
{
    if file_size < SMALL_FILE_LIMIT {
        small_prefix_available
    } else {
        head_available
    }
}

/// Whether the first bytes of a file are an AVI header: `RIFF` at 0 and
/// `AVI ` at 8.
pub open spec fn avi_header(data: Seq<u8>) -> bool {
    &&& data.len() >= 12
    &&& data.subrange(0, 4) == seq![0x52u8, 0x49u8, 0x46u8, 0x46u8]
    &&& data.subrange(8, 12) == seq![0x41u8, 0x56u8, 0x49u8, 0x20u8]
}

/// Whether the first bytes of a file are an AVI header.
pub fn is_avi_header(data: &[u8]) -> (b: bool)
    ensures
        b == avi_header(data@),
{
    if data.len() < 12 {
        return false;
    }
    let riff = bytes_at(data, 0, 0x52, 0x49, 0x46, 0x46);
    let avi = bytes_at(data, 8, 0x41, 0x56, 0x49, 0x20);
    proof {
        assert(riff == (data@.subrange(0, 4) == seq![0x52u8, 0x49u8, 0x46u8, 0x46u8])) by {
            if riff {
                assert(data@.subrange(0, 4) =~= seq![0x52u8, 0x49u8, 0x46u8, 0x46u8]);
            }
        }
        assert(avi == (data@.subrange(8, 12) == seq![0x41u8, 0x56u8, 0x49u8, 0x20u8])) by {
            if avi {
                assert(data@.subrange(8, 12) =~= seq![0x41u8, 0x56u8, 0x49u8, 0x20u8]);
            }
        }
    }
    riff && avi
}

/// What a readiness check of a session in `state` must do: waiting
/// sessions check their data, remuxing ones their chunk server, the others
/// answer from their state.
pub open spec fn realtime_check(state: RemuxState) -> ReadinessCheck {
    match state {
        RemuxState::WaitingForHeadAndTail => ReadinessCheck::CheckData,
        RemuxState::Remuxing { .. } => ReadinessCheck::CheckChunkServer,
        _ => ReadinessCheck::Answer(state_readiness(state)),
    }
}

/// The real-time remux settings of a session: those for AVI input when the
/// file is an AVI file, the defaults otherwise, always with fragmented MP4.
pub fn session_realtime_config(is_avi: bool) -> (c: RealtimeRemuxConfig)
    ensures
        c.use_fragmented_mp4,
        is_avi ==> c.input_format@ == "avi"@ && c.analyze_duration == 100_000_000 && c.probe_size == 100_000_000,
        !is_avi ==> c.input_format@ == "auto"@ && c.analyze_duration == 10_000_000 && c.probe_size == 20_971_520,
        c.chunk_size == 256 * 1024,
        c.buffer_capacity == 128,
        c.extra_args@.len() == 0,
{
    let mut c = if is_avi {
        RealtimeRemuxConfig::for_avi()
    } else {
        RealtimeRemuxConfig::default()
    };
    c.use_fragmented_mp4 = true;
    c
}

/// Bytes of input read and handed to the remuxer at a time.
pub const FEED_CHUNK_SIZE: u64 = 256 * 1024;

/// The input bytes `start..end` the pipeline reads next at `offset` of a
/// file of `file_size` bytes: a chunk, or the rest of the file; `None` once
/// the whole file was fed.
pub fn feed_range(offset: u64, file_size: u64) -> (r: Option<(u64, u64)>)
    ensures
        offset >= file_size ==> r is None,
        offset < file_size ==> r == Some((offset, if file_size - offset >= FEED_CHUNK_SIZE {
            (offset + FEED_CHUNK_SIZE) as u64
        } else {
            file_size
        })),
{
    if offset >= file_size {
        return None;
    }
    let end = if file_size - offset >= FEED_CHUNK_SIZE { offset + FEED_CHUNK_SIZE } else { file_size };
    Some((offset, end))
}

/// The offset after a read of `offset..end` returned `data_len` bytes: an
/// empty read waits at the same offset; any data moves on to `end`, the
/// whole requested range counting as fed.
pub fn feed_advance(offset: u64, end: u64, data_len: usize) -> (o: u64)
    ensures
        o == if data_len == 0 { offset } else { end },
{
    if data_len == 0 {
        offset
    } else {
        end
    }
}

/// A readiness check that answers from a session's state answers what the
/// session's status shows; a waiting session's status is waiting for data,
/// a remuxing one's is processing.
pub proof fn law_realtime_check_agrees_with_status(state: RemuxState)
    ensures
        realtime_check(state) matches ReadinessCheck::Answer(r) ==> r == state_readiness(state),
        realtime_check(state) is CheckData ==> state_readiness(state) == StreamReadiness::WaitingForData,
        realtime_check(state) is CheckChunkServer ==> state_readiness(state) == StreamReadiness::Processing,
{
}

/// The sessions of the real-time remuxer, one per torrent, with its limits.
pub struct Remuxer {
    sessions: SessionTable,
    config: RemuxConfig,
}

impl Remuxer {
    /// The session table.
    pub closed spec fn spec_table(&self) -> SessionTable {
        self.sessions
    }

    /// The sessions, oldest first.
    pub open spec fn spec_sessions(&self) -> Seq<RemuxSession> {
        self.spec_table().spec_sessions()
    }

    /// The configuration.
    pub closed spec fn spec_config(&self) -> RemuxConfig {
        self.config
    }

    /// The remuxer's invariant: its table is well formed.
    pub open spec fn wf(&self) -> bool {
        self.spec_table().wf()
    }

    /// A remuxer without sessions.
    pub fn new(config: RemuxConfig) -> (r: Remuxer)
        ensures
            r.wf(),
            r.spec_sessions() == Seq::<RemuxSession>::empty(),
            r.spec_table().spec_next_id() == 1,
            r.spec_config() == config,
    {
        Remuxer { sessions: SessionTable::new(), config }
    }

    /// The configuration.
    pub fn config(&self) -> (c: &RemuxConfig)
        ensures
            *c == self.spec_config(),
    {
        &self.config
    }

    /// The session table.
    pub fn sessions(&self) -> (t: &SessionTable)
        ensures
            *t == self.spec_table(),
    {
        &self.sessions
    }

    /// The handle of the torrent's session, created waiting if there is none.
    pub fn find_or_create_session(&mut self, info_hash: InfoHash) -> (h: StreamHandle)
        requires
            old(self).wf(),
            old(self).spec_table().spec_next_id() < u64::MAX,
        ensures
            final(self).wf(),
            final(self).spec_config() == old(self).spec_config(),
            h.info_hash == info_hash,
            has_session(final(self).spec_sessions(), info_hash),
            h.session_id == final(self).spec_sessions()[session_index(final(self).spec_sessions(), info_hash)].session_id,
            has_session(old(self).spec_sessions(), info_hash) ==> h.session_id
                == old(self).spec_sessions()[session_index(old(self).spec_sessions(), info_hash)].session_id,
            !has_session(old(self).spec_sessions(), info_hash) ==> h.session_id == old(self).spec_table().spec_next_id(),
            h.format == ContainerFormat::Mp4,
            has_session(old(self).spec_sessions(), info_hash) ==> {
                &&& final(self).spec_table().spec_next_id() == old(self).spec_table().spec_next_id()
                &&& final(self).spec_sessions().len() == old(self).spec_sessions().len()
                &&& touched(
                    old(self).spec_sessions()[session_index(old(self).spec_sessions(), info_hash)],
                    final(self).spec_sessions()[session_index(old(self).spec_sessions(), info_hash)],
                )
                &&& forall|j: int| 0 <= j < old(self).spec_sessions().len()
                    && j != session_index(old(self).spec_sessions(), info_hash)
                    ==> #[trigger] final(self).spec_sessions()[j] == old(self).spec_sessions()[j]
            },
            !has_session(old(self).spec_sessions(), info_hash) ==> {
                let s = final(self).spec_sessions().last();
                &&& final(self).spec_table().spec_next_id() == old(self).spec_table().spec_next_id() + 1
                &&& final(self).spec_sessions().drop_last() == old(self).spec_sessions()
                &&& s.info_hash == info_hash
                &&& s.session_id == old(self).spec_table().spec_next_id()
                &&& s.state is WaitingForHeadAndTail
                &&& s.output_path is None
            },
    {
        let h = self.sessions.get_or_create_session(info_hash);
        proof {
            let t = self.sessions.spec_sessions();
            let o = old(self).sessions.spec_sessions();
            if has_session(o, info_hash) {
                let i = session_index(o, info_hash);
                assert(t[i].info_hash == o[i].info_hash);
                lemma_index_of(&self.sessions, info_hash, i);
            } else {
                let i = t.len() - 1;
                assert(t[i] == t.last());
                lemma_index_of(&self.sessions, info_hash, i);
            }
        }
        h
    }

    /// What a readiness check of the torrent's session must do next; an
    /// error when the torrent has no session.
    pub fn readiness_check(&self, info_hash: &InfoHash) -> (r: Result<ReadinessCheck, StrategyError>)
        requires
            self.wf(),
        ensures
            !has_session(self.spec_sessions(), *info_hash) ==> r is Err && is_session_not_found(r->Err_0),
            has_session(self.spec_sessions(), *info_hash) ==> r == Ok::<ReadinessCheck, StrategyError>(
                realtime_check(self.spec_sessions()[session_index(self.spec_sessions(), *info_hash)].state),
            ),
    {
        match self.sessions.get(info_hash) {
            None => Err(session_not_found()),
            Some(s) => match &s.state {
                RemuxState::WaitingForHeadAndTail => Ok(ReadinessCheck::CheckData),
                RemuxState::Remuxing { .. } => Ok(ReadinessCheck::CheckChunkServer),
                _ => Ok(ReadinessCheck::Answer(status_readiness(&s.state))),
            },
        }
    }

    /// The readiness shown in the status of the torrent's session; an
    /// error when the torrent has no session.
    pub fn status(&self, info_hash: &InfoHash) -> (r: Result<StreamReadiness, StrategyError>)
        requires
            self.wf(),
        ensures
            !has_session(self.spec_sessions(), *info_hash) ==> r is Err && is_session_not_found(r->Err_0),
            has_session(self.spec_sessions(), *info_hash) ==> r == Ok::<StreamReadiness, StrategyError>(
                state_readiness(self.spec_sessions()[session_index(self.spec_sessions(), *info_hash)].state),
            ),
    {
        match self.sessions.get(info_hash) {
            None => Err(session_not_found()),
            Some(s) => Ok(status_readiness(&s.state)),
        }
    }

    /// The output file of the torrent's session: the finished file once
    /// completed, the growing file while remuxing.
    pub fn output_path(&self, info_hash: &InfoHash) -> (r: Result<String, StrategyError>)
        requires
            self.wf(),
        ensures
            !has_session(self.spec_sessions(), *info_hash) ==> r is Err && is_session_not_found(r->Err_0),
            has_session(self.spec_sessions(), *info_hash) ==> {
                let s = self.spec_sessions()[session_index(self.spec_sessions(), *info_hash)];
                match s.state {
                    RemuxState::Completed { output_path } => r is Ok && r->Ok_0@ == output_path@,
                    RemuxState::Remuxing { .. } => match s.output_path {
                        Some(p) => r is Ok && r->Ok_0@ == p@,
                        None => r matches Err(StrategyError::StreamingNotReady { reason })
                            && reason@ == "Remuxing output path not available"@,
                    },
                    _ => r matches Err(StrategyError::StreamingNotReady { reason }) && reason@ == "Remuxing not completed"@,
                }
            },
    {
        match self.sessions.get(info_hash) {
            None => Err(session_not_found()),
            Some(s) => match &s.state {
                RemuxState::Completed { output_path } => Ok(output_path.clone()),
                RemuxState::Remuxing { .. } => match &s.output_path {
                    Some(p) => Ok(p.clone()),
                    None => Err(StrategyError::StreamingNotReady { reason: "Remuxing output path not available".to_string() }),
                },
                _ => Err(StrategyError::StreamingNotReady { reason: "Remuxing not completed".to_string() }),
            },
        }
    }

    /// Moves the torrent's session into remuxing, writing to its file in
    /// the cache directory, and returns that path. Fails without a session
    /// or when its state allows no start.
    pub fn start_remuxing(&mut self, info_hash: &InfoHash) -> (r: Result<String, StrategyError>)
        requires
            old(self).wf(),
        ensures
            final(self).wf(),
            final(self).spec_config() == old(self).spec_config(),
            final(self).spec_table().spec_next_id() == old(self).spec_table().spec_next_id(),
            r is Ok ==> r->Ok_0@ == output_file(old(self).spec_config().cache_dir@, *info_hash),
            !has_session(old(self).spec_sessions(), *info_hash) ==> {
                &&& r is Err && is_session_not_found(r->Err_0)
                &&& final(self).spec_sessions() == old(self).spec_sessions()
            },
            has_session(old(self).spec_sessions(), *info_hash) ==> {
                let i = session_index(old(self).spec_sessions(), *info_hash);
                let s = old(self).spec_sessions()[i];
                let t = final(self).spec_sessions()[i];
                if s.state.allows_start() {
                    &&& r is Ok
                    &&& final(self).spec_sessions() == old(self).spec_sessions().update(i, t)
                    &&& t.info_hash == s.info_hash
                    &&& t.session_id == s.session_id
                    &&& t.created_at == s.created_at
                    &&& t.state is Remuxing
                    &&& t.output_path is Some
                    &&& t.output_path->Some_0@ == r->Ok_0@
                } else {
                    &&& r matches Err(StrategyError::RemuxingFailed { reason })
                        && reason@ == "Cannot start remuxing in state: "@ + state_label(s.state)
                    &&& final(self).spec_sessions() == old(self).spec_sessions()
                }
            },
    {
        let path = output_path_for(self.config.cache_dir.as_str(), info_hash);
        let recorded = path.clone();
        match self.sessions.begin_remuxing(info_hash, recorded) {
            Ok(()) => Ok(path),
            Err(e) => Err(e),
        }
    }

    /// Marks the torrent's session, if any, failed with `error`.
    pub fn mark_failed(&mut self, info_hash: &InfoHash, error: RemuxError)
        requires
            old(self).wf(),
        ensures
            final(self).wf(),
            final(self).spec_config() == old(self).spec_config(),
            final(self).spec_table().spec_next_id() == old(self).spec_table().spec_next_id(),
            !has_session(old(self).spec_sessions(), *info_hash) ==> final(self).spec_sessions() == old(self).spec_sessions(),
            has_session(old(self).spec_sessions(), *info_hash) ==> {
                let i = session_index(old(self).spec_sessions(), *info_hash);
                let can_retry = error is InsufficientData || error is Timeout || error is IoError || error is SessionLimitExceeded;
                &&& final(self).spec_sessions() == old(self).spec_sessions().update(i, final(self).spec_sessions()[i])
                &&& final(self).spec_sessions()[i].state == RemuxState::Failed { error, can_retry }
                &&& final(self).spec_sessions()[i].session_id == old(self).spec_sessions()[i].session_id
            },
    {
        self.sessions.mark_failed(info_hash, error);
    }

    /// Removes the sessions idle for longer than the cleanup delay and
    /// returns them, so that their output files can be deleted. Which ones
    /// those are depends on the clock at the call: the kept and the removed
    /// sessions are the table's sessions split in order, each kept or
    /// removed whole.
    pub fn cleanup_stale_sessions(&mut self) -> (removed: Vec<RemuxSession>)
        requires
            old(self).wf(),
            old(self).spec_config().cleanup_after.wf(),
        ensures
            final(self).wf(),
            final(self).spec_config() == old(self).spec_config(),
            final(self).spec_table().spec_next_id() == old(self).spec_table().spec_next_id(),
            exists|flags: Seq<bool>| #![trigger picked(old(self).spec_sessions(), flags, false)]
                flags.len() == old(self).spec_sessions().len()
                && final(self).spec_sessions() == picked(old(self).spec_sessions(), flags, false)
                && removed@ == picked(old(self).spec_sessions(), flags, true),
            final(self).spec_sessions().len() + removed@.len() == old(self).spec_sessions().len(),
    {
        let timeout = self.config.cleanup_after;
        let ghost before = self.sessions.spec_sessions();
        let removed = self.sessions.remove_stale(timeout);
        proof {
            let flags = choose|flags: Seq<bool>| #![trigger picked(before, flags, false)]
                flags.len() == before.len()
                && self.sessions.spec_sessions() == picked(before, flags, false)
                && removed@ == picked(before, flags, true);
            assert(picked(old(self).spec_sessions(), flags, false) == self.spec_sessions());
        }
        removed
    }
}

} // verus!
