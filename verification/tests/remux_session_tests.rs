use std::ops::Range;

use riptide_core::remux::remuxer::{
    is_avi_header, output_path_for, realtime_data_ready, realtime_head_size, realtime_small_file_target, ReadinessCheck,
    Remuxer,
};
use riptide_core::remux::session_manager::{
    session_data_ready, session_ffmpeg_args, session_head_size, session_tail_start, RemuxSessionManager,
};
use riptide_core::remux::state::{RemuxError, RemuxState};
use riptide_core::remux::types::{ContainerFormat, RemuxConfig, StrategyError, StreamReadiness};
use riptide_core::time::Duration;
use riptide_core::torrent::InfoHash;

const MB: u64 = 1024 * 1024;

fn test_config() -> RemuxConfig {
    RemuxConfig {
        max_concurrent_sessions: 1,
        cache_dir: "/tmp/test_remux".to_string(),
        min_head_size: 3 * MB,
        min_tail_size: 2 * MB,
        remux_timeout: Duration::from_secs(30),
        ffmpeg_path: "echo".to_string(),
        cleanup_after: Duration::from_secs(3600),
    }
}

fn covered(available: &[Range<u64>], range: Range<u64>) -> bool {
    available.iter().any(|a| a.start <= range.start && a.end >= range.end)
}

/// Drives a readiness check of the file-based manager against a file of
/// `file_size` bytes of which `available` ranges are downloaded.
fn manager_readiness(
    manager: &mut RemuxSessionManager,
    info_hash: &InfoHash,
    file_size: u64,
    available: &[Range<u64>],
) -> Result<StreamReadiness, StrategyError> {
    match manager.readiness_check(info_hash)? {
        ReadinessCheck::Answer(r) => Ok(r),
        ReadinessCheck::CheckChunkServer => Ok(StreamReadiness::Processing),
        ReadinessCheck::CheckData => {
            let config = manager.config().clone();
            let head = session_head_size(config.min_head_size, file_size);
            let head_available = covered(available, 0..head);
            let full_available = covered(available, 0..file_size);
            let tail_available = covered(available, session_tail_start(config.min_tail_size, file_size)..file_size);
            if session_data_ready(file_size, head_available, full_available, tail_available) {
                let path = manager.plan_remuxing(info_hash)?;
                manager.commit_remuxing(info_hash, path)?;
                Ok(StreamReadiness::Processing)
            } else {
                Ok(StreamReadiness::WaitingForData)
            }
        },
    }
}

fn manager_with(info_hash: InfoHash) -> RemuxSessionManager {
    let mut manager = RemuxSessionManager::new(test_config());
    manager.get_or_create_session(info_hash);
    manager
}

#[test]
fn remuxer_test_session_creation() {
    let mut remuxer = Remuxer::new(RemuxConfig::default());
    let info_hash = InfoHash::new([1u8; 20]);
    let handle = remuxer.find_or_create_session(info_hash);
    assert_eq!(handle.info_hash, info_hash);
    assert_eq!(handle.session_id, 1);
    assert_eq!(handle.format, ContainerFormat::Mp4);
    let again = remuxer.find_or_create_session(info_hash);
    assert_eq!(again.session_id, 1);
    let other = remuxer.find_or_create_session(InfoHash::new([2u8; 20]));
    assert_eq!(other.session_id, 2);
}

#[test]
fn remuxer_test_readiness_without_data() {
    let mut remuxer = Remuxer::new(RemuxConfig::default());
    let info_hash = InfoHash::new([1u8; 20]);
    remuxer.find_or_create_session(info_hash);
    assert_eq!(remuxer.readiness_check(&info_hash).unwrap(), ReadinessCheck::CheckData);
    let file_size = 10 * MB;
    let head = realtime_head_size(false, file_size);
    assert_eq!(head, 512 * 1024);
    assert!(!realtime_data_ready(file_size, false, false));
    assert_eq!(remuxer.status(&info_hash).unwrap(), StreamReadiness::WaitingForData);
}

#[test]
fn remuxer_test_readiness_with_data() {
    let mut remuxer = Remuxer::new(RemuxConfig::default());
    let info_hash = InfoHash::new([1u8; 20]);
    remuxer.find_or_create_session(info_hash);
    assert!(realtime_data_ready(10 * MB, true, false));
    let path = remuxer.start_remuxing(&info_hash).unwrap();
    assert_eq!(path, format!("/tmp/riptide_remux/{}.mp4", "01".repeat(20)));
    assert_eq!(remuxer.readiness_check(&info_hash).unwrap(), ReadinessCheck::CheckChunkServer);
    assert_eq!(remuxer.status(&info_hash).unwrap(), StreamReadiness::Processing);
    assert_eq!(remuxer.output_path(&info_hash).unwrap(), path);
    assert!(remuxer.start_remuxing(&info_hash).is_err());
}

#[test]
fn test_remuxer_unknown_session() {
    let remuxer = Remuxer::new(RemuxConfig::default());
    let info_hash = InfoHash::new([9u8; 20]);
    assert!(matches!(remuxer.readiness_check(&info_hash), Err(StrategyError::RemuxingFailed { reason }) if reason == "Session not found"));
    assert!(remuxer.status(&info_hash).is_err());
    assert!(remuxer.output_path(&info_hash).is_err());
}

#[test]
fn test_remuxer_failure_answers() {
    let mut remuxer = Remuxer::new(RemuxConfig::default());
    let a = InfoHash::new([3u8; 20]);
    let b = InfoHash::new([4u8; 20]);
    remuxer.find_or_create_session(a);
    remuxer.find_or_create_session(b);
    remuxer.mark_failed(&a, RemuxError::Timeout { duration_secs: 5 });
    remuxer.mark_failed(&b, RemuxError::FfmpegFailed { reason: "boom".to_string() });
    assert_eq!(remuxer.readiness_check(&a).unwrap(), ReadinessCheck::Answer(StreamReadiness::CanRetry));
    assert_eq!(remuxer.readiness_check(&b).unwrap(), ReadinessCheck::Answer(StreamReadiness::Failed));
    assert!(remuxer.start_remuxing(&a).is_ok());
    assert!(matches!(remuxer.start_remuxing(&b), Err(StrategyError::RemuxingFailed { reason }) if reason == "Cannot start remuxing in state: Failed"));
    assert!(matches!(remuxer.output_path(&b), Err(StrategyError::StreamingNotReady { .. })));
}

#[test]
fn test_realtime_data_requirements() {
    assert_eq!(realtime_head_size(true, 100 * MB), MB);
    assert_eq!(realtime_head_size(false, 100 * MB), 512 * 1024);
    assert_eq!(realtime_head_size(true, 1000), 1000);
    assert_eq!(realtime_small_file_target(4 * MB, 512 * 1024), 3 * MB);
    assert_eq!(realtime_small_file_target(100, 90), 90);
    assert!(realtime_data_ready(4 * MB, false, true));
    assert!(!realtime_data_ready(4 * MB, true, false));
    assert!(realtime_data_ready(5 * MB, true, false));
}

#[test]
fn test_avi_header_detection() {
    let mut header = b"RIFF\x00\x00\x00\x00AVI LIST".to_vec();
    assert!(is_avi_header(&header));
    header[8] = b'W';
    assert!(!is_avi_header(&header));
    assert!(!is_avi_header(b"RIFF\x00\x00\x00\x00AV"));
}

#[test]
fn test_output_path_join() {
    let h = InfoHash::new([0xabu8; 20]);
    let name = format!("{}.mp4", "ab".repeat(20));
    assert_eq!(output_path_for("/cache", &h), format!("/cache/{name}"));
    assert_eq!(output_path_for("/cache/", &h), format!("/cache/{name}"));
    assert_eq!(output_path_for("", &h), name);
    assert_eq!(h.to_hex(), "ab".repeat(20));
}

#[test]
fn session_manager_test_session_creation() {
    let mut manager = RemuxSessionManager::new(test_config());
    let info_hash = InfoHash::new([1u8; 20]);
    let handle = manager.get_or_create_session(info_hash);
    assert_eq!(handle.info_hash, info_hash);
    assert_eq!(handle.session_id, 1);
}

#[test]
fn session_manager_test_readiness_without_data() {
    let info_hash = InfoHash::new([1u8; 20]);
    let mut manager = manager_with(info_hash);
    let r = manager_readiness(&mut manager, &info_hash, 100 * MB, &[]).unwrap();
    assert_eq!(r, StreamReadiness::WaitingForData);
}

#[test]
fn session_manager_test_readiness_with_data() {
    let info_hash = InfoHash::new([1u8; 20]);
    let mut manager = manager_with(info_hash);
    let file_size = 100 * MB;
    let available = [0..3 * MB, (file_size - 2 * MB)..file_size];
    let r = manager_readiness(&mut manager, &info_hash, file_size, &available).unwrap();
    assert_eq!(r, StreamReadiness::Processing);
    assert_eq!(manager.get_status(&info_hash).unwrap(), StreamReadiness::Processing);
}

#[test]
fn test_readiness_with_head_only_data() {
    let info_hash = InfoHash::new([1u8; 20]);
    let mut manager = manager_with(info_hash);
    let r = manager_readiness(&mut manager, &info_hash, 100 * MB, &[0..5 * MB]).unwrap();
    assert_eq!(r, StreamReadiness::Processing);
    assert_eq!(manager.get_status(&info_hash).unwrap(), StreamReadiness::Processing);
}

#[test]
fn test_readiness_with_file_smaller_than_head_requirement() {
    let info_hash = InfoHash::new([4u8; 20]);
    let mut manager = manager_with(info_hash);
    let r = manager_readiness(&mut manager, &info_hash, MB, &[0..MB]).unwrap();
    assert_eq!(r, StreamReadiness::Processing);
}

#[test]
fn test_readiness_progression_over_time() {
    let info_hash = InfoHash::new([5u8; 20]);
    let mut manager = manager_with(info_hash);
    let file_size = 100 * MB;
    assert_eq!(manager_readiness(&mut manager, &info_hash, file_size, &[]).unwrap(), StreamReadiness::WaitingForData);
    let head = [0..5 * MB];
    assert_eq!(manager_readiness(&mut manager, &info_hash, file_size, &head).unwrap(), StreamReadiness::Processing);
    let both = [0..5 * MB, (file_size - 3 * MB)..file_size];
    assert_eq!(manager_readiness(&mut manager, &info_hash, file_size, &both).unwrap(), StreamReadiness::Processing);
}

#[test]
fn test_readiness_with_partial_head_data() {
    let info_hash = InfoHash::new([6u8; 20]);
    let mut manager = manager_with(info_hash);
    let file_size = 100 * MB;
    let available = [0..MB, (file_size - 3 * MB)..file_size];
    let r = manager_readiness(&mut manager, &info_hash, file_size, &available).unwrap();
    assert_eq!(r, StreamReadiness::WaitingForData);
}

#[test]
fn test_readiness_status_consistency() {
    let info_hash = InfoHash::new([8u8; 20]);
    let mut manager = manager_with(info_hash);
    let r = manager_readiness(&mut manager, &info_hash, 100 * MB, &[]).unwrap();
    assert_eq!(r, StreamReadiness::WaitingForData);
    assert_eq!(manager.get_status(&info_hash).unwrap(), StreamReadiness::WaitingForData);
}

#[test]
fn test_readiness_edge_case_one_byte_short() {
    let info_hash = InfoHash::new([14u8; 20]);
    let mut manager = manager_with(info_hash);
    let file_size = 100 * MB;
    let available = [0..(3 * MB - 1), (file_size - 2 * MB)..file_size];
    let r = manager_readiness(&mut manager, &info_hash, file_size, &available).unwrap();
    assert_eq!(r, StreamReadiness::WaitingForData);
}

#[test]
fn test_small_file_requires_full_content() {
    let info_hash = InfoHash::new([16u8; 20]);
    let mut manager = manager_with(info_hash);
    let r = manager_readiness(&mut manager, &info_hash, 5 * MB, &[0..3 * MB]).unwrap();
    assert_eq!(r, StreamReadiness::WaitingForData);
}

#[test]
fn test_session_manager_completion_and_output() {
    let info_hash = InfoHash::new([20u8; 20]);
    let mut manager = manager_with(info_hash);
    assert!(matches!(manager.get_output_path(&info_hash), Err(StrategyError::StreamingNotReady { .. })));
    let path = manager.plan_remuxing(&info_hash).unwrap();
    assert_eq!(path, format!("/tmp/test_remux/{}.mp4", "14".repeat(20)));
    manager.commit_remuxing(&info_hash, path.clone()).unwrap();
    assert!(manager.get_output_path(&info_hash).is_err());
    manager.mark_completed(&info_hash, path.clone());
    assert_eq!(manager.get_output_path(&info_hash).unwrap(), path);
    assert_eq!(manager.readiness_check(&info_hash).unwrap(), ReadinessCheck::Answer(StreamReadiness::Ready));
    assert!(manager.plan_remuxing(&info_hash).is_err());
}

#[test]
fn test_session_ffmpeg_args() {
    let args = session_ffmpeg_args("/tmp/out.mp4");
    assert_eq!(
        args,
        vec!["-i", "pipe:0", "-c:v", "copy", "-c:a", "aac", "-movflags", "+faststart", "-f", "mp4", "/tmp/out.mp4"]
    );
}

#[test]
fn test_session_data_requirements() {
    assert_eq!(session_head_size(3 * MB, MB), MB);
    assert_eq!(session_head_size(3 * MB, 100 * MB), 3 * MB);
    assert_eq!(session_tail_start(2 * MB, MB), 0);
    assert_eq!(session_tail_start(2 * MB, 100 * MB), 98 * MB);
    assert!(!session_data_ready(100 * MB, false, false, true));
    assert!(session_data_ready(100 * MB, true, false, false));
    assert!(!session_data_ready(9 * MB, true, false, true));
    assert!(session_data_ready(9 * MB, false, true, false));
}

#[test]
fn test_cleanup_stale_sessions() {
    let info_hash = InfoHash::new([21u8; 20]);
    let mut manager = manager_with(info_hash);
    assert!(manager.cleanup_stale_sessions().is_empty());
    assert_eq!(manager.sessions().len(), 1);
    let mut config = test_config();
    config.cleanup_after = Duration::from_millis(0);
    let mut quick = RemuxSessionManager::new(config);
    quick.get_or_create_session(info_hash);
    let started = std::time::Instant::now();
    while started.elapsed() < std::time::Duration::from_millis(5) {}
    let removed = quick.cleanup_stale_sessions();
    assert_eq!(removed.len(), 1);
    assert!(matches!(removed[0].state, RemuxState::WaitingForHeadAndTail));
    assert_eq!(quick.sessions().len(), 0);
}
