use std::time::Instant;

use riptide_core::remux::state::{extract_value, RemuxError, RemuxState};

#[test]
fn test_remux_state_transitions() {
    let state = RemuxState::WaitingForHeadAndTail;
    assert!(state.can_start_remuxing());
    assert!(!state.is_complete());
    assert!(!state.is_remuxing());
    assert!(!state.is_failed());

    let state = RemuxState::Remuxing { started_at: Instant::now() };
    assert!(!state.can_start_remuxing());
    assert!(!state.is_complete());
    assert!(state.is_remuxing());
    assert!(!state.is_failed());

    let state = RemuxState::Completed { output_path: "/tmp/test.mp4".to_string() };
    assert!(!state.can_start_remuxing());
    assert!(state.is_complete());
    assert!(!state.is_remuxing());
    assert!(!state.is_failed());
    assert_eq!(state.output_path(), Some(&"/tmp/test.mp4".to_string()));
}

#[test]
fn test_remux_error_retryable() {
    assert!(!RemuxError::FfmpegFailed { reason: "test".to_string() }.is_retryable());
    assert!(RemuxError::InsufficientData.is_retryable());
    assert!(!RemuxError::UnsupportedFormat { format: "test".to_string() }.is_retryable());
    assert!(RemuxError::Timeout { duration_secs: 30 }.is_retryable());
}

#[test]
fn failed_state_retry_depends_on_flag() {
    let retry = RemuxState::Failed { error: RemuxError::InsufficientData, can_retry: true };
    let fatal = RemuxState::Failed { error: RemuxError::InvalidState { reason: "x".to_string() }, can_retry: false };
    assert!(retry.can_start_remuxing());
    assert!(!fatal.can_start_remuxing());
    assert!(fatal.is_failed());
    assert!(fatal.output_path().is_none());
}

#[test]
fn values_from_progress_lines() {
    let line = "frame=  123 fps= 45 q=-1.0 size=    1024kB time=00:00:05.12 bitrate=1234.5kbits/s speed=1.2x";
    assert_eq!(extract_value(line, "time="), Some("00:00:05.12"));
    assert_eq!(extract_value(line, "speed="), Some("1.2x"));
    assert_eq!(extract_value(line, "frame="), Some(""));
    assert_eq!(extract_value(line, "missing="), None);
}
