use riptide_core::buffer::BufferConfig;
use riptide_core::time::Duration;

#[test]
fn test_buffer_config_defaults() {
    let config = BufferConfig::default();
    assert_eq!(config.max_chunks, 256);
    assert_eq!(config.max_bytes, 64 * 1024 * 1024);
    assert!(config.cache_headers);
}

#[test]
fn test_low_latency_config() {
    let config = BufferConfig::low_latency();
    assert_eq!(config.max_chunks, 128);
    assert_eq!(config.max_bytes, 32 * 1024 * 1024);
    assert_eq!(config.wait_timeout, Duration::from_secs(10));
}

#[test]
fn test_high_throughput_config() {
    let config = BufferConfig::high_throughput();
    assert_eq!(config.max_chunks, 512);
    assert_eq!(config.max_bytes, 128 * 1024 * 1024);
    assert_eq!(config.wait_timeout, Duration::from_secs(60));
}
