//! Verified core of a BitTorrent media streaming pipeline: container
//! detection, HTTP range arithmetic over torrent pieces, chunk buffering,
//! range caching, download scheduling and remux configuration.
pub mod time;
pub mod text;
pub mod torrent;
pub mod clock;
pub mod chunk_server;
pub mod lru_cache;
pub mod storage_cache;
pub mod storage;
pub mod download_manager;
pub mod range_handler;
pub mod remux;
pub mod media_info;
pub mod strategy;
pub mod buffer;
pub mod realtime_remuxer;
pub mod ffmpeg;
pub mod remux_stream;
pub mod file_reconstruction;
pub mod migration;
pub mod remuxed_streaming;
pub mod direct_stream;
pub mod piece_reader;
pub mod performance_tests;
pub mod progressive;
pub mod file_assembler;
pub mod remux_streaming;
pub mod strategy_manager;
pub mod progressive_remuxing;
pub mod piece_provider_adapter;
pub mod http_streaming;
pub mod mp4_parser;
