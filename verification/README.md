# riptide_core streaming

The streaming core of a BitTorrent media engine, written in Verus: the
piece arithmetic, buffers, caches, parsers, session tables and pipeline
decisions that let a browser play a torrent's video while it downloads,
each with a contract that Verus proves.

## Layout

- `src/` is the verified library.
  - Piece and range arithmetic: `range_handler`, `download_manager`,
    `piece_reader`, `file_assembler`, `file_reconstruction`.
  - Buffers and caches: `chunk_server`, `buffer` (with `buffer/chunk_buffer`),
    `storage_cache`, and the output windows of `remux_streaming` and
    `progressive_remuxing`.
  - Parsers: `media_info` and `strategy` (container detection),
    `mp4_parser` (MP4 boxes and AVI headers), `direct_stream` (HTTP
    `Range` headers and responses).
  - Remux sessions and pipelines: `remux` (states, session tables, the
    real-time and file-based remuxers), `realtime_remuxer`, `remux_stream`,
    `progressive` (the pump, the coordinator state and the diagnostics),
    `ffmpeg` (command lines and output checks).
  - Calls into outside code sit behind a few small trusted wrappers:
    `lru_cache` (the `lru` crate), `clock` (the system clock) and parts of
    `text` (lowercasing and path extensions).
- `tests/` holds the tests of the library.
- `app/` is the asynchronous code around it: tokio tasks, FFmpeg
  processes, HTTP responses with axum, file I/O, floating-point statistics
  and the error types with their messages.

## Laws

Besides each function's contract, public proof functions named `law_*`
state properties that span several operations, for instance that a read
of a buffer returns what was written to it, that a piece queue stays
ordered, and that trimming keeps the header region of remuxed output.
