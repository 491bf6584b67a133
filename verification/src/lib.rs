//! Core of an interactive playlist downloader that drives the external
//! `yt-dlp` tool: parsing of human-entered selection expressions, shaping
//! of the tool's catalog responses, construction of its argument vectors,
//! extraction of progress from its live output, selection of failure
//! reasons from its diagnostics, and the bounded-concurrency bookkeeping
//! of a download run. Every function here carries a contract; the
//! process shell around it (terminal prompts, subprocesses, async I/O)
//! lives outside the library.

pub mod args;
pub mod config;
pub mod downloader;
pub mod error;
pub mod format;
pub mod orchestrator;
pub mod playlist;
pub mod range_parser;
pub mod text;
pub mod video;
