//! Download one media URL with FFmpeg.
//!
//! This crate holds the rules of the `downer` program: how a URL is read, what
//! a playlist offers, which arguments FFmpeg is given, what is written to a log,
//! and how the native messaging host answers. Every rule is stated over plain
//! sequences of characters and proved; reading, fetching and running are left to
//! the program around it. What a rule amounts to, in terms of what goes in and what
//! comes out alone, is stated and proved once more in the modules of laws.

pub mod text;
pub mod text_laws;
pub mod paths;
pub mod failure;
pub mod redact;
pub mod redact_laws;
pub mod host;
pub mod hostlog;
pub mod hostlog_laws;
pub mod error;
pub mod failure_laws;
pub mod ffmpeg;
pub mod ffmpeg_laws;
pub mod web;
pub mod output;
pub mod output_laws;
pub mod probe;
pub mod scraper;
pub mod playlist_laws;
pub mod master_laws;
pub mod page_laws;
pub mod request_laws;
pub mod cli;
pub mod native;
pub mod native_laws;
pub mod diagnostics;
pub mod setup_laws;
pub mod discovery;
pub mod download;
pub mod session;
pub mod download_laws;
pub mod discovery_laws;

pub use download::{
    conclude, describe_rendition, exit_code, normalize_cookie, outdated_ffmpeg_warning, prepare,
    resolve_cookie, unsupported_ffmpeg, DownloadOptions, COOKIE_ENV, DEFAULT_RETRIES,
    DEFAULT_TIMEOUT, FFMPEG_UNAVAILABLE_EXIT, INVALID_INPUT_EXIT, MEDIA_FAILURE_EXIT, OUTPUT_EXIT,
    SETUP_EXIT,
};
