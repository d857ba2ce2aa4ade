//! What can go wrong, and how it is said.

use vstd::prelude::*;
use crate::{failure, text};
use crate::ffmpeg::FfmpegVersion;

verus! {

/// Every failure the program reports.
#[derive(Debug)]
#[allow(inconsistent_fields)]
pub enum DownerError {
    InvalidUrl(String),
    OutputExists(String),
    OutputPath(String),
    OutputDirectory(String),
    OutputIo(String),
    SourceFetchFailed { status: Option<u16>, message: String },
    MediaNotFound(String),
    CandidateNotOffered(String),
    VariantNotOffered(String),
    CookieSource(String),
    NativeIo(String),
    Host(String),
    HostArgument(String),
    FfmpegUnavailable(String),
    FfmpegTooOld { version: FfmpegVersion, minimum: FfmpegVersion, stderr: String },
    FfmpegFailed { status: Option<i32>, stderr: String },
    SetupCheckFailed,
}

pub type DownerResult<T> = Result<T, DownerError>;

/// The exit status of a process, as it is shown.
pub open spec fn status_text(status: Option<i32>) -> Seq<char> {
    match status {
        Some(value) => text::signed_decimal(value as int),
        None => "unknown"@,
    }
}

fn display_status(status: Option<i32>) -> (r: String)
    ensures
        r@ == status_text(status),
{
    match status {
        Some(value) => text::signed_decimal_of(value),
        None => text::owned("unknown"),
    }
}

impl DownerError {
    /// The words in which a failure is reported.
    pub open spec fn text(self) -> Seq<char> {
        match self {
            DownerError::InvalidUrl(message) => "invalid URL: "@ + message@,
            DownerError::OutputExists(path) => "output already exists: "@ + path@
                + " (use --on-conflict rename to write beside it, or --overwrite to replace it)"@,
            DownerError::OutputPath(message) => "invalid output path: "@ + message@,
            DownerError::OutputDirectory(path) => "output path is a directory: "@ + path@,
            DownerError::OutputIo(error) => "could not prepare output: "@ + error@,
            DownerError::SourceFetchFailed { status, message } => match status {
                Some(code) => "could not fetch source page (HTTP "@ + text::decimal(code as nat)
                    + "): "@ + message@,
                None => "could not fetch source page: "@ + message@,
            },
            DownerError::MediaNotFound(source) =>
            "no supported m3u8 or video media URL was found in source page: "@ + source@,
            DownerError::CandidateNotOffered(message) => message@,
            DownerError::VariantNotOffered(choice) =>
            "the playlist does not offer that rendition: "@ + choice@,
            DownerError::CookieSource(message) => "could not read cookie: "@ + message@,
            DownerError::NativeIo(error) => "native messaging I/O error: "@ + error@,
            DownerError::Host(message) => "native host installation failed: "@ + message@,
            DownerError::HostArgument(message) => message@,
            DownerError::FfmpegUnavailable(path) =>
            "FFmpeg executable is unavailable or cannot be started: "@ + path@,
            DownerError::FfmpegTooOld { version, minimum, stderr } => {
                let head = "FFmpeg "@ + version.text() + " is older than the minimum supported "@
                    + minimum.text();
                if text::trim(stderr@).len() == 0 {
                    head
                } else {
                    head + ":\n"@ + failure::bounded(text::join(failure::telling_lines(stderr@), "\n"@))
                }
            },
            DownerError::FfmpegFailed { status, stderr } => if text::trim(stderr@).len() == 0 {
                "FFmpeg failed with status "@ + status_text(status)
            } else {
                failure::headline_of(failure::telling_lines(stderr@)) + "\n\nFFmpeg failed with status "@
                    + status_text(status) + ":\n"@ + failure::bounded(text::join(failure::telling_lines(stderr@), "\n"@))
            },
            DownerError::SetupCheckFailed => "setup checks failed; see the report above"@,
        }
    }

    /// The message that is shown for this failure.
    pub fn message(&self) -> (r: String)
        ensures
            r@ == self.text(),
    {
        match self {
            DownerError::InvalidUrl(message) => text::join2("invalid URL: ", message.as_str()),
            DownerError::OutputExists(path) => text::join3(
                "output already exists: ",
                path.as_str(),
                " (use --on-conflict rename to write beside it, or --overwrite to replace it)",
            ),
            DownerError::OutputPath(message) => text::join2("invalid output path: ", message.as_str()),
            DownerError::OutputDirectory(path) => text::join2(
                "output path is a directory: ",
                path.as_str(),
            ),
            DownerError::OutputIo(error) => text::join2("could not prepare output: ", error.as_str()),
            DownerError::SourceFetchFailed { status, message } => match status {
                Some(code) => {
                    let mut r = text::owned("could not fetch source page (HTTP ");
                    r.append(text::decimal_of(*code as u64).as_str());
                    r.append("): ");
                    r.append(message.as_str());
                    r
                },
                None => text::join2("could not fetch source page: ", message.as_str()),
            },
            DownerError::MediaNotFound(source) => text::join2(
                "no supported m3u8 or video media URL was found in source page: ",
                source.as_str(),
            ),
            DownerError::CandidateNotOffered(message) => text::owned(message.as_str()),
            DownerError::VariantNotOffered(choice) => text::join2(
                "the playlist does not offer that rendition: ",
                choice.as_str(),
            ),
            DownerError::CookieSource(message) => text::join2(
                "could not read cookie: ",
                message.as_str(),
            ),
            DownerError::NativeIo(error) => text::join2("native messaging I/O error: ", error.as_str()),
            DownerError::Host(message) => text::join2(
                "native host installation failed: ",
                message.as_str(),
            ),
            DownerError::HostArgument(message) => text::owned(message.as_str()),
            DownerError::FfmpegUnavailable(path) => text::join2(
                "FFmpeg executable is unavailable or cannot be started: ",
                path.as_str(),
            ),
            DownerError::FfmpegTooOld { version, minimum, stderr } => {
                let mut r = text::owned("FFmpeg ");
                r.append(version.display().as_str());
                r.append(" is older than the minimum supported ");
                r.append(minimum.display().as_str());
                if text::chars_of(text::trimmed(stderr.as_str()).as_str()).len() == 0 {
                    return r;
                }
                r.append(":\n");
                r.append(failure::summarize(stderr.as_str()).detail.as_str());
                r
            },
            DownerError::FfmpegFailed { status, stderr } => {
                let shown = display_status(*status);
                if text::chars_of(text::trimmed(stderr.as_str()).as_str()).len() == 0 {
                    return text::join2("FFmpeg failed with status ", shown.as_str());
                }
                let summary = failure::summarize(stderr.as_str());
                let mut r = summary.headline;
                r.append("\n\nFFmpeg failed with status ");
                r.append(shown.as_str());
                r.append(":\n");
                r.append(summary.detail.as_str());
                r
            },
            DownerError::SetupCheckFailed => text::owned("setup checks failed; see the report above"),
        }
    }
}

} // verus!
