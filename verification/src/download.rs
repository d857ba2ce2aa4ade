//! One download, from its options to its outcome.
//!
//! The program around this library looks at the disk, fetches playlists and runs
//! FFmpeg. What it does with what it finds is decided here.

use vstd::prelude::*;
use crate::{failure, ffmpeg, output, scraper, text, web};
use crate::error::{DownerError, DownerResult};
use crate::ffmpeg::{FfmpegInvocation, FfmpegVersion, Reconnect, Reporting};
use crate::output::{NamingHints, OnConflict, OutputTarget};
use crate::scraper::{ChoiceView, Playlist, RenditionChoice, ResolvedMedia};
use crate::web::{Url, UrlView};

verus! {

/// The environment variable that holds a cookie header.
pub const COOKIE_ENV: &'static str = "DOWNER_COOKIE";

pub const INVALID_INPUT_EXIT: i32 = 2;

pub const OUTPUT_EXIT: i32 = 3;

pub const FFMPEG_UNAVAILABLE_EXIT: i32 = 4;

pub const MEDIA_FAILURE_EXIT: i32 = 5;

pub const SETUP_EXIT: i32 = 6;

/// How often a download is started again unless something else is asked for.
pub const DEFAULT_RETRIES: u32 = 2;

/// The seconds that a fetch may take unless something else is asked for.
pub const DEFAULT_TIMEOUT: u64 = 30;

/// The most seconds that a connection may take to be made.
pub const MAX_CONNECT_TIMEOUT: u64 = 10;

/// How a download is done.
#[derive(Debug)]
pub struct DownloadOptions {
    /// The exact path to write to.
    pub output: Option<String>,
    /// The directory to write to, under a name that the URL suggests.
    pub dir: Option<String>,
    pub overwrite: bool,
    pub on_conflict: Option<OnConflict>,
    pub naming: NamingHints,
    pub ffmpeg: String,
    pub user_agent: String,
    pub cookie: Option<String>,
    pub threads: Option<u16>,
    /// Whether nothing is printed.
    pub quiet: bool,
    /// The playlist, if it was fetched already.
    pub playlist_text: Option<String>,
    pub rendition: Option<RenditionChoice>,
    /// Whether a download that its user cancels leaves what it wrote.
    pub keep_partial: bool,
    pub reconnect: Option<Reconnect>,
    /// How often a download that failed for a passing reason is started again.
    pub retries: u32,
    /// The seconds that a page or a playlist may take to fetch.
    pub timeout: u64,
}

impl DownloadOptions {
    /// What happens when the output is already there: what was asked for; else,
    /// a path that was named exactly is an error, and any other is renamed.
    pub open spec fn policy(&self) -> OnConflict {
        match self.on_conflict {
            Some(policy) => policy,
            None => if self.overwrite {
                OnConflict::Overwrite
            } else if self.output is Some {
                OnConflict::Fail
            } else {
                OnConflict::Rename
            },
        }
    }

    pub fn conflict_policy(&self) -> (r: OnConflict)
        ensures
            r == self.policy(),
    {
        match self.on_conflict {
            Some(policy) => policy,
            None => if self.overwrite {
                OnConflict::Overwrite
            } else if self.output.is_some() {
                OnConflict::Fail
            } else {
                OnConflict::Rename
            },
        }
    }
}

// ---------------------------------------------------------------------------
// Cookies
// ---------------------------------------------------------------------------

/// A cookie header without white space around it; none if that is all it is.
pub open spec fn cookie_header(raw: Seq<char>) -> Option<Seq<char>> {
    if text::trim(raw).len() > 0 {
        Some(text::trim(raw))
    } else {
        None
    }
}

pub fn normalize_cookie(raw: &str) -> (r: Option<String>)
    ensures
        text::opt_text(r) == cookie_header(raw@),
{
    let t = text::trimmed(raw);
    if text::chars_of(t.as_str()).len() > 0 {
        Some(t)
    } else {
        None
    }
}

/// The cookie header to send: the argument, else the file that was named, else
/// the environment. A source that is named and cannot be read is an error.
pub fn resolve_cookie(
    argument: &Option<String>,
    file: &Option<Result<String, String>>,
    environment: &Result<Option<String>, String>,
) -> (r: DownerResult<Option<String>>)
    ensures
        match *argument {
            Some(value) => r matches Ok(c) && text::opt_text(c) == cookie_header(value@),
            None => match *file {
                Some(Ok(contents)) => r matches Ok(c) && text::opt_text(c) == cookie_header(contents@),
                Some(Err(reason)) => r matches Err(DownerError::CookieSource(e)) && e@ == reason@,
                None => match *environment {
                    Ok(Some(value)) => r matches Ok(c) && text::opt_text(c) == cookie_header(value@),
                    Ok(None) => r matches Ok(c) && c is None,
                    Err(reason) => r matches Err(DownerError::CookieSource(e)) && e@
                        == COOKIE_ENV@ + ": "@ + reason@,
                },
            },
        },
{
    if let Some(value) = argument {
        return Ok(normalize_cookie(value.as_str()));
    }
    if let Some(read) = file {
        return match read {
            Ok(contents) => Ok(normalize_cookie(contents.as_str())),
            Err(reason) => Err(DownerError::CookieSource(text::owned(reason.as_str()))),
        };
    }
    match environment {
        Ok(Some(value)) => Ok(normalize_cookie(value.as_str())),
        Ok(None) => Ok(None),
        Err(reason) => Err(
            DownerError::CookieSource(text::join3(COOKIE_ENV, ": ", reason.as_str())),
        ),
    }
}

// ---------------------------------------------------------------------------
// FFmpeg's version
// ---------------------------------------------------------------------------

/// The version of an FFmpeg, if it is older than the minimum. One whose version
/// is not known is given the benefit of the doubt.
pub open spec fn too_old(version: Option<FfmpegVersion>) -> Option<FfmpegVersion> {
    match version {
        Some(v) => if v.is_supported() {
            None
        } else {
            Some(v)
        },
        None => None,
    }
}

pub fn unsupported_ffmpeg(version: Option<FfmpegVersion>) -> (r: Option<FfmpegVersion>)
    ensures
        r == too_old(version),
{
    match version {
        Some(v) => if v.meets_minimum() {
            None
        } else {
            Some(v)
        },
        None => None,
    }
}

/// The warning that an old FFmpeg is met with.
pub open spec fn outdated_warning(version: FfmpegVersion) -> Seq<char> {
    "Warning: FFmpeg "@ + version.text() + " is older than the minimum supported "@
        + ffmpeg::minimum_version().text()
        + ". HLS segment-extension options are being omitted; downloads may fail."@
}

pub fn outdated_ffmpeg_warning(version: FfmpegVersion) -> (r: String)
    ensures
        r@ == outdated_warning(version),
{
    let mut r = text::owned("Warning: FFmpeg ");
    r.append(version.display().as_str());
    r.append(" is older than the minimum supported ");
    r.append(ffmpeg::minimum_ffmpeg().display().as_str());
    r.append(". HLS segment-extension options are being omitted; downloads may fail.");
    r
}

// ---------------------------------------------------------------------------
// The input
// ---------------------------------------------------------------------------

/// Whether a URL is taken for an HLS playlist.
pub open spec fn hls_url(url: Seq<char>) -> bool {
    text::contains(text::lower(url), ".m3u8"@)
}

pub fn is_hls(url: &str) -> (r: bool)
    ensures
        r == hls_url(url@),
{
    text::contains_text(text::to_ascii_lower(url).as_str(), ".m3u8")
}

/// Where the playlist of a download comes from.
#[derive(Debug, Clone, Copy, PartialEq, Eq, Structural)]
pub enum PlaylistSource {
    /// The download is no playlist.
    Nowhere,
    /// It was fetched already.
    Supplied,
    /// It is still to be fetched.
    Fetch,
}

pub open spec fn source_of_playlist(url: Seq<char>, options: DownloadOptions) -> PlaylistSource {
    if !hls_url(url) {
        PlaylistSource::Nowhere
    } else if options.playlist_text is Some {
        PlaylistSource::Supplied
    } else {
        PlaylistSource::Fetch
    }
}

pub fn playlist_source(url: &Url, options: &DownloadOptions) -> (r: PlaylistSource)
    ensures
        r == source_of_playlist(url@.text, *options),
{
    if !is_hls(url.as_str()) {
        PlaylistSource::Nowhere
    } else if options.playlist_text.is_some() {
        PlaylistSource::Supplied
    } else {
        PlaylistSource::Fetch
    }
}

/// A rendition that was asked for, as it is shown.
pub open spec fn rendition_text(choice: ChoiceView) -> Seq<char> {
    match choice {
        ChoiceView::Best => "best"@,
        ChoiceView::Worst => "worst"@,
        ChoiceView::Height(height) => text::decimal(height as nat) + "p"@,
        ChoiceView::Exact(url) => url.text,
    }
}

pub fn describe_rendition(choice: &RenditionChoice) -> (r: String)
    ensures
        r@ == rendition_text(choice@),
{
    match choice {
        RenditionChoice::Best => text::owned("best"),
        RenditionChoice::Worst => text::owned("worst"),
        RenditionChoice::Height(height) => text::join2(text::decimal_of(*height as u64).as_str(), "p"),
        RenditionChoice::Exact(url) => text::owned(url.as_str()),
    }
}

/// The rendition of a playlist that is downloaded, and its sound; `None` if the
/// URL is downloaded as it is.
pub open spec fn chosen_input(
    playlist: Option<Playlist>,
    requested: Option<ChoiceView>,
) -> Option<(UrlView, Option<UrlView>)> {
    match playlist {
        Some(Playlist::Master(master)) => match master@.chosen(requested) {
            Some(x) => Some(
                (
                    x.url,
                    match master@.sound_of(x) {
                        Some(a) => Some(a.url),
                        None => None,
                    },
                ),
            ),
            None => None,
        },
        _ => None,
    }
}

/// The inputs of a download.
#[derive(Debug)]
pub struct Inputs {
    pub input: Url,
    pub audio: Option<Url>,
}

pub open spec fn choice_of(rendition: Option<RenditionChoice>) -> Option<ChoiceView> {
    match rendition {
        Some(c) => Some(c@),
        None => None,
    }
}

/// Choose the inputs of a download: the rendition that was asked for, the best
/// one if none was, and the URL itself if there are none to choose from. A
/// rendition that was asked for and is not offered is an error.
pub fn choose_inputs(
    url: &Url,
    requested: &Option<RenditionChoice>,
    playlist: &Option<Playlist>,
) -> (r: DownerResult<Inputs>)
    ensures
        match chosen_input(*playlist, choice_of(*requested)) {
            Some(found) => r matches Ok(inputs) && inputs.input@ == found.0 && web::opt_url(inputs.audio)
                == found.1,
            None => match *requested {
                Some(c) => r matches Err(DownerError::VariantNotOffered(shown)) && shown@
                    == rendition_text(c@),
                None => r matches Ok(inputs) && inputs.input@ == url@ && inputs.audio is None,
            },
        },
{
    let found = match playlist {
        Some(Playlist::Master(master)) => match requested {
            Some(c) => master.choose_rendition(Some(c)),
            None => master.choose_rendition(None),
        },
        _ => None,
    };
    match found {
        Some(choice) => Ok(Inputs { input: choice.video, audio: choice.audio }),
        None => match requested {
            Some(c) => Err(DownerError::VariantNotOffered(describe_rendition(c))),
            None => Ok(Inputs { input: url.copy(), audio: None }),
        },
    }
}

// ---------------------------------------------------------------------------
// The run
// ---------------------------------------------------------------------------

/// The run of FFmpeg that a download needs. An old FFmpeg is not given the
/// options that it does not know.
pub fn invocation(
    media: &ResolvedMedia,
    options: &DownloadOptions,
    target: &OutputTarget,
    inputs: &Inputs,
    outdated: Option<FfmpegVersion>,
    controlled: bool,
) -> (r: FfmpegInvocation)
    ensures
        r.program@ == options.ffmpeg@,
        r.input@ == inputs.input@.text,
        text::opt_text(r.audio_input) == (match web::opt_url(inputs.audio) {
            Some(audio) => Some(audio.text),
            None => None,
        }),
        text::opt_text(r.headers) == Some(
            scraper::header_block(
                match web::opt_url(media.referer) {
                    Some(page) => Some(page.text),
                    None => None,
                },
                options.user_agent@,
            ),
        ),
        text::opt_text(r.cookies) == scraper::cookie_lines(media.url@, text::opt_text(options.cookie)),
        r.reconnect == options.reconnect,
        r.hls_lenient == (hls_url(media.url@.text) && outdated is None),
        r.threads == options.threads,
        r.overwrite == target.overwrite,
        r.output@ == target.path@,
        controlled ==> (r.reporting matches Reporting::Controlled { stats_period } && stats_period@
            == ffmpeg::DEFAULT_STATS_PERIOD@),
        !controlled ==> r.reporting is Cli,
{
    let headers = match &media.referer {
        Some(page) => scraper::ffmpeg_headers(Some(page), options.user_agent.as_str()),
        None => scraper::ffmpeg_headers(None, options.user_agent.as_str()),
    };
    let cookies = match &options.cookie {
        Some(cookie) => scraper::ffmpeg_cookies(&media.url, Some(cookie.as_str())),
        None => scraper::ffmpeg_cookies(&media.url, None),
    };
    FfmpegInvocation {
        program: text::owned(options.ffmpeg.as_str()),
        input: text::owned(inputs.input.as_str()),
        audio_input: match &inputs.audio {
            Some(audio) => Some(text::owned(audio.as_str())),
            None => None,
        },
        headers,
        cookies,
        reconnect: options.reconnect,
        hls_lenient: is_hls(media.url.as_str()) && outdated.is_none(),
        threads: options.threads,
        overwrite: target.overwrite,
        output: text::owned(target.path.as_str()),
        reporting: if controlled {
            Reporting::controlled()
        } else {
            Reporting::Cli
        },
    }
}

/// What is printed before a download starts.
pub open spec fn opening_lines(
    quiet: bool,
    page: Option<UrlView>,
    url: UrlView,
    destination: Seq<char>,
) -> Seq<Seq<char>> {
    if quiet {
        Seq::empty()
    } else {
        (match page {
            Some(p) => seq!["Resolved media URL from "@ + p.text],
            None => Seq::empty(),
        }) + seq!["Downloading "@ + url.text, "Destination: "@ + destination]
    }
}

pub fn announce(media: &ResolvedMedia, quiet: bool, destination: &str) -> (r: Vec<String>)
    ensures
        text::texts(r@) == opening_lines(quiet, web::opt_url(media.referer), media.url@, destination@),
{
    let mut r: Vec<String> = Vec::new();
    assert(text::texts(r@) =~= Seq::empty());
    if quiet {
        return r;
    }
    if let Some(page) = &media.referer {
        text::push_text(&mut r, text::join2("Resolved media URL from ", page.as_str()).as_str());
    }
    text::push_text(&mut r, text::join2("Downloading ", media.url.as_str()).as_str());
    text::push_text(&mut r, text::join2("Destination: ", destination).as_str());
    assert(text::texts(r@) =~= opening_lines(quiet, web::opt_url(media.referer), media.url@, destination@));
    r
}

/// What is printed once the inputs are chosen: which rendition, if one was.
pub open spec fn choice_lines(quiet: bool, url: UrlView, input: UrlView, audio: Option<UrlView>)
    -> Seq<Seq<char>> {
    if quiet || input.text == url.text {
        Seq::empty()
    } else {
        seq!["Selected rendition: "@ + input.text] + (match audio {
            Some(a) => seq!["Selected audio rendition: "@ + a.text],
            None => Seq::empty(),
        })
    }
}

/// A download that is ready to run.
#[derive(Debug)]
pub struct Prepared {
    pub invocation: FfmpegInvocation,
    /// What is printed before it runs.
    pub notices: Vec<String>,
}

/// Whether an outcome is that of getting a download ready: a run with the inputs
/// that were chosen, or the refusal of a rendition that is not offered.
pub open spec fn is_prepared(
    r: DownerResult<Prepared>,
    media: ResolvedMedia,
    options: DownloadOptions,
    target: OutputTarget,
    outdated: Option<FfmpegVersion>,
    playlist: Option<Playlist>,
    controlled: bool,
) -> bool {
    &&& match chosen_input(playlist, choice_of(options.rendition)) {
        Some(found) => r matches Ok(p) && p.invocation.input@ == found.0.text && text::opt_text(
            p.invocation.audio_input,
        ) == (match found.1 {
            Some(a) => Some(a.text),
            None => None,
        }) && text::texts(p.notices@) == choice_lines(options.quiet, media.url@, found.0, found.1),
        None => match options.rendition {
            Some(c) => r matches Err(DownerError::VariantNotOffered(shown)) && shown@
                == rendition_text(c@),
            None => r matches Ok(p) && p.invocation.input@ == media.url@.text
                && p.invocation.audio_input is None && p.notices@.len() == 0,
        },
    }
    &&& r matches Ok(p) ==> {
        let run = p.invocation;
        &&& run.program@ == options.ffmpeg@
        &&& text::opt_text(run.headers) == Some(
            scraper::header_block(
                match web::opt_url(media.referer) {
                    Some(page) => Some(page.text),
                    None => None,
                },
                options.user_agent@,
            ),
        )
        &&& text::opt_text(run.cookies) == scraper::cookie_lines(media.url@, text::opt_text(options.cookie))
        &&& run.reconnect == options.reconnect
        &&& run.hls_lenient == (hls_url(media.url@.text) && outdated is None)
        &&& run.threads == options.threads
        &&& run.overwrite == target.overwrite
        &&& run.output@ == target.path@
        &&& controlled ==> (run.reporting matches Reporting::Controlled { stats_period }
            && stats_period@ == ffmpeg::DEFAULT_STATS_PERIOD@)
        &&& !controlled ==> run.reporting is Cli
    }
}

/// Get a download ready to run, once it is known where it is written, how old
/// FFmpeg is, and what the playlist is if there is one.
pub fn prepare(
    media: &ResolvedMedia,
    options: &DownloadOptions,
    target: &OutputTarget,
    outdated: Option<FfmpegVersion>,
    playlist: &Option<Playlist>,
    controlled: bool,
) -> (r: DownerResult<Prepared>)
    ensures
        is_prepared(r, *media, *options, *target, outdated, *playlist, controlled),
{
    let inputs = match choose_inputs(&media.url, &options.rendition, playlist) {
        Ok(inputs) => inputs,
        Err(error) => {
            return Err(error);
        },
    };
    let mut notices: Vec<String> = Vec::new();
    assert(text::texts(notices@) =~= Seq::empty());
    if !options.quiet && !web::same_url(&inputs.input, &media.url) {
        text::push_text(&mut notices, text::join2("Selected rendition: ", inputs.input.as_str()).as_str());
        if let Some(audio) = &inputs.audio {
            text::push_text(&mut notices, text::join2("Selected audio rendition: ", audio.as_str()).as_str());
        }
    }
    assert(text::texts(notices@) =~= choice_lines(
        options.quiet,
        media.url@,
        inputs.input@,
        web::opt_url(inputs.audio),
    ));
    assert(text::texts(notices@).len() == notices@.len());
    let run = invocation(media, options, target, &inputs, outdated, controlled);
    Ok(Prepared { invocation: run, notices })
}

// ---------------------------------------------------------------------------
// Starting again
// ---------------------------------------------------------------------------

/// The seconds that a connection may take, of those that a fetch may take.
pub fn connect_timeout(timeout: u64) -> (r: u64)
    ensures
        r == (if timeout <= MAX_CONNECT_TIMEOUT {
            timeout
        } else {
            MAX_CONNECT_TIMEOUT
        }),
{
    if timeout <= MAX_CONNECT_TIMEOUT {
        timeout
    } else {
        MAX_CONNECT_TIMEOUT
    }
}

/// Whether a download that failed is started again: `restarts` counts how often
/// it was. Only a failure of FFmpeg that may pass is worth it, and a download
/// that was cancelled stays so.
pub open spec fn is_retried(
    retries: u32,
    restarts: u32,
    error: DownerError,
    cancelled: bool,
) -> bool {
    restarts < retries && !cancelled && (error matches DownerError::FfmpegFailed { stderr, .. }
        && failure::transient(stderr@))
}

pub fn should_retry(retries: u32, restarts: u32, error: &DownerError, cancelled: bool) -> (r: bool)
    ensures
        r == is_retried(retries, restarts, *error, cancelled),
{
    if restarts >= retries || cancelled {
        return false;
    }
    match error {
        DownerError::FfmpegFailed { status: _, stderr } => failure::is_transient(stderr.as_str()),
        _ => false,
    }
}

/// The run that starts a download again. What stands at its output is what the
/// run before it wrote, so it is written over.
pub fn restarted(run: FfmpegInvocation) -> (r: FfmpegInvocation)
    ensures
        r == (FfmpegInvocation { overwrite: true, ..run }),
{
    let mut again = run;
    again.overwrite = true;
    again
}

/// A download whose failure mentions a permanent cause is not started again,
/// however many attempts are allowed.
pub proof fn law_a_refusal_is_not_retried(
    before: Seq<char>,
    said: Seq<char>,
    after: Seq<char>,
    retries: u32,
    restarts: u32,
    error: DownerError,
    cancelled: bool,
)
    requires
        failure::permanent_phrases().contains(text::lower(said)),
        error matches DownerError::FfmpegFailed { stderr, .. } && stderr@ == before + said + after,
    ensures
        !is_retried(retries, restarts, error, cancelled),
{
    failure::law_permanent_outweighs_transient(before, said, after);
}

/// What is left to do when a download has ended.
#[derive(Debug)]
pub struct Conclusion {
    pub result: DownerResult<String>,
    /// Whether the file that this program made, and nothing was written to, is
    /// removed.
    pub release: bool,
    /// Whether what was written is removed.
    pub discard: bool,
}

/// Whether a conclusion is that of a download which ended in this way. A name
/// that was reserved and never written to is given back; what was written stays,
/// unless its user cancelled the download and does not want it.
pub open spec fn is_concluded(
    r: Conclusion,
    options: DownloadOptions,
    target: OutputTarget,
    outdated: Option<FfmpegVersion>,
    result: DownerResult<String>,
    size: Option<u64>,
    by_request: bool,
) -> bool {
    match result {
        Ok(path) => r.result matches Ok(p) && p@ == path@ && !r.release && !r.discard,
        Err(error) => {
            &&& r.release == (target.reserved && size == Some(0u64))
            &&& r.discard == (!options.keep_partial && by_request)
            &&& match (outdated, error) {
                (Some(old), DownerError::FfmpegFailed { status, stderr }) => {
                    &&& r.result matches Err(
                        DownerError::FfmpegTooOld { version, minimum, stderr: said },
                    )
                    &&& version == old
                    &&& minimum == ffmpeg::minimum_version()
                    &&& said@ == stderr@
                },
                _ => r.result == Err::<String, DownerError>(error),
            }
        },
    }
}

/// Decide what is left of a download that has ended. `size` is what its file
/// holds, if it is there, and `by_request` whether its user cancelled it.
pub fn conclude(
    options: &DownloadOptions,
    target: &OutputTarget,
    outdated: Option<FfmpegVersion>,
    result: DownerResult<String>,
    size: Option<u64>,
    by_request: bool,
) -> (r: Conclusion)
    ensures
        is_concluded(r, *options, *target, outdated, result, size, by_request),
{
    match result {
        Ok(path) => Conclusion { result: Ok(path), release: false, discard: false },
        Err(error) => {
            let release = output::release_reservation(target, size);
            let discard = !options.keep_partial && by_request;
            let shown = match outdated {
                Some(version) => match error {
                    DownerError::FfmpegFailed { status: _, stderr } => DownerError::FfmpegTooOld {
                        version,
                        minimum: ffmpeg::minimum_ffmpeg(),
                        stderr,
                    },
                    other => other,
                },
                None => error,
            };
            Conclusion { result: Err(shown), release, discard }
        },
    }
}

// ---------------------------------------------------------------------------
// The exit status
// ---------------------------------------------------------------------------

/// The exit status of the program for a failure: what a caller has to mend.
pub open spec fn exit_status(error: DownerError) -> i32 {
    match error {
        DownerError::InvalidUrl(_)
        | DownerError::CookieSource(_)
        | DownerError::HostArgument(_) => INVALID_INPUT_EXIT,
        DownerError::OutputExists(_)
        | DownerError::OutputPath(_)
        | DownerError::OutputDirectory(_)
        | DownerError::OutputIo(_) => OUTPUT_EXIT,
        DownerError::FfmpegUnavailable(_) | DownerError::FfmpegTooOld { .. } =>
        FFMPEG_UNAVAILABLE_EXIT,
        DownerError::FfmpegFailed { .. }
        | DownerError::SourceFetchFailed { .. }
        | DownerError::MediaNotFound(_)
        | DownerError::CandidateNotOffered(_)
        | DownerError::VariantNotOffered(_) => MEDIA_FAILURE_EXIT,
        DownerError::SetupCheckFailed => SETUP_EXIT,
        DownerError::NativeIo(_) | DownerError::Host(_) => 1,
    }
}

pub fn exit_code(error: &DownerError) -> (r: i32)
    ensures
        r == exit_status(*error),
{
    match error {
        DownerError::InvalidUrl(_)
        | DownerError::CookieSource(_)
        | DownerError::HostArgument(_) => INVALID_INPUT_EXIT,
        DownerError::OutputExists(_)
        | DownerError::OutputPath(_)
        | DownerError::OutputDirectory(_)
        | DownerError::OutputIo(_) => OUTPUT_EXIT,
        DownerError::FfmpegUnavailable(_) | DownerError::FfmpegTooOld { .. } =>
        FFMPEG_UNAVAILABLE_EXIT,
        DownerError::FfmpegFailed { .. }
        | DownerError::SourceFetchFailed { .. }
        | DownerError::MediaNotFound(_)
        | DownerError::CandidateNotOffered(_)
        | DownerError::VariantNotOffered(_) => MEDIA_FAILURE_EXIT,
        DownerError::SetupCheckFailed => SETUP_EXIT,
        DownerError::NativeIo(_) | DownerError::Host(_) => 1,
    }
}

/// No failure ends the program with the status of a success.
pub proof fn law_a_failure_is_never_a_success(error: DownerError)
    ensures
        exit_status(error) != 0,
{
}

/// A height as it is shown is read back as that height, and so are the words for
/// the best and the worst.
pub proof fn law_a_shown_rendition_is_read_back(choice: ChoiceView)
    requires
        !(choice is Exact),
    ensures
        scraper::worded_choice(rendition_text(choice)) == Some(choice),
{
    reveal_strlit("best");
    reveal_strlit("worst");
    reveal_strlit("p");
    reveal_strlit("pP");
    match choice {
        ChoiceView::Height(height) => {
            let digits = text::decimal(height as nat);
            let shown = digits + "p"@;
            output::lemma_decimal_value(height as nat);
            assert(text::is_digit(shown[0]));
            assert(text::lower(shown)[0] == shown[0]);
            assert(text::lower("best"@)[0] == 'b');
            assert(text::lower("worst"@)[0] == 'w');
            assert(shown.drop_last() =~= digits);
            assert("pP"@[0] == 'p');
            assert("pP"@.contains('p'));
            assert(text::is_digit(digits.last()));
            assert(!"pP"@.contains(digits.last()));
            assert(text::trim_end_of(digits, "pP"@) == digits);
            assert(text::trim_end_of(shown, "pP"@) == digits);
            lemma_no_times_sign(digits, digits.len() as int);
            assert(digits.skip(0) =~= digits);
        },
        ChoiceView::Worst => {
            assert(text::lower("best"@).len() == 4);
            assert(text::lower("worst"@).len() == 5);
        },
        _ => {},
    }
}

proof fn lemma_no_times_sign(s: Seq<char>, n: int)
    requires
        text::all_digits(s),
        0 <= n <= s.len(),
    ensures
        scraper::last_times_sign(s, n) == -1,
    decreases n,
{
    if n > 0 {
        assert(text::is_digit(s[n - 1]));
        lemma_no_times_sign(s, n - 1);
    }
}

} // verus!
