//! The native messaging host: what it is asked, and what it answers.
//!
//! The browser sends one message after the other over standard input, each with
//! its length before it, and reads the answers the same way. A host runs at most
//! one download.

use vstd::prelude::*;
use crate::{diagnostics, download, ffmpeg, native_laws, output, redact, scraper, text, web};
use crate::diagnostics::Report;
use crate::error::{DownerError, DownerResult};
use crate::ffmpeg::{ControlEvent, FfmpegProgress, ProcessControl, Reconnect, Signal};
use crate::download::DownloadOptions;
use crate::output::{NamingHints, OnConflict};
use crate::scraper::{HlsInfo, Playlist, PlaylistProblem, ResolvedMedia};
use crate::web::{Url, UrlView};

verus! {

/// The longest message that is read.
pub const MAX_MESSAGE_BYTES: u32 = 1048576;

/// The version of the protocol that this host speaks.
pub const PROTOCOL_VERSION: u32 = 1;

/// The version of a client from before there were versions.
pub const LEGACY_PROTOCOL_VERSION: u32 = 0;

pub const EVENT_HELLO: &'static str = "hello";

pub const EVENT_STATUS: &'static str = "status";

pub const EVENT_ACK: &'static str = "ack";

pub const EVENT_PROGRESS: &'static str = "progress";

pub const EVENT_LOG: &'static str = "log";

pub const EVENT_TERMINAL: &'static str = "terminal";

pub const EVENT_REJECTED: &'static str = "rejected";

pub const EVENT_CONTROL_ERROR: &'static str = "control-error";

pub const STATE_READY: &'static str = "ready";

pub const STATE_REJECTED: &'static str = "rejected";

pub const STATE_CONTROL_ERROR: &'static str = "control-error";

pub const ERROR_INVALID_REQUEST: &'static str = "invalid_request";

pub const ERROR_UNSUPPORTED_COMMAND: &'static str = "unsupported_command";

pub const ERROR_UNSUPPORTED_PROTOCOL_VERSION: &'static str = "unsupported_protocol_version";

pub const ERROR_DUPLICATE_JOB: &'static str = "duplicate_job";

pub const ERROR_HOST_BUSY: &'static str = "host_busy";

pub const ERROR_TASK_NOT_ACTIVE: &'static str = "task_not_active";

pub const ERROR_INVALID_HLS_INFO: &'static str = "invalid_hls_info";

pub const ERROR_DOWNLOAD_FAILED: &'static str = "download_failed";

pub const ERROR_CONTROL_FAILED: &'static str = "control_failed";

pub const ERROR_CANCELLED: &'static str = "cancelled";

pub const ERROR_RESUME_FAILED: &'static str = "resume_failed";

/// Who a download is fetched as when the browser does not say.
pub const DEFAULT_USER_AGENT: &'static str = "Mozilla/5.0 (Firefox; downer native host)";

// ---------------------------------------------------------------------------
// Frames
// ---------------------------------------------------------------------------

/// The number that four bytes stand for, the lowest first.
pub open spec fn little_endian(a: u8, b: u8, c: u8, d: u8) -> int {
    a + 256 * b + 65536 * c + 16777216 * d
}

/// The length of the message that follows four bytes; an error if it is longer
/// than any that is read.
pub fn message_length(a: u8, b: u8, c: u8, d: u8) -> (r: Result<u32, &'static str>)
    ensures
        match r {
            Ok(n) => n == little_endian(a, b, c, d) && n <= MAX_MESSAGE_BYTES,
            Err(reason) => little_endian(a, b, c, d) > MAX_MESSAGE_BYTES && reason@
                == "native message exceeds 1 MiB"@,
        },
{
    let n: u64 = a as u64 + 256 * b as u64 + 65536 * c as u64 + 16777216 * d as u64;
    if n > MAX_MESSAGE_BYTES as u64 {
        Err("native message exceeds 1 MiB")
    } else {
        Ok(n as u32)
    }
}

/// The four bytes before a message of a length; an error if they cannot hold it.
#[verifier::rlimit(40)]
pub fn length_prefix(length: usize) -> (r: Result<(u8, u8, u8, u8), &'static str>)
    ensures
        match r {
            Ok(p) => little_endian(p.0, p.1, p.2, p.3) == length,
            Err(reason) => length > u32::MAX && reason@ == "native response is too large"@,
        },
{
    let n: u64 = length as u64;
    if n > 4294967295 {
        return Err("native response is too large");
    }
    let a: u64 = n % 256;
    let b: u64 = n / 256 % 256;
    let c: u64 = n / 65536 % 256;
    let d: u64 = n / 16777216;
    Ok((a as u8, b as u8, c as u8, d as u8))
}

// ---------------------------------------------------------------------------
// Messages
// ---------------------------------------------------------------------------

/// What the browser asks.
#[derive(Debug)]
pub struct NativeRequest {
    pub command: String,
    pub protocol_version: Option<u32>,
    pub url: String,
    pub job_id: Option<String>,
    pub source_url: Option<String>,
    pub output_dir: Option<String>,
    pub playlist_text: Option<String>,
    pub ffmpeg: Option<String>,
    pub overwrite: bool,
    pub on_conflict: Option<OnConflict>,
    pub title: Option<String>,
    pub cookie: Option<String>,
    pub user_agent: Option<String>,
    pub threads: Option<u16>,
    pub request_id: Option<String>,
    pub total_segments: Option<u64>,
    pub total_duration_ms: Option<u64>,
    pub keep_partial: bool,
}

/// What a host can do.
#[derive(Debug, Clone, Copy, PartialEq, Eq, Structural)]
pub struct Capabilities {
    pub pause_resume: bool,
    pub hls_info: bool,
}

/// How much of a download is done.
#[derive(Debug, Clone, Copy, PartialEq, Eq, Structural)]
pub enum Percent {
    Nothing,
    /// So many segments of so many.
    Share(u64, u64),
    Everything,
}

/// What the host answers.
#[derive(Debug)]
pub struct NativeResponse {
    pub protocol_version: u32,
    pub event_type: &'static str,
    pub ok: bool,
    pub path: Option<String>,
    pub error: Option<String>,
    pub error_code: Option<&'static str>,
    pub host_version: Option<&'static str>,
    pub capabilities: Option<Capabilities>,
    pub status: Option<Report>,
    pub job_id: Option<String>,
    pub state: Option<String>,
    pub completed_segments: Option<u64>,
    pub total_segments: Option<u64>,
    pub percent: Option<Percent>,
    pub elapsed_ms: Option<u64>,
    pub metadata_error: Option<String>,
    pub request_id: Option<String>,
}

/// The fields of an answer.
#[verifier::ext_equal]
pub struct ResponseView {
    pub protocol_version: u32,
    pub event_type: Seq<char>,
    pub ok: bool,
    pub path: Option<Seq<char>>,
    pub error: Option<Seq<char>>,
    pub error_code: Option<Seq<char>>,
    pub host_version: Option<Seq<char>>,
    pub capabilities: Option<Capabilities>,
    pub status: Option<Report>,
    pub job_id: Option<Seq<char>>,
    pub state: Option<Seq<char>>,
    pub completed_segments: Option<u64>,
    pub total_segments: Option<u64>,
    pub percent: Option<Percent>,
    pub elapsed_ms: Option<u64>,
    pub metadata_error: Option<Seq<char>>,
    pub request_id: Option<Seq<char>>,
}

impl View for NativeResponse {
    type V = ResponseView;

    open spec fn view(&self) -> ResponseView {
        ResponseView {
            protocol_version: self.protocol_version,
            event_type: self.event_type@,
            ok: self.ok,
            path: text::opt_text(self.path),
            error: text::opt_text(self.error),
            error_code: text::opt_str(self.error_code),
            host_version: text::opt_str(self.host_version),
            capabilities: self.capabilities,
            status: self.status,
            job_id: text::opt_text(self.job_id),
            state: text::opt_text(self.state),
            completed_segments: self.completed_segments,
            total_segments: self.total_segments,
            percent: self.percent,
            elapsed_ms: self.elapsed_ms,
            metadata_error: text::opt_text(self.metadata_error),
            request_id: text::opt_text(self.request_id),
        }
    }
}

/// An answer that says nothing yet.
pub open spec fn blank() -> ResponseView {
    ResponseView {
        protocol_version: PROTOCOL_VERSION,
        event_type: EVENT_PROGRESS@,
        ok: true,
        path: None,
        error: None,
        error_code: None,
        host_version: None,
        capabilities: None,
        status: None,
        job_id: None,
        state: None,
        completed_segments: None,
        total_segments: None,
        percent: None,
        elapsed_ms: None,
        metadata_error: None,
        request_id: None,
    }
}

impl Default for NativeResponse {
    fn default() -> (r: NativeResponse)
        ensures
            r@ == blank(),
    {
        NativeResponse {
            protocol_version: PROTOCOL_VERSION,
            event_type: EVENT_PROGRESS,
            ok: true,
            path: None,
            error: None,
            error_code: None,
            host_version: None,
            capabilities: None,
            status: None,
            job_id: None,
            state: None,
            completed_segments: None,
            total_segments: None,
            percent: None,
            elapsed_ms: None,
            metadata_error: None,
            request_id: None,
        }
    }
}

/// A line of FFmpeg's output, on its way to the browser.
#[derive(Debug)]
pub struct NativeLogResponse {
    pub protocol_version: u32,
    pub event_type: &'static str,
    pub ok: bool,
    pub job_id: String,
    pub state: String,
    pub log: String,
}

/// Report a line of FFmpeg's output, without what it may not carry.
pub fn log_response(job_id: &str, line: &str) -> (r: NativeLogResponse)
    ensures
        r.protocol_version == PROTOCOL_VERSION,
        r.event_type@ == EVENT_LOG@,
        r.ok,
        r.job_id@ == job_id@,
        r.state@ == "downloading"@,
        r.log@ == redact::redacted_text(line@),
{
    NativeLogResponse {
        protocol_version: PROTOCOL_VERSION,
        event_type: EVENT_LOG,
        ok: true,
        job_id: text::owned(job_id),
        state: text::owned("downloading"),
        log: redact::redact_text(line),
    }
}

/// A request that is not served. It ends no download.
pub open spec fn rejection(
    code: Seq<char>,
    error: Seq<char>,
    request_id: Option<Seq<char>>,
    job_id: Option<Seq<char>>,
) -> ResponseView {
    ResponseView {
        event_type: EVENT_REJECTED@,
        ok: false,
        error: Some(error),
        error_code: Some(code),
        job_id,
        state: Some(STATE_REJECTED@),
        request_id,
        ..blank()
    }
}

pub fn rejected(
    error_code: &'static str,
    error: String,
    request_id: &Option<String>,
    job_id: Option<String>,
) -> (r: NativeResponse)
    ensures
        r@ == rejection(error_code@, error@, text::opt_text(*request_id), text::opt_text(job_id)),
{
    NativeResponse {
        event_type: EVENT_REJECTED,
        ok: false,
        error: Some(error),
        error_code: Some(error_code),
        job_id,
        state: Some(text::owned(STATE_REJECTED)),
        request_id: text::copy_opt(request_id),
        ..NativeResponse::default()
    }
}

/// A message that is no request.
pub fn invalid_request(reason: &str) -> (r: NativeResponse)
    ensures
        r@ == rejection(
            ERROR_INVALID_REQUEST@,
            "invalid native request: "@ + reason@,
            None,
            None,
        ),
{
    rejected(ERROR_INVALID_REQUEST, text::join2("invalid native request: ", reason), &None, None)
}

/// What a host says of itself.
pub open spec fn greeting(pause_resume: bool, request_id: Option<Seq<char>>) -> ResponseView {
    ResponseView {
        event_type: EVENT_HELLO@,
        state: Some(STATE_READY@),
        host_version: Some(diagnostics::HOST_VERSION@),
        capabilities: Some(Capabilities { pause_resume, hls_info: true }),
        request_id,
        ..blank()
    }
}

pub fn hello_response(pause_resume: bool, request_id: &Option<String>) -> (r: NativeResponse)
    ensures
        r@ == greeting(pause_resume, text::opt_text(*request_id)),
{
    NativeResponse {
        event_type: EVENT_HELLO,
        ok: true,
        state: Some(text::owned(STATE_READY)),
        host_version: Some(diagnostics::HOST_VERSION),
        capabilities: Some(Capabilities { pause_resume, hls_info: true }),
        request_id: text::copy_opt(request_id),
        ..NativeResponse::default()
    }
}

/// What a host says of its setup.
pub fn status_response(pause_resume: bool, report: Report, request_id: &Option<String>) -> (r:
    NativeResponse)
    ensures
        r@ == (ResponseView {
            event_type: EVENT_STATUS@,
            status: Some(report),
            ..greeting(pause_resume, text::opt_text(*request_id))
        }),
{
    NativeResponse {
        event_type: EVENT_STATUS,
        ok: true,
        state: Some(text::owned(STATE_READY)),
        host_version: Some(diagnostics::HOST_VERSION),
        capabilities: Some(Capabilities { pause_resume, hls_info: true }),
        status: Some(report),
        request_id: text::copy_opt(request_id),
        ..NativeResponse::default()
    }
}

/// A command to a download that failed. It ends no download.
pub open spec fn control_failure(
    job_id: Seq<char>,
    request_id: Option<Seq<char>>,
    code: Seq<char>,
    error: Seq<char>,
) -> ResponseView {
    ResponseView {
        event_type: EVENT_CONTROL_ERROR@,
        ok: false,
        error: Some(error),
        error_code: Some(code),
        job_id: Some(job_id),
        state: Some(STATE_CONTROL_ERROR@),
        request_id,
        ..blank()
    }
}

pub fn control_error(
    job_id: &str,
    request_id: &Option<String>,
    error_code: &'static str,
    error: &str,
) -> (r: NativeResponse)
    ensures
        r@ == control_failure(job_id@, text::opt_text(*request_id), error_code@, error@),
{
    NativeResponse {
        event_type: EVENT_CONTROL_ERROR,
        ok: false,
        error: Some(text::owned(error)),
        error_code: Some(error_code),
        job_id: Some(text::owned(job_id)),
        state: Some(text::owned(STATE_CONTROL_ERROR)),
        request_id: text::copy_opt(request_id),
        ..NativeResponse::default()
    }
}

// ---------------------------------------------------------------------------
// Requests
// ---------------------------------------------------------------------------

/// What a request asks for.
#[derive(Debug)]
pub enum Dispatch {
    Download,
    Hello,
    Status,
    /// Pause, resume or cancel the download.
    Control,
    HlsInfo,
    /// Nothing that can be done.
    Rejected(NativeResponse),
}

/// Whether a client's version of the protocol is understood.
pub open spec fn speaks(version: Option<u32>) -> bool {
    version is None || version == Some(PROTOCOL_VERSION) || version == Some(
        LEGACY_PROTOCOL_VERSION,
    )
}

/// Read what a request asks for. Its version comes before its command.
pub fn dispatch(request: &NativeRequest) -> (r: Dispatch)
    ensures
        !speaks(request.protocol_version) ==> (r matches Dispatch::Rejected(response)
            && response@ == rejection(
            ERROR_UNSUPPORTED_PROTOCOL_VERSION@,
            "unsupported protocol version "@ + text::decimal(request.protocol_version->0 as nat)
                + "; this host speaks version "@ + text::decimal(PROTOCOL_VERSION as nat),
            text::opt_text(request.request_id),
            None,
        )),
        speaks(request.protocol_version) ==> match r {
            Dispatch::Download => request.command@ == "download"@,
            Dispatch::Hello => request.command@ == "hello"@,
            Dispatch::Status => request.command@ == "status"@,
            Dispatch::Control => request.command@ == "pause"@ || request.command@ == "resume"@
                || request.command@ == "cancel"@,
            Dispatch::HlsInfo => request.command@ == "hls-info"@,
            Dispatch::Rejected(response) => {
                &&& request.command@ != "download"@ && request.command@ != "hello"@
                &&& request.command@ != "status"@ && request.command@ != "hls-info"@
                &&& request.command@ != "pause"@ && request.command@ != "resume"@
                &&& request.command@ != "cancel"@
                &&& response@ == rejection(
                    ERROR_UNSUPPORTED_COMMAND@,
                    "unsupported native command: "@ + request.command@,
                    text::opt_text(request.request_id),
                    None,
                )
            },
        },
{
    if let Some(version) = request.protocol_version {
        if version != PROTOCOL_VERSION && version != LEGACY_PROTOCOL_VERSION {
            let mut error = text::owned("unsupported protocol version ");
            error.append(text::decimal_of(version as u64).as_str());
            error.append("; this host speaks version ");
            error.append(text::decimal_of(PROTOCOL_VERSION as u64).as_str());
            return Dispatch::Rejected(
                rejected(ERROR_UNSUPPORTED_PROTOCOL_VERSION, error, &request.request_id, None),
            );
        }
    }
    proof {
        reveal_strlit("download");
        reveal_strlit("hello");
        reveal_strlit("status");
        reveal_strlit("pause");
        reveal_strlit("resume");
        reveal_strlit("cancel");
        reveal_strlit("hls-info");
    }
    let command = request.command.as_str();
    if text::same(command, "download") {
        Dispatch::Download
    } else if text::same(command, "hello") {
        Dispatch::Hello
    } else if text::same(command, "status") {
        Dispatch::Status
    } else if text::same(command, "pause") || text::same(command, "resume") || text::same(command, "cancel") {
        Dispatch::Control
    } else if text::same(command, "hls-info") {
        Dispatch::HlsInfo
    } else {
        Dispatch::Rejected(
            rejected(
                ERROR_UNSUPPORTED_COMMAND,
                text::join2("unsupported native command: ", command),
                &request.request_id,
                None,
            ),
        )
    }
}

/// The length of a playlist that a request states; none without segments.
pub open spec fn stated_info(segments: Option<u64>, duration: Option<u64>) -> Option<HlsInfo> {
    match (segments, duration) {
        (Some(total_segments), Some(total_duration_ms)) => if total_segments > 0 {
            Some(HlsInfo { total_segments, total_duration_ms })
        } else {
            None
        },
        _ => None,
    }
}

fn request_info(request: &NativeRequest) -> (r: Option<HlsInfo>)
    ensures
        r == stated_info(request.total_segments, request.total_duration_ms),
{
    match (request.total_segments, request.total_duration_ms) {
        (Some(total_segments), Some(total_duration_ms)) => if total_segments > 0 {
            Some(HlsInfo { total_segments, total_duration_ms })
        } else {
            None
        },
        _ => None,
    }
}

// ---------------------------------------------------------------------------
// Progress
// ---------------------------------------------------------------------------

/// The segments that are done after a time, if each is as long as any other.
pub open spec fn segments_done(info: HlsInfo, elapsed: Option<u64>) -> u64 {
    match elapsed {
        Some(time) => if info.total_duration_ms > 0 {
            let product = time * info.total_segments;
            let capped = if product > u64::MAX {
                u64::MAX as int
            } else {
                product
            };
            let done = capped / info.total_duration_ms as int;
            if done > info.total_segments {
                info.total_segments
            } else {
                done as u64
            }
        } else {
            0
        },
        None => 0,
    }
}

fn count_done(info: HlsInfo, elapsed: Option<u64>) -> (r: u64)
    ensures
        r == segments_done(info, elapsed),
        r <= info.total_segments,
        elapsed matches Some(time) ==> (info.total_duration_ms > 0 && time
            <= info.total_duration_ms && time * info.total_segments <= u64::MAX ==> r
            * info.total_duration_ms <= time * info.total_segments < (r + 1)
            * info.total_duration_ms),
{
    match elapsed {
        Some(time) => {
            if info.total_duration_ms == 0 {
                return 0;
            }
            proof {
                if time * info.total_segments <= u64::MAX {
                    native_laws::law_segments_are_done_as_time_passes(info, time);
                }
            }
            let total: u64 = info.total_segments;
            assert(0 <= time * total <= 18446744073709551615 * 18446744073709551615)
                by (nonlinear_arith)
                requires
                    0 <= time <= 18446744073709551615,
                    0 <= total <= 18446744073709551615,
            ;
            let product: u128 = (time as u128) * (total as u128);
            let capped: u64 = if product > 18446744073709551615 {
                18446744073709551615
            } else {
                product as u64
            };
            let done: u64 = capped / info.total_duration_ms;
            if done > total {
                total
            } else {
                done
            }
        },
        None => 0,
    }
}

fn state_word(paused: bool) -> (r: &'static str)
    ensures
        r@ == running_state(paused),
{
    if paused {
        "paused"
    } else {
        "downloading"
    }
}

/// The state of a download that runs.
pub open spec fn running_state(paused: bool) -> Seq<char> {
    if paused {
        "paused"@
    } else {
        "downloading"@
    }
}

/// A report of progress. It counts segments if the length of the playlist is
/// known; a download that has finished has all of them.
pub open spec fn progress_report(
    job_id: Seq<char>,
    info: Option<HlsInfo>,
    progress: Option<FfmpegProgress>,
    state: Seq<char>,
    request_id: Option<Seq<char>>,
) -> ResponseView {
    let base = ResponseView {
        job_id: Some(job_id),
        state: Some(state),
        elapsed_ms: match progress {
            Some(p) => p.out_time_ms,
            None => None,
        },
        request_id,
        ..blank()
    };
    match info {
        Some(i) => match progress {
            Some(p) => if p.finished {
                ResponseView {
                    completed_segments: Some(i.total_segments),
                    total_segments: Some(i.total_segments),
                    percent: Some(Percent::Everything),
                    ..base
                }
            } else {
                ResponseView {
                    completed_segments: Some(segments_done(i, p.out_time_ms)),
                    total_segments: Some(i.total_segments),
                    percent: if i.total_segments == 0 {
                        Some(Percent::Nothing)
                    } else {
                        Some(Percent::Share(segments_done(i, p.out_time_ms), i.total_segments))
                    },
                    ..base
                }
            },
            None => ResponseView {
                completed_segments: Some(0),
                total_segments: Some(i.total_segments),
                percent: Some(Percent::Nothing),
                ..base
            },
        },
        None => base,
    }
}

pub fn progress_response(
    job_id: &str,
    info: Option<HlsInfo>,
    progress: Option<FfmpegProgress>,
    state: &str,
    request_id: &Option<String>,
) -> (r: NativeResponse)
    ensures
        r@ == progress_report(job_id@, info, progress, state@, text::opt_text(*request_id)),
{
    let mut response = NativeResponse {
        job_id: Some(text::owned(job_id)),
        state: Some(text::owned(state)),
        elapsed_ms: match progress {
            Some(p) => p.out_time_ms,
            None => None,
        },
        request_id: text::copy_opt(request_id),
        ..NativeResponse::default()
    };
    if let Some(i) = info {
        response.total_segments = Some(i.total_segments);
        match progress {
            Some(p) => {
                if p.finished {
                    response.completed_segments = Some(i.total_segments);
                    response.percent = Some(Percent::Everything);
                } else {
                    let done = count_done(i, p.out_time_ms);
                    response.completed_segments = Some(done);
                    response.percent = if i.total_segments == 0 {
                        Some(Percent::Nothing)
                    } else {
                        Some(Percent::Share(done, i.total_segments))
                    };
                }
            },
            None => {
                response.completed_segments = Some(0);
                response.percent = Some(Percent::Nothing);
            },
        }
    }
    response
}

/// Whatever is reported of a download, the segments that are done are among
/// those that there are.
pub proof fn law_progress_stays_within_the_playlist(
    job_id: Seq<char>,
    info: HlsInfo,
    progress: Option<FfmpegProgress>,
    state: Seq<char>,
    request_id: Option<Seq<char>>,
)
    ensures
        ({
            let r = progress_report(job_id, Some(info), progress, state, request_id);
            r.total_segments == Some(info.total_segments) && r.completed_segments is Some
                && r.completed_segments->0 <= info.total_segments
        }),
{
    if let Some(p) = progress {
        if let Some(time) = p.out_time_ms {
            if info.total_duration_ms > 0 {
                let product = time * info.total_segments;
                let capped = if product > u64::MAX {
                    u64::MAX as int
                } else {
                    product
                };
                assert(0 <= product) by (nonlinear_arith)
                    requires
                        product == time * info.total_segments,
                        0 <= time,
                        0 <= info.total_segments,
                ;
                assert(0 <= capped / info.total_duration_ms as int <= u64::MAX)
                    by (nonlinear_arith)
                    requires
                        0 <= capped <= u64::MAX,
                        info.total_duration_ms > 0,
                ;
            }
        }
    }
}

// ---------------------------------------------------------------------------
// The download of a host
// ---------------------------------------------------------------------------

/// A download that runs.
#[derive(Debug)]
pub struct ActiveTask {
    pub control: ProcessControl,
    pub hls_info: Option<HlsInfo>,
    pub progress: Option<FfmpegProgress>,
    pub target: Option<String>,
}

impl ActiveTask {
    pub fn new(hls_info: Option<HlsInfo>) -> (r: ActiveTask)
        ensures
            r == (ActiveTask {
                control: ProcessControl::idle(),
                hls_info,
                progress: None,
                target: None,
            }),
    {
        ActiveTask { control: ProcessControl::new(), hls_info, progress: None, target: None }
    }
}

/// The one download of a host, with its name.
#[derive(Debug)]
pub struct JobSlot {
    pub job: Option<(String, ActiveTask)>,
}

impl JobSlot {
    /// The name of the download that runs.
    pub open spec fn id(&self) -> Seq<char> {
        (self.job->0).0@
    }

    /// The download that runs.
    pub open spec fn task(&self) -> ActiveTask {
        (self.job->0).1
    }

    /// Whether a download of a name runs.
    pub open spec fn runs(&self, job_id: Seq<char>) -> bool {
        self.job is Some && self.id() == job_id
    }

    pub fn new() -> (r: JobSlot)
        ensures
            r.job is None,
    {
        JobSlot { job: None }
    }

    pub fn is_running(&self, job_id: &str) -> (r: bool)
        ensures
            r == self.runs(job_id@),
    {
        match &self.job {
            Some(j) => text::same(j.0.as_str(), job_id),
            None => false,
        }
    }

    /// Begin a download, unless one runs. The answer says that it starts, or why
    /// it does not; a download that runs is not disturbed.
    pub fn start(&mut self, job_id: &str, request: &NativeRequest) -> (r: NativeResponse)
        ensures
            match old(self).job {
                Some(running) => *final(self) == *old(self) && r@ == rejection(
                    if running.0@ == job_id@ {
                        ERROR_DUPLICATE_JOB@
                    } else {
                        ERROR_HOST_BUSY@
                    },
                    if running.0@ == job_id@ {
                        "download task already exists: "@ + job_id@
                    } else {
                        "this host is already running download "@ + running.0@
                    },
                    text::opt_text(request.request_id),
                    Some(job_id@),
                ),
                None => {
                    let info = stated_info(request.total_segments, request.total_duration_ms);
                    &&& final(self).runs(job_id@)
                    &&& final(self).task() == (ActiveTask {
                        control: ProcessControl::idle(),
                        hls_info: info,
                        progress: None,
                        target: None,
                    })
                    &&& r@ == (ResponseView {
                        job_id: Some(job_id@),
                        state: Some("starting"@),
                        total_segments: match info {
                            Some(i) => Some(i.total_segments),
                            None => None,
                        },
                        percent: match info {
                            Some(_) => Some(Percent::Nothing),
                            None => None,
                        },
                        request_id: text::opt_text(request.request_id),
                        ..blank()
                    })
                },
            },
    {
        if let Some(running) = &self.job {
            if text::same(running.0.as_str(), job_id) {
                return rejected(
                    ERROR_DUPLICATE_JOB,
                    text::join2("download task already exists: ", job_id),
                    &request.request_id,
                    Some(text::owned(job_id)),
                );
            }
            return rejected(
                ERROR_HOST_BUSY,
                text::join2("this host is already running download ", running.0.as_str()),
                &request.request_id,
                Some(text::owned(job_id)),
            );
        }
        let info = request_info(request);
        self.job = Some((text::owned(job_id), ActiveTask::new(info)));
        NativeResponse {
            job_id: Some(text::owned(job_id)),
            state: Some(text::owned("starting")),
            total_segments: match info {
                Some(i) => Some(i.total_segments),
                None => None,
            },
            percent: match info {
                Some(_) => Some(Percent::Nothing),
                None => None,
            },
            request_id: text::copy_opt(&request.request_id),
            ..NativeResponse::default()
        }
    }

    /// Forget a download that has ended. One of another name stays.
    pub fn clear_job(&mut self, job_id: &str)
        ensures
            old(self).runs(job_id@) ==> final(self).job is None,
            !old(self).runs(job_id@) ==> *final(self) == *old(self),
    {
        if self.is_running(job_id) {
            self.job = None;
        }
    }

    /// Pause, resume or cancel the download.
    pub fn control_download(&mut self, request: &NativeRequest) -> (r: ControlStep)
        ensures
            ({
                let job_id = request_job(request.job_id);
                let request_id = text::opt_text(request.request_id);
                if !old(self).runs(job_id) {
                    *final(self) == *old(self) && (r matches ControlStep::Reply(response)
                        && response@ == control_failure(
                        job_id,
                        request_id,
                        ERROR_TASK_NOT_ACTIVE@,
                        "download task is not active"@,
                    ))
                } else {
                    let control = old(self).task().control;
                    &&& final(self).runs(job_id)
                    &&& final(self).task().hls_info == old(self).task().hls_info
                    &&& final(self).task().progress == old(self).task().progress
                    &&& final(self).task().target == old(self).task().target
                    &&& match command_of(request.command@) {
                        Some(command) => {
                            &&& final(self).task().control == control.after(command.event())
                            &&& if control.cancelled && command != ControlCommand::Cancel {
                                r matches ControlStep::Reply(response) && response@
                                    == control_failure(
                                    job_id,
                                    request_id,
                                    ERROR_CONTROL_FAILED@,
                                    ffmpeg::ALREADY_CANCELLED@,
                                )
                            } else if control.running {
                                r matches ControlStep::Deliver(signal, response) && signal
                                    == command.signal() && response@ == acknowledgement(
                                    job_id,
                                    command.state(),
                                    request_id,
                                )
                            } else {
                                r matches ControlStep::Reply(response) && response@
                                    == acknowledgement(job_id, command.state(), request_id)
                            }
                        },
                        None => final(self).task().control == control && (
                        r matches ControlStep::Reply(response) && response@ == control_failure(
                            job_id,
                            request_id,
                            ERROR_CONTROL_FAILED@,
                            "unsupported task control"@,
                        )),
                    }
                }
            }),
    {
        let job_id = match &request.job_id {
            Some(id) => text::owned(id.as_str()),
            None => {
                let id = String::new();
                proof {
                    reveal_strlit("");
                    assert(id@ =~= ""@);
                }
                id
            },
        };
        if !self.is_running(job_id.as_str()) {
            return ControlStep::Reply(
                control_error(
                    job_id.as_str(),
                    &request.request_id,
                    ERROR_TASK_NOT_ACTIVE,
                    "download task is not active",
                ),
            );
        }
        let command = match read_command(request.command.as_str()) {
            Some(c) => c,
            None => {
                return ControlStep::Reply(
                    control_error(
                        job_id.as_str(),
                        &request.request_id,
                        ERROR_CONTROL_FAILED,
                        "unsupported task control",
                    ),
                );
            },
        };
        let slot = self.job.take();
        let (id, mut task) = match slot {
            Some(j) => j,
            None => {
                return ControlStep::Reply(
                    control_error(
                        job_id.as_str(),
                        &request.request_id,
                        ERROR_TASK_NOT_ACTIVE,
                        "download task is not active",
                    ),
                );
            },
        };
        let mut control = task.control;
        let outcome: Result<Option<Signal>, String> = match command {
            ControlCommand::Pause => control.pause(),
            ControlCommand::Resume => control.resume(),
            ControlCommand::Cancel => Ok(control.cancel()),
        };
        task.control = control;
        self.job = Some((id, task));
        match outcome {
            Ok(signal) => {
                let response = NativeResponse {
                    event_type: EVENT_ACK,
                    ok: true,
                    job_id: Some(text::owned(job_id.as_str())),
                    state: Some(text::owned(command.state_text())),
                    request_id: text::copy_opt(&request.request_id),
                    ..NativeResponse::default()
                };
                match signal {
                    Some(s) => ControlStep::Deliver(s, response),
                    None => ControlStep::Reply(response),
                }
            },
            Err(reason) => ControlStep::Reply(
                control_error(
                    job_id.as_str(),
                    &request.request_id,
                    ERROR_CONTROL_FAILED,
                    reason.as_str(),
                ),
            ),
        }
    }

    /// A signal could not be delivered to the download of a name.
    pub fn control_refused(&mut self, request: &NativeRequest, signal: Signal, reason: &str) -> (r:
        NativeResponse)
        ensures
            r@ == control_failure(
                request_job(request.job_id),
                text::opt_text(request.request_id),
                ERROR_CONTROL_FAILED@,
                reason@,
            ),
            !(signal == Signal::Continue && old(self).runs(request_job(request.job_id)))
                ==> *final(self) == *old(self),
            signal == Signal::Continue && old(self).runs(request_job(request.job_id)) ==> {
                &&& final(self).runs(request_job(request.job_id))
                &&& final(self).task().control == old(self).task().control.after(
                    ControlEvent::ResumeRefused,
                )
                &&& final(self).task().hls_info == old(self).task().hls_info
                &&& final(self).task().progress == old(self).task().progress
                &&& final(self).task().target == old(self).task().target
            },
    {
        let job_id = match &request.job_id {
            Some(id) => text::owned(id.as_str()),
            None => {
                let id = String::new();
                proof {
                    reveal_strlit("");
                    assert(id@ =~= ""@);
                }
                id
            },
        };
        let resumed = match signal {
            Signal::Continue => true,
            _ => false,
        };
        if resumed && self.is_running(job_id.as_str()) {
            if let Some((id, mut task)) = self.job.take() {
                let mut control = task.control;
                control.resume_refused();
                task.control = control;
                self.job = Some((id, task));
            }
        }
        control_error(job_id.as_str(), &request.request_id, ERROR_CONTROL_FAILED, reason)
    }

    /// Take note of the length of the playlist that is downloaded.
    pub fn update_hls_info(&mut self, request: &NativeRequest) -> (r: NativeResponse)
        ensures
            ({
                let job_id = request_job(request.job_id);
                let request_id = text::opt_text(request.request_id);
                if !old(self).runs(job_id) {
                    *final(self) == *old(self) && r@ == control_failure(
                        job_id,
                        request_id,
                        ERROR_TASK_NOT_ACTIVE@,
                        "download task is not active"@,
                    )
                } else {
                    match stated_info(request.total_segments, request.total_duration_ms) {
                        None => *final(self) == *old(self) && r@ == control_failure(
                            job_id,
                            request_id,
                            ERROR_INVALID_HLS_INFO@,
                            "invalid HLS segment information"@,
                        ),
                        Some(info) => {
                            &&& final(self).runs(job_id)
                            &&& final(self).task().hls_info == Some(info)
                            &&& final(self).task().control == old(self).task().control
                            &&& final(self).task().progress == old(self).task().progress
                            &&& final(self).task().target == old(self).task().target
                            &&& r@ == progress_report(
                                job_id,
                                Some(info),
                                old(self).task().progress,
                                running_state(old(self).task().control.paused),
                                request_id,
                            )
                        },
                    }
                }
            }),
    {
        let job_id = match &request.job_id {
            Some(id) => text::owned(id.as_str()),
            None => {
                let id = String::new();
                proof {
                    reveal_strlit("");
                    assert(id@ =~= ""@);
                }
                id
            },
        };
        if !self.is_running(job_id.as_str()) {
            return control_error(
                job_id.as_str(),
                &request.request_id,
                ERROR_TASK_NOT_ACTIVE,
                "download task is not active",
            );
        }
        let info = match request_info(request) {
            Some(i) => i,
            None => {
                return control_error(
                    job_id.as_str(),
                    &request.request_id,
                    ERROR_INVALID_HLS_INFO,
                    "invalid HLS segment information",
                );
            },
        };
        match self.job.take() {
            Some((id, mut task)) => {
                task.hls_info = Some(info);
                let response = progress_response(
                    job_id.as_str(),
                    Some(info),
                    task.progress,
                    state_word(task.control.paused),
                    &request.request_id,
                );
                self.job = Some((id, task));
                response
            },
            None => NativeResponse::default(),
        }
    }

    /// The download of a name says how it stands, as long as it runs.
    pub open spec fn report(&self, progress: Option<FfmpegProgress>) -> ResponseView {
        progress_report(
            self.id(),
            self.task().hls_info,
            progress,
            running_state(self.task().control.paused),
            None,
        )
    }

    /// Report a download whose FFmpeg is about to start.
    pub fn begun(&self, job_id: &str) -> (r: Option<NativeResponse>)
        ensures
            match r {
                Some(response) => self.runs(job_id@) && response@ == self.report(None),
                None => !self.runs(job_id@),
            },
    {
        if !self.is_running(job_id) {
            return None;
        }
        match &self.job {
            Some(j) => Some(
                progress_response(job_id, j.1.hls_info, None, state_word(j.1.control.paused), &None),
            ),
            None => None,
        }
    }

    /// Take note of where the download of a name is written.
    pub fn targeted(&mut self, job_id: &str, path: String)
        ensures
            !old(self).runs(job_id@) ==> *final(self) == *old(self),
            old(self).runs(job_id@) ==> final(self).runs(job_id@) && final(self).task() == (
            ActiveTask { target: Some(path), ..old(self).task() }),
    {
        if !self.is_running(job_id) {
            return;
        }
        if let Some((id, mut task)) = self.job.take() {
            task.target = Some(path);
            self.job = Some((id, task));
        }
    }

    /// FFmpeg reported how far the download of a name has come.
    pub fn advanced(&mut self, job_id: &str, progress: FfmpegProgress) -> (r: Option<
        NativeResponse,
    >)
        ensures
            match r {
                Some(response) => {
                    &&& old(self).runs(job_id@)
                    &&& final(self).runs(job_id@)
                    &&& final(self).task() == (ActiveTask {
                        control: old(self).task().control.after(
                            ControlEvent::Progress(progress.out_time_ms),
                        ),
                        progress: Some(progress),
                        ..old(self).task()
                    })
                    &&& response@ == final(self).report(Some(progress))
                },
                None => !old(self).runs(job_id@) && *final(self) == *old(self),
            },
    {
        if !self.is_running(job_id) {
            return None;
        }
        match self.job.take() {
            Some((id, mut task)) => {
                let mut control = task.control;
                control.note_progress(progress.out_time_ms);
                task.control = control;
                task.progress = Some(progress);
                let response = progress_response(
                    job_id,
                    task.hls_info,
                    Some(progress),
                    state_word(task.control.paused),
                    &None,
                );
                self.job = Some((id, task));
                Some(response)
            },
            None => None,
        }
    }

    /// The length of the playlist that is downloaded was found out.
    pub fn found_hls_info(&mut self, job_id: &str, info: HlsInfo) -> (r: Option<NativeResponse>)
        ensures
            match r {
                Some(response) => {
                    &&& old(self).runs(job_id@)
                    &&& final(self).runs(job_id@)
                    &&& final(self).task() == (ActiveTask {
                        hls_info: Some(info),
                        ..old(self).task()
                    })
                    &&& response@ == final(self).report(old(self).task().progress)
                },
                None => !old(self).runs(job_id@) && *final(self) == *old(self),
            },
    {
        if !self.is_running(job_id) {
            return None;
        }
        match self.job.take() {
            Some((id, mut task)) => {
                task.hls_info = Some(info);
                let response = progress_response(
                    job_id,
                    Some(info),
                    task.progress,
                    state_word(task.control.paused),
                    &None,
                );
                self.job = Some((id, task));
                Some(response)
            },
            None => None,
        }
    }

    /// The length of the playlist that is downloaded could not be found out.
    pub fn missed_hls_info(&self, job_id: &str, problem: &PlaylistProblem) -> (r: Option<
        NativeResponse,
    >)
        ensures
            match r {
                Some(response) => self.runs(job_id@) && response@ == (
                ResponseView {
                    metadata_error: Some(redact::redacted_text(problem.text())),
                    ..progress_report(
                        job_id@,
                        None,
                        self.task().progress,
                        running_state(self.task().control.paused),
                        None,
                    )
                }),
                None => !self.runs(job_id@),
            },
    {
        if !self.is_running(job_id) {
            return None;
        }
        match &self.job {
            Some(j) => Some(metadata_problem(job_id, &j.1, problem)),
            None => None,
        }
    }

    /// A download that was cancelled before its FFmpeg could start: its last
    /// answer.
    pub fn dropped(&self, job_id: &str) -> (r: Option<NativeResponse>)
        ensures
            match r {
                Some(response) => self.runs(job_id@) && self.task().control.cancelled
                    && response@ == cancellation(job_id@, text::opt_text(self.task().target)),
                None => !(self.runs(job_id@) && self.task().control.cancelled),
            },
    {
        if !self.is_running(job_id) {
            return None;
        }
        match &self.job {
            Some((_, task)) => if task.control.cancelled {
                Some(cancelled_response(job_id, task))
            } else {
                None
            },
            None => None,
        }
    }

    /// The download of a name has ended: its last answer.
    pub fn ended(&self, job_id: &str, result: &DownerResult<String>) -> (r: Option<NativeResponse>)
        ensures
            match r {
                Some(response) => self.runs(job_id@) && response@ == last_answer(
                    job_id@,
                    self.task(),
                    *result,
                ),
                None => !self.runs(job_id@),
            },
    {
        if !self.is_running(job_id) {
            return None;
        }
        match &self.job {
            Some((_, task)) => Some(terminal_response(job_id, task, result)),
            None => None,
        }
    }

    /// Cancel the download because the host ends.
    pub fn cancel_for_shutdown(&mut self) -> (r: Option<Signal>)
        ensures
            match old(self).job {
                Some((id, task)) => {
                    &&& final(self).runs(id@)
                    &&& final(self).task() == (ActiveTask {
                        control: task.control.after(ControlEvent::Shutdown),
                        ..task
                    })
                    &&& r == (if task.control.running {
                        Some(Signal::Kill)
                    } else {
                        None
                    })
                },
                None => final(self).job is None && r is None,
            },
    {
        match self.job.take() {
            Some((id, mut task)) => {
                let mut control = task.control;
                let signal = control.cancel_for_shutdown();
                task.control = control;
                self.job = Some((id, task));
                signal
            },
            None => None,
        }
    }
}

/// The download that a request is about.
pub open spec fn request_job(job_id: Option<String>) -> Seq<char> {
    match job_id {
        Some(id) => id@,
        None => ""@,
    }
}

/// What can be asked of a download that runs.
#[derive(Debug, Clone, Copy, PartialEq, Eq, Structural)]
pub enum ControlCommand {
    Pause,
    Resume,
    Cancel,
}

impl ControlCommand {
    /// What happens to the download.
    pub open spec fn event(self) -> ControlEvent {
        match self {
            ControlCommand::Pause => ControlEvent::Pause,
            ControlCommand::Resume => ControlEvent::Resume,
            ControlCommand::Cancel => ControlEvent::Cancel,
        }
    }

    /// What its process is sent.
    pub open spec fn signal(self) -> Signal {
        match self {
            ControlCommand::Pause => Signal::Stop,
            ControlCommand::Resume => Signal::Continue,
            ControlCommand::Cancel => Signal::Kill,
        }
    }

    /// The state that the download is in then.
    pub open spec fn state(self) -> Seq<char> {
        match self {
            ControlCommand::Pause => "paused"@,
            ControlCommand::Resume => "downloading"@,
            ControlCommand::Cancel => "cancelling"@,
        }
    }

    fn state_text(self) -> (r: &'static str)
        ensures
            r@ == self.state(),
    {
        match self {
            ControlCommand::Pause => "paused",
            ControlCommand::Resume => "downloading",
            ControlCommand::Cancel => "cancelling",
        }
    }
}

/// The command that a word stands for.
pub open spec fn command_of(word: Seq<char>) -> Option<ControlCommand> {
    if word == "pause"@ {
        Some(ControlCommand::Pause)
    } else if word == "resume"@ {
        Some(ControlCommand::Resume)
    } else if word == "cancel"@ {
        Some(ControlCommand::Cancel)
    } else {
        None
    }
}

fn read_command(word: &str) -> (r: Option<ControlCommand>)
    ensures
        r == command_of(word@),
{
    if text::same(word, "pause") {
        Some(ControlCommand::Pause)
    } else if text::same(word, "resume") {
        Some(ControlCommand::Resume)
    } else if text::same(word, "cancel") {
        Some(ControlCommand::Cancel)
    } else {
        None
    }
}

/// What follows a command: an answer, or a signal and the answer to give once it
/// was delivered.
#[derive(Debug)]
pub enum ControlStep {
    Reply(NativeResponse),
    Deliver(Signal, NativeResponse),
}

/// The answer to a command that was carried out.
pub open spec fn acknowledgement(
    job_id: Seq<char>,
    state: Seq<char>,
    request_id: Option<Seq<char>>,
) -> ResponseView {
    ResponseView {
        event_type: EVENT_ACK@,
        job_id: Some(job_id),
        state: Some(state),
        request_id,
        ..blank()
    }
}

// ---------------------------------------------------------------------------
// The end of a download
// ---------------------------------------------------------------------------

/// A download that is complete.
pub open spec fn completion(
    job_id: Seq<char>,
    path: Seq<char>,
    info: Option<HlsInfo>,
    progress: Option<FfmpegProgress>,
) -> ResponseView {
    let last = FfmpegProgress {
        out_time_ms: match progress {
            Some(p) => p.out_time_ms,
            None => None,
        },
        finished: true,
    };
    ResponseView {
        event_type: EVENT_TERMINAL@,
        path: Some(path),
        ..progress_report(job_id, info, Some(last), "completed"@, None)
    }
}

pub fn completed_response(job_id: &str, path: &str, task: &ActiveTask) -> (r: NativeResponse)
    ensures
        r@ == completion(job_id@, path@, task.hls_info, task.progress),
{
    let last = FfmpegProgress {
        out_time_ms: match task.progress {
            Some(p) => p.out_time_ms,
            None => None,
        },
        finished: true,
    };
    let mut response = progress_response(job_id, task.hls_info, Some(last), "completed", &None);
    response.event_type = EVENT_TERMINAL;
    response.path = Some(text::owned(path));
    response
}

/// A download that was cancelled.
pub open spec fn cancellation(job_id: Seq<char>, target: Option<Seq<char>>) -> ResponseView {
    ResponseView {
        event_type: EVENT_TERMINAL@,
        ok: false,
        path: target,
        error: Some("download cancelled"@),
        error_code: Some(ERROR_CANCELLED@),
        job_id: Some(job_id),
        state: Some("cancelled"@),
        ..blank()
    }
}

pub fn cancelled_response(job_id: &str, task: &ActiveTask) -> (r: NativeResponse)
    ensures
        r@ == cancellation(job_id@, text::opt_text(task.target)),
{
    NativeResponse {
        event_type: EVENT_TERMINAL,
        ok: false,
        path: text::copy_opt(&task.target),
        error: Some(text::owned("download cancelled")),
        error_code: Some(ERROR_CANCELLED),
        job_id: Some(text::owned(job_id)),
        state: Some(text::owned("cancelled")),
        ..NativeResponse::default()
    }
}

/// A download that failed; one that was resumed and never went on, says so.
pub open spec fn failure_report(
    job_id: Seq<char>,
    target: Option<Seq<char>>,
    error: Seq<char>,
    resume_pending: bool,
) -> ResponseView {
    ResponseView {
        event_type: EVENT_TERMINAL@,
        ok: false,
        path: target,
        error: Some(redact::redacted_text(error)),
        error_code: Some(
            if resume_pending {
                ERROR_RESUME_FAILED@
            } else {
                ERROR_DOWNLOAD_FAILED@
            },
        ),
        job_id: Some(job_id),
        state: Some("failed"@),
        ..blank()
    }
}

pub fn failed_response(job_id: &str, task: &ActiveTask, error: &DownerError) -> (r: NativeResponse)
    ensures
        r@ == failure_report(job_id@, text::opt_text(task.target), error.text(), task.control.pending),
{
    let message = error.message();
    NativeResponse {
        event_type: EVENT_TERMINAL,
        ok: false,
        path: text::copy_opt(&task.target),
        error: Some(redact::redact_text(message.as_str())),
        error_code: Some(
            if task.control.pending {
                ERROR_RESUME_FAILED
            } else {
                ERROR_DOWNLOAD_FAILED
            },
        ),
        job_id: Some(text::owned(job_id)),
        state: Some(text::owned("failed")),
        ..NativeResponse::default()
    }
}

/// The last answer about a download. One that was cancelled says so, whatever
/// else came of it.
pub open spec fn last_answer(
    job_id: Seq<char>,
    task: ActiveTask,
    result: DownerResult<String>,
) -> ResponseView {
    if task.control.cancelled {
        cancellation(job_id, text::opt_text(task.target))
    } else {
        match result {
            Ok(path) => completion(job_id, path@, task.hls_info, task.progress),
            Err(error) => failure_report(
                job_id,
                text::opt_text(task.target),
                error.text(),
                task.control.pending,
            ),
        }
    }
}

pub fn terminal_response(job_id: &str, task: &ActiveTask, result: &DownerResult<String>) -> (r:
    NativeResponse)
    ensures
        r@ == last_answer(job_id@, *task, *result),
{
    if task.control.cancelled {
        return cancelled_response(job_id, task);
    }
    match result {
        Ok(path) => completed_response(job_id, path.as_str(), task),
        Err(error) => failed_response(job_id, task, error),
    }
}

/// The playlist of a download could not be read, which does not end it.
pub fn metadata_problem(job_id: &str, task: &ActiveTask, problem: &PlaylistProblem) -> (r:
    NativeResponse)
    ensures
        r@ == (ResponseView {
            metadata_error: Some(redact::redacted_text(problem.text())),
            ..progress_report(
                job_id@,
                None,
                task.progress,
                running_state(task.control.paused),
                None,
            )
        }),
{
    let state = state_word(task.control.paused);
    let mut response = progress_response(job_id, None, task.progress, state, &None);
    let message = problem.message();
    response.metadata_error = Some(redact::redact_text(message.as_str()));
    response
}

/// Whether the length of a playlist is still to be found out.
pub fn needs_preflight(request: &NativeRequest, task: &ActiveTask) -> (r: bool)
    ensures
        r == (task.hls_info is None && download::hls_url(request.url@)),
{
    task.hls_info.is_none() && download::is_hls(request.url.as_str())
}

/// How the length of a playlist is found out.
#[derive(Debug)]
pub enum Preflight {
    /// It is known, not wanted, or there is no URL to find it at.
    Skip,
    /// The playlist that came with the request states it.
    Known(HlsInfo),
    /// The playlist at a URL is fetched, as from a page.
    Fetch(Url, Option<Url>),
}

/// The page that a request names, if its URL can be fetched.
pub open spec fn stated_page(source: Option<Seq<char>>) -> Option<UrlView> {
    match source {
        Some(raw) => match output::url_verdict(raw, web::url_parse(raw)) {
            Ok(page) => Some(page),
            Err(_) => None,
        },
        None => None,
    }
}

/// What a playlist that came with a request states of its length. `durations`
/// are those in it, in milliseconds.
pub open spec fn supplied_info(text: Option<Seq<char>>, durations: Seq<Option<u64>>) -> Option<
    HlsInfo,
> {
    match text {
        Some(t) => if scraper::is_master(t) {
            None
        } else {
            scraper::hls_totals(durations)
        },
        None => None,
    }
}

/// Choose between the playlist that came with a request and that at its URL.
pub fn preflight_at(
    text: &Option<String>,
    durations: &Vec<Option<u64>>,
    url: Url,
    page: Option<Url>,
) -> (r: Preflight)
    requires
        scraper::read_total(durations@) <= u64::MAX,
    ensures
        match supplied_info(text::opt_text(*text), durations@) {
            Some(info) => r matches Preflight::Known(i) && i == info,
            None => r matches Preflight::Fetch(target, from) && target == url && from == page,
        },
{
    if let Some(t) = text {
        if let Playlist::Media(info) = scraper::parse_playlist(t.as_str(), &url, durations) {
            return Preflight::Known(info);
        }
    }
    Preflight::Fetch(url, page)
}

/// Decide how the length of a playlist is found out. `durations` are those of
/// the playlist that came with the request, in milliseconds.
pub fn preflight(request: &NativeRequest, task: &ActiveTask, durations: &Vec<Option<u64>>) -> (r:
    Preflight)
    requires
        scraper::read_total(durations@) <= u64::MAX,
    ensures
        if !(task.hls_info is None && download::hls_url(request.url@)) {
            r is Skip
        } else {
            match output::url_verdict(request.url@, web::url_parse(request.url@)) {
                Err(_) => r is Skip,
                Ok(url) => match supplied_info(text::opt_text(request.playlist_text), durations@) {
                    Some(info) => r matches Preflight::Known(i) && i == info,
                    None => r matches Preflight::Fetch(target, page) && target@ == url && web::opt_url(
                        page,
                    ) == stated_page(text::opt_text(request.source_url)),
                },
            }
        },
{
    if !needs_preflight(request, task) {
        return Preflight::Skip;
    }
    let url = match output::validate_url(request.url.as_str()) {
        Ok(url) => url,
        Err(_) => {
            return Preflight::Skip;
        },
    };
    let page = match &request.source_url {
        Some(source) => match output::validate_url(source.as_str()) {
            Ok(page) => Some(page),
            Err(_) => None,
        },
        None => None,
    };
    preflight_at(&request.playlist_text, durations, url, page)
}

// ---------------------------------------------------------------------------
// From a request to a download
// ---------------------------------------------------------------------------

/// Who a download is fetched as.
pub open spec fn agent_of(user_agent: Option<String>) -> Seq<char> {
    match user_agent {
        Some(agent) => agent@,
        None => DEFAULT_USER_AGENT@,
    }
}

pub fn request_agent(request: &NativeRequest) -> (r: String)
    ensures
        r@ == agent_of(request.user_agent),
{
    match &request.user_agent {
        Some(agent) => text::owned(agent.as_str()),
        None => text::owned(DEFAULT_USER_AGENT),
    }
}

/// The media that a request asks for.
pub fn requested_media(request: &NativeRequest) -> (r: DownerResult<ResolvedMedia>)
    ensures
        match output::url_verdict(request.url@, web::url_parse(request.url@)) {
            Err(why) => r matches Err(DownerError::InvalidUrl(reason)) && reason@ == why,
            Ok(url) => match request.source_url {
                None => r matches Ok(media) && media.url@ == url && media.referer is None
                    && media.user_agent@ == agent_of(request.user_agent),
                Some(source) => match output::url_verdict(source@, web::url_parse(source@)) {
                    Err(why) => r matches Err(DownerError::InvalidUrl(reason)) && reason@ == why,
                    Ok(page) => r matches Ok(media) && media.url@ == url && web::opt_url(media.referer)
                        == Some(page) && media.user_agent@ == agent_of(request.user_agent),
                },
            },
        },
{
    let url = match output::validate_url(request.url.as_str()) {
        Ok(u) => u,
        Err(error) => {
            return Err(error);
        },
    };
    let referer = match &request.source_url {
        Some(source) => match output::validate_url(source.as_str()) {
            Ok(page) => Some(page),
            Err(error) => {
                return Err(error);
            },
        },
        None => None,
    };
    Ok(ResolvedMedia { url, referer, user_agent: request_agent(request) })
}

/// How a request is downloaded: into its directory, else the usual one, which
/// must be known then.
pub fn requested_options(
    request: &NativeRequest,
    default_dir: &Option<String>,
    default_ffmpeg: &str,
) -> (r: DownerResult<DownloadOptions>)
    ensures
        match r {
            Ok(o) => {
                &&& o.output is None
                &&& text::opt_text(o.dir) == (if request.output_dir is Some {
                    text::opt_text(request.output_dir)
                } else {
                    text::opt_text(*default_dir)
                })
                &&& o.dir is Some
                &&& o.overwrite == request.overwrite
                &&& o.on_conflict == request.on_conflict
                &&& text::opt_text(o.naming.title) == text::opt_text(request.title)
                &&& o.ffmpeg@ == (match text::opt_text(request.ffmpeg) {
                    Some(f) => f,
                    None => default_ffmpeg@,
                })
                &&& o.user_agent@ == agent_of(request.user_agent)
                &&& text::opt_text(o.cookie) == text::opt_text(request.cookie)
                &&& o.threads == request.threads
                &&& o.quiet
                &&& text::opt_text(o.playlist_text) == text::opt_text(request.playlist_text)
                &&& o.rendition is None
                &&& o.keep_partial == request.keep_partial
                &&& o.reconnect == Some(Reconnect { delay_max: ffmpeg::DEFAULT_RECONNECT_DELAY_MAX })
                &&& o.retries == 0
                &&& o.timeout == download::DEFAULT_TIMEOUT
            },
            Err(DownerError::OutputPath(reason)) => request.output_dir is None && default_dir
                is None && reason@ == output::NO_DEFAULT_DIRECTORY@,
            Err(_) => false,
        },
{
    let dir = match &request.output_dir {
        Some(d) => text::owned(d.as_str()),
        None => match default_dir {
            Some(d) => text::owned(d.as_str()),
            None => {
                return Err(DownerError::OutputPath(text::owned(output::NO_DEFAULT_DIRECTORY)));
            },
        },
    };
    let ffmpeg = match &request.ffmpeg {
        Some(f) => text::owned(f.as_str()),
        None => text::owned(default_ffmpeg),
    };
    Ok(
        DownloadOptions {
            output: None,
            dir: Some(dir),
            overwrite: request.overwrite,
            on_conflict: request.on_conflict,
            naming: NamingHints::new(text::copy_opt(&request.title)),
            ffmpeg,
            user_agent: request_agent(request),
            cookie: text::copy_opt(&request.cookie),
            threads: request.threads,
            quiet: true,
            playlist_text: text::copy_opt(&request.playlist_text),
            rendition: None,
            keep_partial: request.keep_partial,
            reconnect: Some(Reconnect { delay_max: ffmpeg::DEFAULT_RECONNECT_DELAY_MAX }),
            retries: 0,
            timeout: download::DEFAULT_TIMEOUT,
        },
    )
}

/// The FFmpeg that is run: the environment's, else the recorded one, else the
/// first of the usual places at which there is one, else whatever is found.
pub fn ffmpeg_path(
    environment: &Option<String>,
    configured: &Option<String>,
    in_homebrew: bool,
    in_local: bool,
) -> (r: String)
    ensures
        r@ == (match (text::opt_text(*environment), text::opt_text(*configured)) {
            (Some(e), _) => e,
            (None, Some(c)) => c,
            (None, None) => if in_homebrew {
                "/opt/homebrew/bin/ffmpeg"@
            } else if in_local {
                "/usr/local/bin/ffmpeg"@
            } else {
                "ffmpeg"@
            },
        }),
{
    if let Some(e) = environment {
        return text::owned(e.as_str());
    }
    if let Some(c) = configured {
        return text::owned(c.as_str());
    }
    if in_homebrew {
        text::owned("/opt/homebrew/bin/ffmpeg")
    } else if in_local {
        text::owned("/usr/local/bin/ffmpeg")
    } else {
        text::owned("ffmpeg")
    }
}

/// A name for a download that was given none: when it was asked for, and the
/// how-manyth of this host it is.
pub open spec fn job_name(millis: nat, sequence: nat) -> Seq<char> {
    "native-"@ + text::decimal(millis) + "-"@ + text::decimal(sequence)
}

pub fn next_job_id(millis: u64, sequence: u64) -> (r: String)
    ensures
        r@ == job_name(millis as nat, sequence as nat),
{
    let mut r = text::join3("native-", text::decimal_of(millis).as_str(), "-");
    r.append(text::decimal_of(sequence).as_str());
    r
}

// ---------------------------------------------------------------------------
// Laws
// ---------------------------------------------------------------------------

proof fn lemma_lowest_byte(a: int, rest: int, a2: int, rest2: int)
    requires
        0 <= a < 256,
        0 <= a2 < 256,
        a + 256 * rest == a2 + 256 * rest2,
    ensures
        a == a2,
        rest == rest2,
{
}

/// A length has one prefix only, so a frame that was written is read back as it
/// was.
pub proof fn law_a_length_is_read_back(
    a: u8,
    b: u8,
    c: u8,
    d: u8,
    a2: u8,
    b2: u8,
    c2: u8,
    d2: u8,
)
    requires
        little_endian(a, b, c, d) == little_endian(a2, b2, c2, d2),
    ensures
        a == a2 && b == b2 && c == c2 && d == d2,
{
    let (c0, c1) = (c + 256 * d, c2 + 256 * d2);
    let (b0, b1) = (b + 256 * c0, b2 + 256 * c1);
    lemma_lowest_byte(a as int, b0, a2 as int, b1);
    lemma_lowest_byte(b as int, c0, b2 as int, c1);
    lemma_lowest_byte(c as int, d as int, c2 as int, d2 as int);
}

/// Whether an answer ends the download that it names.
pub open spec fn is_terminal(r: ResponseView) -> bool {
    r.event_type == EVENT_TERMINAL@ || r.state == Some("completed"@) || r.state == Some("failed"@)
        || r.state == Some("cancelled"@)
}

/// Neither a request that is not served nor a command that fails ends a
/// download.
pub proof fn law_a_refusal_ends_no_download(
    code: Seq<char>,
    error: Seq<char>,
    request_id: Option<Seq<char>>,
    job_id: Option<Seq<char>>,
    job: Seq<char>,
)
    ensures
        !is_terminal(rejection(code, error, request_id, job_id)),
        !is_terminal(control_failure(job, request_id, code, error)),
{
    reveal_strlit("terminal");
    reveal_strlit("completed");
    reveal_strlit("failed");
    reveal_strlit("cancelled");
    reveal_strlit("rejected");
    reveal_strlit("control-error");
    assert("rejected"@[0] == 'r');
    assert("terminal"@[0] == 't');
    assert("control-error"@.len() == 13);
    assert("completed"@.len() == 9);
    assert("failed"@.len() == 6);
    assert("cancelled"@.len() == 9);
    assert("rejected"@.len() == 8);
    assert("terminal"@.len() == 8);
}

/// However a download ends, its last answer ends it, and it says so of the
/// download that was asked for.
pub proof fn law_every_end_is_terminal(
    job_id: Seq<char>,
    task: ActiveTask,
    result: DownerResult<String>,
)
    ensures
        is_terminal(last_answer(job_id, task, result)),
        last_answer(job_id, task, result).job_id == Some(job_id),
        last_answer(job_id, task, result).ok == (result is Ok && !task.control.cancelled),
{
}

/// No two downloads that were given no name get the same one.
pub proof fn law_job_names_differ(millis: nat, sequence: nat, millis2: nat, sequence2: nat)
    requires
        millis != millis2 || sequence != sequence2,
    ensures
        job_name(millis, sequence) != job_name(millis2, sequence2),
{
    reveal_strlit("native-");
    reveal_strlit("-");
    output::lemma_decimal_value(millis);
    output::lemma_decimal_value(millis2);
    output::lemma_decimal_value(sequence);
    output::lemma_decimal_value(sequence2);
    let head = "native-"@.len() as int;
    let a = text::decimal(millis);
    let b = text::decimal(millis2);
    let one = job_name(millis, sequence);
    let other = job_name(millis2, sequence2);
    if one == other {
        assert(one[head + a.len()] == '-');
        assert(other[head + b.len()] == '-');
        if a.len() < b.len() {
            assert(other[head + a.len()] == b[a.len() as int]);
            assert(text::is_digit(b[a.len() as int]));
        } else if b.len() < a.len() {
            assert(one[head + b.len()] == a[b.len() as int]);
            assert(text::is_digit(a[b.len() as int]));
        }
        assert(a =~= one.subrange(head, head + a.len()));
        assert(b =~= other.subrange(head, head + b.len()));
        assert(text::decimal(sequence) =~= one.skip(head + a.len() + 1));
        assert(text::decimal(sequence2) =~= other.skip(head + b.len() + 1));
    }
}

} // verus!
