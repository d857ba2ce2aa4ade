//! What the answers of the native host amount to, stated without the definitions
//! of the answers.

use vstd::prelude::*;
use crate::{native, output, redact, scraper, text, web};
use crate::error::DownerResult;
use crate::ffmpeg::{ControlEvent, FfmpegProgress, Signal};
use crate::native::{ActiveTask, ControlCommand, JobSlot, Percent};
use crate::scraper::HlsInfo;
use crate::web::UrlView;

verus! {

// ---------------------------------------------------------------------------
// Progress
// ---------------------------------------------------------------------------

/// After a time within a playlist, so many segments are done as fit into that
/// time, and one more would not fit: the share of the segments that are done is
/// the share of the length that has passed, rounded down. When all of the length
/// has passed, all segments are done.
pub proof fn law_segments_are_done_as_time_passes(info: HlsInfo, elapsed: u64)
    requires
        info.total_duration_ms > 0,
        elapsed * info.total_segments <= u64::MAX,
    ensures
        ({
            let c = native::segments_done(info, Some(elapsed));
            &&& elapsed <= info.total_duration_ms ==> c * info.total_duration_ms <= elapsed
                * info.total_segments < (c + 1) * info.total_duration_ms
            &&& elapsed >= info.total_duration_ms ==> c == info.total_segments
        }),
{
    let n = info.total_segments as int;
    let d = info.total_duration_ms as int;
    let t = elapsed as int;
    let q = (t * n) / d;
    assert(0 <= t * n) by (nonlinear_arith)
        requires
            0 <= t,
            0 <= n,
    ;
    assert(q * d <= t * n < (q + 1) * d && 0 <= q) by (nonlinear_arith)
        requires
            q == (t * n) / d,
            d > 0,
            0 <= t * n,
    ;
    assert(q <= t * n) by (nonlinear_arith)
        requires
            q * d <= t * n,
            d >= 1,
            q >= 0,
    ;
    if t <= d {
        assert(q <= n) by (nonlinear_arith)
            requires
                q * d <= t * n,
                t <= d,
                d > 0,
                n >= 0,
        ;
    }
    if t >= d {
        assert(q >= n) by (nonlinear_arith)
            requires
                t * n < (q + 1) * d,
                t >= d,
                d > 0,
                n >= 0,
        ;
    }
}

/// Where the product of time and segments is beyond what is counted with, the
/// largest number that is counted with stands for it, and no more segments are done
/// than there are.
pub proof fn law_a_product_beyond_counting_is_the_largest(info: HlsInfo, elapsed: u64)
    requires
        info.total_duration_ms > 0,
        elapsed * info.total_segments > u64::MAX,
    ensures
        ({
            let c = native::segments_done(info, Some(elapsed));
            &&& c <= info.total_segments
            &&& c * info.total_duration_ms <= u64::MAX
            &&& c == info.total_segments || (c + 1) * info.total_duration_ms > u64::MAX
        }),
{
    let n = info.total_segments as int;
    let d = info.total_duration_ms as int;
    let m = u64::MAX as int;
    let q = m / d;
    assert(q * d <= m < (q + 1) * d && 0 <= q <= m) by (nonlinear_arith)
        requires
            q == m / d,
            d > 0,
            m > 0,
    ;
    if q > n {
        assert(n * d <= q * d) by (nonlinear_arith)
            requires
                n <= q,
                d > 0,
        ;
    }
}

/// The number of segments that are done never falls as time passes, and before
/// any time is known, or in a playlist without length, none is done.
pub proof fn law_segments_stay_done(info: HlsInfo, elapsed: u64, later: u64)
    requires
        elapsed <= later,
    ensures
        native::segments_done(info, Some(elapsed)) <= native::segments_done(info, Some(later)),
        native::segments_done(info, Some(later)) <= info.total_segments,
        native::segments_done(info, None) == 0,
        native::segments_done(info, Some(0)) == 0,
        info.total_duration_ms == 0 ==> native::segments_done(info, Some(later)) == 0,
{
    let n = info.total_segments as int;
    let d = info.total_duration_ms as int;
    if d > 0 {
        assert(0 <= elapsed * n <= later * n) by (nonlinear_arith)
            requires
                0 <= elapsed <= later,
                0 <= n,
        ;
        let a = if elapsed * n > u64::MAX {
            u64::MAX as int
        } else {
            elapsed * n
        };
        let b = if later * n > u64::MAX {
            u64::MAX as int
        } else {
            later * n
        };
        assert(0 <= a / d <= b / d <= u64::MAX) by (nonlinear_arith)
            requires
                0 <= a <= b <= u64::MAX,
                d > 0,
        ;
        assert(0 * n == 0);
        assert(0int / d == 0) by (nonlinear_arith)
            requires
                d > 0,
        ;
    }
}

/// A report of progress is about the download and in the state that it was asked
/// for, answers the request that it was asked for, says how much time has passed,
/// and is never a failure.
pub proof fn law_a_report_says_what_it_is_about(
    job_id: Seq<char>,
    info: Option<HlsInfo>,
    progress: Option<FfmpegProgress>,
    state: Seq<char>,
    request_id: Option<Seq<char>>,
)
    ensures
        ({
            let r = native::progress_report(job_id, info, progress, state, request_id);
            &&& r.event_type == "progress"@
            &&& r.protocol_version == 1
            &&& r.ok && r.error is None && r.error_code is None && r.path is None
            &&& r.job_id == Some(job_id)
            &&& r.state == Some(state)
            &&& r.request_id == request_id
            &&& progress is None ==> r.elapsed_ms is None
            &&& progress matches Some(p) ==> r.elapsed_ms == p.out_time_ms
        }),
{
}

/// A report counts segments exactly when the length of the playlist is known. A
/// download that has finished has all of them, one that has not begun has none,
/// and any other has those that its time allows; what is shown as a share is that
/// number of all of them.
pub proof fn law_a_report_counts_segments(
    job_id: Seq<char>,
    info: HlsInfo,
    progress: FfmpegProgress,
    state: Seq<char>,
    request_id: Option<Seq<char>>,
)
    ensures
        ({
            let unknown = native::progress_report(job_id, None, Some(progress), state, request_id);
            let idle = native::progress_report(job_id, Some(info), None, state, request_id);
            let r = native::progress_report(job_id, Some(info), Some(progress), state, request_id);
            &&& unknown.completed_segments is None && unknown.total_segments is None
                && unknown.percent is None
            &&& idle.completed_segments == Some(0u64) && idle.percent == Some(Percent::Nothing)
            &&& idle.total_segments == Some(info.total_segments)
            &&& r.total_segments == Some(info.total_segments)
            &&& progress.finished ==> r.completed_segments == Some(info.total_segments)
                && r.percent == Some(Percent::Everything)
            &&& !progress.finished ==> r.completed_segments == Some(
                native::segments_done(info, progress.out_time_ms),
            )
            &&& !progress.finished && info.total_segments > 0 ==> r.percent == Some(
                Percent::Share(r.completed_segments->0, info.total_segments),
            )
            &&& !progress.finished && info.total_segments == 0 ==> r.percent == Some(
                Percent::Nothing,
            )
        }),
{
}

/// The length of a playlist that a request states counts exactly when it states
/// both numbers and at least one segment.
pub proof fn law_a_stated_length_counts(segments: Option<u64>, duration: Option<u64>)
    ensures
        match native::stated_info(segments, duration) {
            Some(info) => segments == Some(info.total_segments) && duration == Some(
                info.total_duration_ms,
            ) && info.total_segments > 0,
            None => segments is None || duration is None || segments == Some(0u64),
        },
{
}

// ---------------------------------------------------------------------------
// The end of a download
// ---------------------------------------------------------------------------

/// The last answer about a download says what came of it. A cancelled one is
/// cancelled, whatever else came of it; one that was written is complete, with the
/// path it was written to; and any other failed, with what is left of the reason
/// once it is redacted.
pub proof fn law_the_last_answer_says_what_came_of_it(
    job_id: Seq<char>,
    task: ActiveTask,
    result: DownerResult<String>,
)
    ensures
        ({
            let r = native::last_answer(job_id, task, result);
            &&& r.event_type == "terminal"@
            &&& r.request_id is None
            &&& task.control.cancelled ==> {
                &&& r.state == Some("cancelled"@)
                &&& r.error_code == Some("cancelled"@)
                &&& r.error == Some("download cancelled"@)
                &&& r.path == text::opt_text(task.target)
            }
            &&& !task.control.cancelled ==> match result {
                Ok(path) => {
                    &&& r.state == Some("completed"@)
                    &&& r.path == Some(path@)
                    &&& r.error is None && r.error_code is None
                    &&& r.completed_segments == r.total_segments
                    &&& task.hls_info matches Some(info) ==> r.total_segments == Some(
                        info.total_segments,
                    ) && r.percent == Some(Percent::Everything)
                },
                Err(error) => {
                    &&& r.state == Some("failed"@)
                    &&& r.path == text::opt_text(task.target)
                    &&& r.error == Some(redact::redacted_text(error.text()))
                    &&& r.error_code == Some(
                        if task.control.pending {
                            "resume_failed"@
                        } else {
                            "download_failed"@
                        },
                    )
                },
            }
        }),
{
}

/// A request that is not served and a command that fails are answered with the
/// reason and its code, to the request and about the download that they came with.
pub proof fn law_a_refusal_says_why(
    code: Seq<char>,
    error: Seq<char>,
    request_id: Option<Seq<char>>,
    job_id: Seq<char>,
)
    ensures
        ({
            let r = native::rejection(code, error, request_id, Some(job_id));
            let c = native::control_failure(job_id, request_id, code, error);
            &&& !r.ok && !c.ok
            &&& r.event_type == "rejected"@ && r.state == Some("rejected"@)
            &&& c.event_type == "control-error"@ && c.state == Some("control-error"@)
            &&& r.error == Some(error) && c.error == Some(error)
            &&& r.error_code == Some(code) && c.error_code == Some(code)
            &&& r.request_id == request_id && c.request_id == request_id
            &&& r.job_id == Some(job_id) && c.job_id == Some(job_id)
        }),
{
}

// ---------------------------------------------------------------------------
// Commands
// ---------------------------------------------------------------------------

/// Three words are commands, and each does to a download, sends to its process and
/// answers what it says.
pub proof fn law_a_command_does_what_it_says(word: Seq<char>)
    ensures
        native::command_of(word) is Some <==> word == "pause"@ || word == "resume"@ || word == "cancel"@,
        word == "pause"@ ==> (native::command_of(word) matches Some(c) && c.event() == ControlEvent::Pause
            && c.signal() == Signal::Stop && c.state() == "paused"@),
        word == "resume"@ ==> (native::command_of(word) matches Some(c) && c.event()
            == ControlEvent::Resume && c.signal() == Signal::Continue && c.state()
            == "downloading"@),
        word == "cancel"@ ==> (native::command_of(word) matches Some(c) && c.event()
            == ControlEvent::Cancel && c.signal() == Signal::Kill && c.state() == "cancelling"@),
{
    reveal_strlit("pause");
    reveal_strlit("resume");
    reveal_strlit("cancel");
    assert("pause"@[0] == 'p');
    assert("resume"@[0] == 'r');
    assert("cancel"@[0] == 'c');
}

/// A command that was carried out is acknowledged, to the request and about the
/// download that it came with, and ends no download.
pub proof fn law_a_command_is_acknowledged(
    job_id: Seq<char>,
    command: ControlCommand,
    request_id: Option<Seq<char>>,
)
    ensures
        ({
            let r = native::acknowledgement(job_id, command.state(), request_id);
            &&& r.event_type == "ack"@
            &&& r.ok && r.error is None
            &&& r.job_id == Some(job_id)
            &&& r.request_id == request_id
            &&& r.state == Some(command.state())
            &&& !native::is_terminal(r)
        }),
{
    reveal_strlit("terminal");
    reveal_strlit("ack");
    reveal_strlit("completed");
    reveal_strlit("failed");
    reveal_strlit("cancelled");
    reveal_strlit("paused");
    reveal_strlit("downloading");
    reveal_strlit("cancelling");
    assert("ack"@.len() == 3 && "terminal"@.len() == 8);
    assert("paused"@[0] == 'p' && "failed"@[0] == 'f' && "paused"@.len() == 6);
    assert("completed"@.len() == 9 && "cancelled"@.len() == 9 && "failed"@.len() == 6);
    assert("downloading"@.len() == 11 && "cancelling"@.len() == 10);
}

/// What a host says of itself is no failure, ends no download, and carries the
/// version of the protocol and the request that it answers.
pub proof fn law_a_greeting_ends_no_download(pause_resume: bool, request_id: Option<Seq<char>>)
    ensures
        ({
            let r = native::greeting(pause_resume, request_id);
            &&& r.event_type == "hello"@
            &&& r.state == Some("ready"@)
            &&& r.ok && r.error is None && r.job_id is None
            &&& r.protocol_version == 1
            &&& r.request_id == request_id
            &&& r.capabilities matches Some(c) && c.pause_resume == pause_resume && c.hls_info
            &&& !native::is_terminal(r)
        }),
{
    reveal_strlit("hello");
    reveal_strlit("ready");
    reveal_strlit("terminal");
    reveal_strlit("completed");
    reveal_strlit("failed");
    reveal_strlit("cancelled");
    assert("hello"@.len() == 5 && "ready"@.len() == 5 && "terminal"@.len() == 8);
    assert("completed"@.len() == 9 && "cancelled"@.len() == 9 && "failed"@.len() == 6);
}

/// A client is understood if it names no version, the one of this host or the one
/// before it.
pub proof fn law_two_versions_are_understood(version: u32)
    ensures
        native::speaks(None),
        native::speaks(Some(version)) <==> version <= 1,
{
}

/// The bytes before a message are the digits of its length to the base of a byte,
/// the lowest first.
pub proof fn law_the_lowest_byte_comes_first(a: u8, b: u8, c: u8, d: u8)
    ensures
        ({
            let n = native::little_endian(a, b, c, d);
            &&& 0 <= n <= u32::MAX
            &&& n % 256 == a
            &&& (n / 256) % 256 == b
            &&& (n / 65536) % 256 == c
            &&& n / 16777216 == d
        }),
{
}

/// What a request leaves out is filled in: no name for the download, the host's own
/// name for who asks, and no page.
pub proof fn law_what_a_request_leaves_out(name: String)
    ensures
        native::request_job(None) == Seq::<char>::empty(),
        native::request_job(Some(name)) == name@,
        native::agent_of(None) == "Mozilla/5.0 (Firefox; downer native host)"@,
        native::agent_of(Some(name)) == name@,
        native::stated_page(None) is None,
{
    reveal_strlit("");
    assert(""@ =~= Seq::empty());
}

/// A page counts exactly if its URL could be downloaded from, and the length of a
/// playlist that came along exactly if that is no list of renditions and has
/// segments.
pub proof fn law_what_came_along_counts(
    source: Seq<char>,
    playlist: Seq<char>,
    durations: Seq<Option<u64>>,
)
    ensures
        native::stated_page(Some(source)) is Some <==> output::url_verdict(source, web::url_parse(source)) is Ok,
        native::stated_page(Some(source)) matches Some(page) ==> output::url_verdict(source, web::url_parse(source))
            == Ok::<UrlView, Seq<char>>(page),
        native::supplied_info(None, durations) is None,
        scraper::is_master(playlist) ==> native::supplied_info(Some(playlist), durations) is None,
        !scraper::is_master(playlist) ==> native::supplied_info(Some(playlist), durations) == scraper::hls_totals(durations),
{
}

/// A download that was given no name is named by when it was asked for and the
/// how-manyth it is.
pub proof fn law_a_name_says_when_and_which(millis: nat, sequence: nat)
    ensures
        native::job_name(millis, sequence) == "native-"@ + text::decimal(millis) + seq!['-'] + text::decimal(sequence),
{
    reveal_strlit("-");
    assert("-"@ =~= seq!['-']);
}

/// A download of a name runs exactly if one runs and that is its name.
pub proof fn law_one_download_runs(slot: JobSlot, name: Seq<char>)
    ensures
        slot.runs(name) <==> (slot.job matches Some(job) && job.0@ == name),
        slot.job matches Some(job) ==> slot.id() == job.0@ && slot.task() == job.1,
{
}

/// What is reported of the download that runs is its progress, in the state that it
/// is in.
pub proof fn law_a_report_is_about_the_download_that_runs(
    slot: JobSlot,
    progress: Option<FfmpegProgress>,
)
    requires
        slot.job is Some,
    ensures
        slot.report(progress).job_id == Some(slot.id()),
        slot.report(progress).request_id is None,
        slot.task().control.paused ==> slot.report(progress).state == Some("paused"@),
        !slot.task().control.paused ==> slot.report(progress).state == Some("downloading"@),
        slot.task().hls_info is None ==> slot.report(progress).total_segments is None,
        slot.task().hls_info matches Some(info) ==> slot.report(progress).total_segments == Some(
            info.total_segments,
        ),
{
}

} // verus!
