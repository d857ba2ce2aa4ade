use downer::diagnostics::{run, SetupFacts, HOST_VERSION};
use downer::error::DownerError;
use downer::ffmpeg::{FfmpegProgress, FfmpegVersion, Reconnect, Signal};
use downer::host::Platform;
use downer::native::{
    completed_response, dispatch, ffmpeg_path, hello_response, invalid_request, length_prefix,
    log_response, message_length, metadata_problem, needs_preflight, next_job_id, preflight,
    progress_response, requested_media, requested_options, status_response, terminal_response,
    ActiveTask, ControlStep, Dispatch, JobSlot, NativeRequest, NativeResponse, Percent, Preflight,
    MAX_MESSAGE_BYTES, PROTOCOL_VERSION,
};
use downer::output::OutputTarget;
use downer::scraper::{HlsInfo, PlaylistProblem};
use downer::{conclude, prepare, DEFAULT_TIMEOUT};

fn request(command: &str) -> NativeRequest {
    NativeRequest {
        command: command.to_string(),
        protocol_version: Some(1),
        url: String::new(),
        job_id: None,
        source_url: None,
        output_dir: None,
        playlist_text: None,
        ffmpeg: None,
        overwrite: false,
        on_conflict: None,
        title: None,
        cookie: None,
        user_agent: None,
        threads: None,
        request_id: None,
        total_segments: None,
        total_duration_ms: None,
        keep_partial: false,
    }
}

fn download_request(job_id: &str) -> NativeRequest {
    let mut request = request("download");
    request.url = "https://example.test/video.mp4".to_string();
    request.job_id = Some(job_id.to_string());
    request.source_url = Some("https://example.test/watch/123".to_string());
    request.output_dir = Some("/downloads".to_string());
    request.cookie = Some("session=secret-value".to_string());
    request.user_agent = Some("Mozilla/5.0 (native host test)".to_string());
    request
}

fn control_request(command: &str, job_id: &str, request_id: &str) -> NativeRequest {
    let mut request = request(command);
    request.job_id = Some(job_id.to_string());
    request.request_id = Some(request_id.to_string());
    request
}

fn assert_envelope(response: &NativeResponse, event_type: &str) {
    assert_eq!(response.protocol_version, PROTOCOL_VERSION, "{response:?}");
    assert_eq!(response.event_type, event_type, "{response:?}");
}

fn state(response: &NativeResponse) -> &str {
    response.state.as_deref().expect("every response carries a state")
}

/// A slot with a download that FFmpeg has begun.
fn running(request: &NativeRequest) -> JobSlot {
    let mut slot = JobSlot::new();
    let job_id = request.job_id.clone().unwrap();
    let starting = slot.start(&job_id, request);
    assert_eq!(state(&starting), "starting");
    let (_, task) = slot.job.as_mut().expect("the download runs");
    task.control.attach();
    slot
}

#[test]
fn successful_download_reports_starting_progress_and_completed() {
    let request = download_request("job-success");
    assert!(matches!(dispatch(&request), Dispatch::Download));
    let mut slot = JobSlot::new();
    let starting = slot.start("job-success", &request);
    assert_envelope(&starting, "progress");
    assert!(starting.ok);
    assert_eq!(starting.job_id.as_deref(), Some("job-success"));
    assert_eq!(state(&starting), "starting");
    assert!(slot.is_running("job-success"));

    let progress = FfmpegProgress { out_time_ms: Some(1_000), finished: false };
    let downloading =
        progress_response("job-success", None, Some(progress), "downloading", &None);
    assert_envelope(&downloading, "progress");
    assert!(downloading.ok);
    assert_eq!(state(&downloading), "downloading");

    let (_, task) = slot.job.as_ref().unwrap();
    let completed = completed_response("job-success", "/downloads/video.mp4", task);
    assert_envelope(&completed, "terminal");
    assert!(completed.ok);
    assert_eq!(completed.job_id.as_deref(), Some("job-success"));
    assert_eq!(state(&completed), "completed");
    assert_eq!(completed.path.as_deref(), Some("/downloads/video.mp4"));
    slot.clear_job("job-success");
    assert!(slot.job.is_none());
}

#[test]
fn download_forwards_referer_user_agent_and_cookie_headers_once() {
    let mut request = download_request("job");
    let raw = "https://example.test/video%20name.mp4?arg=$HOME;echo no";
    request.url = raw.to_string();
    let media = requested_media(&request).unwrap();
    let options = requested_options(&request, &None, "ffmpeg").unwrap();
    let target = OutputTarget {
        path: "/downloads/video name.mp4".to_string(),
        overwrite: true,
        reserved: true,
    };
    let prepared = prepare(&media, &options, &target, None, &None, true).unwrap();
    let args = prepared.invocation.to_args();
    let headers: Vec<usize> = args
        .iter()
        .enumerate()
        .filter(|(_, argument)| argument.as_str() == "-headers")
        .map(|(index, _)| index)
        .collect();
    assert_eq!(headers.len(), 1, "one -headers argument: {args:?}");
    let block = &args[headers[0] + 1];
    assert!(block.contains("User-Agent: Mozilla/5.0 (native host test)"));
    assert!(block.contains("Referer: https://example.test/watch/123"));
    let cookies = args.iter().position(|argument| argument == "-cookies").unwrap();
    assert_eq!(args[cookies + 1], "session=secret-value; path=/; domain=example.test");

    assert_eq!(
        args.iter().filter(|argument| *argument == media.url.as_str()).count(),
        1,
        "URL is a single argv element: {args:?}"
    );
    assert!(!args.iter().any(|argument| argument == "no"));
}

#[test]
fn failing_ffmpeg_reports_failed_state_and_keeps_the_partial_file() {
    let request = download_request("job-failure");
    let slot = running(&request);
    let options = requested_options(&request, &None, "ffmpeg").unwrap();
    let target = OutputTarget {
        path: "/downloads/video.mp4".to_string(),
        overwrite: true,
        reserved: true,
    };
    let conclusion = conclude(
        &options,
        &target,
        None,
        Err(DownerError::FfmpegFailed {
            status: Some(17),
            stderr: "network failure".to_string(),
        }),
        Some(13),
        false,
    );
    assert!(!conclusion.release);
    assert!(!conclusion.discard);
    let (_, task) = slot.job.as_ref().unwrap();
    let failed = terminal_response("job-failure", task, &conclusion.result);
    assert_envelope(&failed, "terminal");
    assert!(!failed.ok);
    assert_eq!(failed.error_code, Some("download_failed"));
    assert_eq!(failed.job_id.as_deref(), Some("job-failure"));
    assert_eq!(state(&failed), "failed");
    let error = failed.error.as_deref().expect("failure carries an error");
    assert!(error.contains("network failure"), "error text: {error}");

    let log = log_response("job-failure", "network failure");
    assert_eq!(log.event_type, "log");
    assert_eq!(log.protocol_version, PROTOCOL_VERSION);
    assert!(log.log.contains("network failure"));
}

#[test]
fn cancel_acknowledges_then_reports_the_cancelled_terminal_state() {
    let mut slot = running(&download_request("job-cancel"));
    let step = slot.control_download(&control_request("cancel", "job-cancel", "job-cancel-1"));
    let ack = match step {
        ControlStep::Deliver(Signal::Kill, ack) => ack,
        other => panic!("cancel must kill FFmpeg: {other:?}"),
    };
    assert_envelope(&ack, "ack");
    assert!(ack.ok);
    assert_eq!(state(&ack), "cancelling");
    assert_eq!(ack.request_id.as_deref(), Some("job-cancel-1"));

    let (_, task) = slot.job.as_ref().unwrap();
    let failure = Err(DownerError::FfmpegFailed { status: None, stderr: String::new() });
    let cancelled = terminal_response("job-cancel", task, &failure);
    assert_envelope(&cancelled, "terminal");
    assert_eq!(cancelled.error_code, Some("cancelled"));
    assert!(!cancelled.ok);
    assert_eq!(cancelled.job_id.as_deref(), Some("job-cancel"));
    assert_eq!(cancelled.error.as_deref(), Some("download cancelled"));
    assert_eq!(state(&cancelled), "cancelled");
}

#[test]
fn pause_stops_progress_and_resume_lets_the_download_complete() {
    let mut slot = running(&download_request("job-pause"));
    match slot.control_download(&control_request("pause", "job-pause", "job-pause-1")) {
        ControlStep::Deliver(Signal::Stop, paused) => {
            assert!(paused.ok);
            assert_eq!(state(&paused), "paused");
            assert_eq!(paused.request_id.as_deref(), Some("job-pause-1"));
        }
        other => panic!("unexpected {other:?}"),
    }
    match slot.control_download(&control_request("resume", "job-pause", "job-pause-2")) {
        ControlStep::Deliver(Signal::Continue, resumed) => {
            assert!(resumed.ok);
            assert_eq!(resumed.request_id.as_deref(), Some("job-pause-2"));
        }
        other => panic!("unexpected {other:?}"),
    }
}

#[test]
fn download_with_playlist_totals_reports_segment_progress() {
    let mut request = download_request("job-segments");
    request.total_segments = Some(10);
    request.total_duration_ms = Some(10_000);
    let mut slot = JobSlot::new();
    let starting = slot.start("job-segments", &request);
    assert_eq!(state(&starting), "starting");
    assert_eq!(starting.total_segments, Some(10));
    assert!(matches!(starting.percent, Some(Percent::Nothing) | Some(Percent::Share(0, _))));

    let info = slot.job.as_ref().unwrap().1.hls_info;
    let progress = FfmpegProgress { out_time_ms: Some(1_000), finished: false };
    let event = progress_response("job-segments", info, Some(progress), "downloading", &None);
    assert_eq!(event.completed_segments, Some(1));
    assert_eq!(event.total_segments, Some(10));
    assert_eq!(event.percent, Some(Percent::Share(1, 10)));
}

#[test]
fn hls_info_updates_totals_for_an_active_download() {
    let mut slot = running(&download_request("job-hls"));
    {
        let (_, task) = slot.job.as_mut().unwrap();
        task.progress = Some(FfmpegProgress { out_time_ms: Some(1_000), finished: false });
    }
    let mut update = control_request("hls-info", "job-hls", "job-hls-1");
    update.total_segments = Some(4);
    update.total_duration_ms = Some(8_000);
    assert!(matches!(dispatch(&update), Dispatch::HlsInfo));
    let updated = slot.update_hls_info(&update);
    assert!(updated.ok);
    assert_eq!(state(&updated), "downloading");
    assert_eq!(updated.request_id.as_deref(), Some("job-hls-1"));
    assert_eq!(updated.total_segments, Some(4));
    assert_eq!(updated.completed_segments, Some(0));
    assert!(matches!(updated.percent, Some(Percent::Nothing) | Some(Percent::Share(0, _))));
}

#[test]
fn hls_info_without_segment_totals_is_a_control_error() {
    let mut slot = running(&download_request("job-bad-hls"));
    let mut update = control_request("hls-info", "job-bad-hls", "job-bad-hls-1");
    update.total_segments = Some(0);
    update.total_duration_ms = Some(0);
    let error = slot.update_hls_info(&update);
    assert_envelope(&error, "control-error");
    assert!(!error.ok);
    assert_eq!(state(&error), "control-error");
    assert_eq!(error.error_code, Some("invalid_hls_info"));
    assert_eq!(error.request_id.as_deref(), Some("job-bad-hls-1"));
    assert_eq!(error.error.as_deref(), Some("invalid HLS segment information"));
}

#[test]
fn control_commands_for_an_unknown_job_report_control_error() {
    let mut slot = JobSlot::new();
    for command in ["pause", "resume", "cancel", "hls-info"] {
        let mut request = control_request(command, "missing-job", &format!("{command}-1"));
        request.total_segments = Some(3);
        request.total_duration_ms = Some(3_000);
        let event = if command == "hls-info" {
            slot.update_hls_info(&request)
        } else {
            assert!(matches!(dispatch(&request), Dispatch::Control));
            match slot.control_download(&request) {
                ControlStep::Reply(event) => event,
                other => panic!("unexpected {other:?}"),
            }
        };
        assert_envelope(&event, "control-error");
        assert!(!event.ok, "{command}");
        assert_eq!(state(&event), "control-error");
        assert_eq!(event.error_code, Some("task_not_active"));
        assert_eq!(event.job_id.as_deref(), Some("missing-job"));
        assert_eq!(event.request_id, Some(format!("{command}-1")));
        assert_eq!(event.error.as_deref(), Some("download task is not active"));
    }
}

#[test]
fn duplicate_job_ids_are_rejected_without_terminating_the_running_download() {
    let mut request = download_request("job-duplicate");
    let mut slot = running(&request);
    request.request_id = Some("job-duplicate-2".to_string());
    let rejected = slot.start("job-duplicate", &request);
    assert_envelope(&rejected, "rejected");
    assert!(!rejected.ok);
    assert_eq!(state(&rejected), "rejected");
    assert_eq!(rejected.error_code, Some("duplicate_job"));
    assert_eq!(rejected.job_id.as_deref(), Some("job-duplicate"));
    assert_eq!(rejected.request_id.as_deref(), Some("job-duplicate-2"));
    assert_eq!(
        rejected.error.as_deref(),
        Some("download task already exists: job-duplicate")
    );

    let cancel = control_request("cancel", "job-duplicate", "job-duplicate-cancel");
    match slot.control_download(&cancel) {
        ControlStep::Deliver(Signal::Kill, ack) => {
            assert!(ack.ok);
            assert_eq!(state(&ack), "cancelling");
        }
        other => panic!("unexpected {other:?}"),
    }
}

#[test]
fn a_second_download_is_rejected_while_one_runs() {
    let mut slot = running(&download_request("job-one"));
    let rejected = slot.start("job-two", &download_request("job-two"));
    assert_envelope(&rejected, "rejected");
    assert_eq!(rejected.error_code, Some("host_busy"));
    assert!(slot.is_running("job-one"));
    assert!(!slot.is_running("job-two"));
}

#[test]
fn malformed_json_is_rejected_without_a_job_id() {
    let event = invalid_request("key must be a string at line 1 column 2");
    assert_envelope(&event, "rejected");
    assert!(!event.ok);
    assert_eq!(state(&event), "rejected");
    assert_eq!(event.error_code, Some("invalid_request"));
    assert!(event.job_id.is_none());
    assert!(event.error.as_deref().unwrap().starts_with("invalid native request"));
}

#[test]
fn hello_reports_the_protocol_version_host_version_and_capabilities() {
    let mut request = request("hello");
    request.request_id = Some("hello-1".to_string());
    assert!(matches!(dispatch(&request), Dispatch::Hello));
    let event = hello_response(true, &request.request_id);
    assert_envelope(&event, "hello");
    assert!(event.ok);
    assert_eq!(state(&event), "ready");
    assert_eq!(event.request_id.as_deref(), Some("hello-1"));
    assert_eq!(event.host_version, Some("0.5.0"));
    let capabilities = event.capabilities.unwrap();
    assert!(capabilities.pause_resume);
    assert!(capabilities.hls_info);
}

#[test]
fn a_request_without_a_protocol_version_is_still_served_as_legacy() {
    let mut legacy = request("hello");
    legacy.protocol_version = None;
    assert!(matches!(dispatch(&legacy), Dispatch::Hello));
}

#[test]
fn a_request_with_an_unsupported_protocol_version_is_rejected() {
    let mut future = request("hello");
    future.protocol_version = Some(99);
    future.request_id = Some("future-1".to_string());
    let event = match dispatch(&future) {
        Dispatch::Rejected(event) => event,
        other => panic!("unexpected {other:?}"),
    };
    assert_envelope(&event, "rejected");
    assert!(!event.ok);
    assert_eq!(state(&event), "rejected");
    assert_eq!(event.error_code, Some("unsupported_protocol_version"));
    assert_eq!(event.request_id.as_deref(), Some("future-1"));
    assert!(
        event.error.as_deref().unwrap().contains("99"),
        "the mismatch names the version it refused: {event:?}"
    );
}

#[test]
fn unsupported_commands_are_rejected_without_terminating_an_active_job() {
    let mut slot = running(&download_request("job-unsupported"));
    let mut ping = request("ping");
    ping.request_id = Some("ping-1".to_string());
    let event = match dispatch(&ping) {
        Dispatch::Rejected(event) => event,
        other => panic!("unexpected {other:?}"),
    };
    assert_envelope(&event, "rejected");
    assert!(!event.ok);
    assert_eq!(state(&event), "rejected");
    assert_eq!(event.error_code, Some("unsupported_command"));
    assert_eq!(event.error.as_deref(), Some("unsupported native command: ping"));
    assert_eq!(event.request_id.as_deref(), Some("ping-1"));
    assert!(event.job_id.is_none());

    let cancel = control_request("cancel", "job-unsupported", "job-unsupported-cancel");
    match slot.control_download(&cancel) {
        ControlStep::Deliver(_, ack) => {
            assert_envelope(&ack, "ack");
            assert!(ack.ok);
        }
        other => panic!("unexpected {other:?}"),
    }
}

#[test]
fn messages_larger_than_one_mebibyte_end_the_host_with_an_error() {
    let [a, b, c, d] = 1_048_577_u32.to_le_bytes();
    assert!(message_length(a, b, c, d).is_err());
    let [a, b, c, d] = MAX_MESSAGE_BYTES.to_le_bytes();
    assert_eq!(message_length(a, b, c, d), Ok(1_048_576));
    assert!(length_prefix(usize::MAX).is_err());
    let (a, b, c, d) = length_prefix(70_000).unwrap();
    assert_eq!(message_length(a, b, c, d), Ok(70_000));
    assert_eq!([a, b, c, d], 70_000_u32.to_le_bytes());
}

#[test]
fn closing_stdin_cancels_active_downloads_and_exits_cleanly() {
    let mut slot = running(&download_request("job-eof"));
    assert!(matches!(slot.cancel_for_shutdown(), Some(Signal::Kill)));
    let (_, task) = slot.job.as_ref().unwrap();
    assert!(task.control.is_cancelled());
    assert!(!task.control.cancelled_by_request());
    assert!(JobSlot::new().cancel_for_shutdown().is_none());
}

#[test]
fn no_host_event_carries_the_cookie_value() {
    const SENTINEL: &str = "downer_sentinel=not-a-real-session";
    let mut request = download_request("job-secrets");
    request.cookie = Some(SENTINEL.to_string());
    let mut slot = JobSlot::new();
    let starting = slot.start("job-secrets", &request);
    let (_, task) = slot.job.as_ref().unwrap();
    let failed = terminal_response(
        "job-secrets",
        task,
        &Err(DownerError::FfmpegFailed {
            status: Some(17),
            stderr: "Server returned 403 Forbidden".to_string(),
        }),
    );
    for event in [&starting, &failed] {
        assert!(!format!("{event:?}").contains(SENTINEL), "{}", event.event_type);
    }
    let options = requested_options(&request, &None, "ffmpeg").unwrap();
    assert_eq!(options.cookie.as_deref(), Some(SENTINEL));
}

#[test]
fn the_status_response_carries_the_log_path() {
    let report = run(
        &SetupFacts {
            platform: Platform::Linux,
            paths: Err("no home".to_string()),
            manifest_there: false,
            launcher_there: false,
            ffmpeg: "ffmpeg".to_string(),
            ffmpeg_version: Some(FfmpegVersion { major: 9, minor: 0, patch: None }),
            directory: None,
            log_path: Some("/logs/host.log".to_string()),
        },
        PROTOCOL_VERSION,
    );
    assert!(matches!(dispatch(&request("status")), Dispatch::Status));
    let response = status_response(true, report, &Some("status-1".to_string()));
    assert_envelope(&response, "status");
    assert_eq!(response.host_version, Some(HOST_VERSION));
    assert_eq!(response.request_id.as_deref(), Some("status-1"));
    let status = response.status.expect("the report is carried");
    assert_eq!(status.log_path.as_deref(), Some("/logs/host.log"));
}

#[test]
fn a_log_line_loses_the_query_of_a_url() {
    let log = log_response("job", "Opening 'https://cdn.test/a.ts?token=SECRET' for reading");
    assert_eq!(log.log, "Opening 'https://cdn.test/a.ts?…' for reading");
    assert_eq!(log.job_id, "job");
}

#[test]
fn progress_never_leaves_the_playlist() {
    let info = Some(HlsInfo { total_segments: 4, total_duration_ms: 8_000 });
    let late = FfmpegProgress { out_time_ms: Some(9_999), finished: false };
    let event = progress_response("job", info, Some(late), "downloading", &None);
    assert!(event.completed_segments.unwrap() <= 4, "{event:?}");
    let done = FfmpegProgress { out_time_ms: Some(8_000), finished: true };
    let event = progress_response("job", info, Some(done), "downloading", &None);
    assert_eq!(event.completed_segments, Some(4));
    assert_eq!(event.percent, Some(Percent::Everything));
}

#[test]
fn a_playlist_is_looked_up_only_where_its_totals_are_wanted() {
    let mut request = download_request("job");
    assert!(!needs_preflight(&request, &ActiveTask::new(None)));
    request.url = "https://example.test/master.m3u8".to_string();
    assert!(needs_preflight(&request, &ActiveTask::new(None)));
    let known = Some(HlsInfo { total_segments: 1, total_duration_ms: 1 });
    assert!(!needs_preflight(&request, &ActiveTask::new(known)));
    let problem = metadata_problem("job", &ActiveTask::new(None), &PlaylistProblem::NoSegments);
    assert!(problem.metadata_error.is_some(), "{problem:?}");
    assert!(problem.ok);
}

#[test]
fn a_request_becomes_the_download_it_asks_for() {
    let mut request = download_request("job");
    request.output_dir = None;
    let options =
        requested_options(&request, &Some("/home/me/Downloads".to_string()), "/bin/ffmpeg")
            .unwrap();
    assert_eq!(options.dir.as_deref(), Some("/home/me/Downloads"));
    assert_eq!(options.ffmpeg, "/bin/ffmpeg");
    assert_eq!(options.reconnect, Some(Reconnect::default()));
    assert_eq!(options.retries, 0);
    assert_eq!(options.timeout, DEFAULT_TIMEOUT);
    assert!(matches!(
        requested_options(&request, &None, "ffmpeg"),
        Err(DownerError::OutputPath(_))
    ));
    request.url = "ftp://example.test/x".to_string();
    assert!(matches!(requested_media(&request), Err(DownerError::InvalidUrl(_))));
}

#[test]
fn the_first_ffmpeg_that_is_known_is_run() {
    let some = |s: &str| Some(s.to_string());
    assert_eq!(ffmpeg_path(&some("/e"), &some("/c"), true, true), "/e");
    assert_eq!(ffmpeg_path(&None, &some("/c"), true, true), "/c");
    assert_eq!(ffmpeg_path(&None, &None, true, true), "/opt/homebrew/bin/ffmpeg");
    assert_eq!(ffmpeg_path(&None, &None, false, true), "/usr/local/bin/ffmpeg");
    assert_eq!(ffmpeg_path(&None, &None, false, false), "ffmpeg");
    assert_ne!(next_job_id(1, 1), next_job_id(1, 2));
}

#[test]
fn a_running_download_reports_what_happens_to_it() {
    let mut slot = running(&download_request("job"));
    assert_eq!(state(&slot.begun("job").unwrap()), "downloading");
    let progress = FfmpegProgress { out_time_ms: Some(4_000), finished: false };
    assert_eq!(slot.advanced("job", progress).unwrap().elapsed_ms, Some(4_000));
    let info = HlsInfo { total_segments: 4, total_duration_ms: 8_000 };
    let found = slot.found_hls_info("job", info).unwrap();
    assert_eq!(found.completed_segments, Some(2));
    assert_eq!(found.percent, Some(Percent::Share(2, 4)));
    let missed = slot.missed_hls_info("job", &PlaylistProblem::NotAPlaylist).unwrap();
    assert!(missed.metadata_error.unwrap().contains("not a playlist"));
    assert!(slot.advanced("other", progress).is_none());
    assert!(slot.begun("other").is_none());
    assert!(slot.found_hls_info("other", info).is_none());
    assert!(slot.ended("other", &Ok(String::new())).is_none());

    let done = slot.ended("job", &Ok("/downloads/video.mp4".to_string())).unwrap();
    assert_envelope(&done, "terminal");
    assert_eq!(done.path.as_deref(), Some("/downloads/video.mp4"));
    assert!(done.status.is_none());
    assert!(slot.is_running("job"));
    slot.clear_job("job");
    assert!(slot.job.is_none());
}

#[test]
fn a_signal_that_is_not_delivered_is_a_control_error() {
    let mut slot = running(&download_request("job"));
    slot.control_download(&control_request("pause", "job", "1"));
    let resume = control_request("resume", "job", "2");
    slot.control_download(&resume);
    assert!(slot.job.as_ref().unwrap().1.control.resume_pending());
    let refused = slot.control_refused(&resume, Signal::Continue, "could not control FFmpeg");
    assert_envelope(&refused, "control-error");
    assert_eq!(refused.error_code, Some("control_failed"));
    assert_eq!(refused.error.as_deref(), Some("could not control FFmpeg"));
    assert!(!slot.job.as_ref().unwrap().1.control.resume_pending());
}

#[test]
fn a_download_cancelled_before_it_began_is_dropped() {
    let mut slot = JobSlot::new();
    assert!(slot.start("job", &download_request("job")).ok);
    assert!(slot.dropped("job").is_none());
    assert!(slot.is_running("job"));
    let mut cancel = request("cancel");
    cancel.job_id = Some("job".to_string());
    assert!(matches!(slot.control_download(&cancel), ControlStep::Reply(_)));
    assert!(slot.dropped("other").is_none());
    let last = slot.dropped("job").expect("a cancelled download is answered");
    assert_eq!(last.state.as_deref(), Some("cancelled"));
    assert_eq!(last.error_code, Some("cancelled"));
    slot.clear_job("job");
    assert!(!slot.is_running("job"));
    assert!(slot.dropped("job").is_none());
}

#[test]
fn a_resume_before_ffmpeg_starts_is_no_failed_resume() {
    let mut slot = JobSlot::new();
    assert!(slot.start("job", &download_request("job")).ok);
    slot.control_download(&control_request("pause", "job", "1"));
    slot.control_download(&control_request("resume", "job", "2"));
    let error = DownerError::FfmpegFailed { status: Some(1), stderr: "404".to_string() };
    let last = slot.ended("job", &Err(error)).unwrap();
    assert_eq!(last.error_code, Some("download_failed"));
}

#[test]
fn a_supplied_playlist_states_its_length_and_a_master_does_not() {
    let task = ActiveTask::new(None);
    let mut request = download_request("job");
    assert!(matches!(preflight(&request, &task, &Vec::new()), Preflight::Skip));
    request.url = "https://example.test/v/master.m3u8".to_string();
    match preflight(&request, &task, &Vec::new()) {
        Preflight::Fetch(url, page) => {
            assert_eq!(url.as_str(), "https://example.test/v/master.m3u8");
            assert_eq!(page.unwrap().as_str(), "https://example.test/watch/123");
        }
        other => panic!("unexpected {other:?}"),
    }
    request.playlist_text = Some("#EXTM3U\n#EXTINF:2,\na.ts\n".to_string());
    match preflight(&request, &task, &vec![Some(2_000)]) {
        Preflight::Known(info) => {
            assert_eq!((info.total_segments, info.total_duration_ms), (1, 2_000));
        }
        other => panic!("unexpected {other:?}"),
    }
    request.playlist_text =
        Some("#EXTM3U\n#EXT-X-STREAM-INF:BANDWIDTH=1\nlow.m3u8\n".to_string());
    assert!(matches!(preflight(&request, &task, &Vec::new()), Preflight::Fetch(_, _)));
    request.source_url = Some("ftp://example.test/".to_string());
    assert!(matches!(preflight(&request, &task, &Vec::new()), Preflight::Fetch(_, None)));
    request.url = "ftp://example.test/master.m3u8".to_string();
    assert!(matches!(preflight(&request, &task, &Vec::new()), Preflight::Skip));
}

#[test]
fn only_the_running_download_takes_note_of_its_target() {
    let mut slot = JobSlot::new();
    slot.targeted("job", "/downloads/a.mp4".to_string());
    assert!(slot.job.is_none());
    assert!(slot.start("job", &download_request("job")).ok);
    slot.targeted("other", "/downloads/b.mp4".to_string());
    assert!(slot.job.as_ref().unwrap().1.target.is_none());
    slot.targeted("job", "/downloads/a.mp4".to_string());
    let error = DownerError::FfmpegFailed { status: Some(1), stderr: "x".to_string() };
    let last = slot.ended("job", &Err(error)).unwrap();
    assert_eq!(last.path.as_deref(), Some("/downloads/a.mp4"));
}
