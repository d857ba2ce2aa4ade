use downer::ffmpeg::{
    finished, is_http_input, minimum_ffmpeg, parse_version, spawn_failure, summarize_cookies,
    version, FfmpegInvocation, FfmpegProgress, FfmpegVersion, LogReader, ProcessControl, ProgressReader,
    Reconnect, Reporting, Signal, Versions, ALREADY_CANCELLED, LOGGED_OUTPUT, RECONNECT_HTTP_STATUSES,
};
use downer::error::DownerError;

fn plain() -> FfmpegInvocation {
    FfmpegInvocation::new(
        "ffmpeg".to_string(),
        "https://example.test/video.mp4",
        "video.mp4".to_string(),
        false,
    )
}

fn has_pair(args: &[String], pair: [&str; 2]) -> bool {
    args.windows(2).any(|window| window[0] == pair[0] && window[1] == pair[1])
}

fn has(args: &[String], wanted: &str) -> bool {
    args.iter().any(|argument| argument == wanted)
}

#[test]
fn renders_each_option_without_shell_interpolation() {
    let injected = FfmpegInvocation::new(
        "ffmpeg".to_string(),
        "https://example.test/video?a=$HOME;echo injected",
        "a file;name.mp4".to_string(),
        false,
    );
    let args = injected.to_args();
    assert!(has(&args, "https://example.test/video?a=$HOME;echo injected"));
    assert!(has(&args, "a file;name.mp4"));
    assert!(has(&args, "-n"));
    assert!(!has(&args, "sh"));

    let mut threaded = plain();
    threaded.threads = Some(4);
    assert!(has_pair(&threaded.to_args(), ["-threads", "4"]));

    let mut overwrite = plain();
    overwrite.overwrite = true;
    assert!(has(&overwrite.to_args(), "-y"));

    let mut with_headers = plain();
    with_headers.headers = Some("Referer: https://example.test/page\r\n".to_string());
    let args = with_headers.to_args();
    assert!(has_pair(&args, ["-headers", "Referer: https://example.test/page\r\n"]));
    assert!(!has(&args, "-cookies"), "no -cookies argument when there are no cookies");

    let mut with_cookies = plain();
    with_cookies.cookies = Some("sid=downer-sentinel; path=/; domain=example.test".to_string());
    let args = with_cookies.to_args();
    let cookies = args
        .iter()
        .position(|argument| argument == "-cookies")
        .expect("-cookies is passed");
    assert_eq!(args[cookies + 1], "sid=downer-sentinel; path=/; domain=example.test");
    assert!(
        cookies < args.iter().position(|argument| argument == "-i").unwrap(),
        "-cookies is an input option: {args:?}"
    );
}

#[test]
fn an_http_input_gets_the_reconnect_options_before_its_own_i() {
    let mut invocation = plain();
    invocation.reconnect = Some(Reconnect { delay_max: 45 });
    let args = invocation.to_args();

    let reconnect = args.iter().position(|a| a == "-reconnect").expect("present");
    let input = args.iter().position(|a| a == "-i").expect("present");
    assert!(reconnect < input, "input options precede their -i: {args:?}");

    for pair in [
        ["-reconnect", "1"],
        ["-reconnect_streamed", "1"],
        ["-reconnect_on_network_error", "1"],
        ["-reconnect_on_http_error", RECONNECT_HTTP_STATUSES],
        ["-reconnect_delay_max", "45"],
    ] {
        assert!(has_pair(&args, pair), "{pair:?} missing from {args:?}");
    }
}

#[test]
fn reconnect_covers_server_errors_and_the_two_retryable_client_ones() {
    assert_eq!(RECONNECT_HTTP_STATUSES, "5xx,408,429");
    assert!(!RECONNECT_HTTP_STATUSES.contains("4xx"));
}

#[test]
fn no_reconnect_leaves_every_reconnect_option_off_the_command_line() {
    let mut invocation = plain();
    invocation.reconnect = None;
    let args = invocation.to_args().join(" ");
    assert!(!args.contains("-reconnect"), "{args}");
}

#[test]
fn a_local_input_gets_no_reconnect_options() {
    let mut invocation = plain();
    invocation.input = "/tmp/local.mp4".to_string();
    invocation.reconnect = Some(Reconnect::default());
    let args = invocation.to_args().join(" ");
    assert!(!args.contains("-reconnect"), "{args}");
}

#[test]
fn a_paired_audio_input_gets_its_own_reconnect_options() {
    let mut invocation = plain();
    invocation.audio_input = Some("https://cdn.example.test/audio.m3u8".to_string());
    invocation.reconnect = Some(Reconnect::default());
    let args = invocation.to_args();
    let count = args.iter().filter(|a| *a == "-reconnect").count();
    assert_eq!(count, 2, "one per input: {args:?}");
}

#[test]
fn http_inputs_are_recognised_by_scheme_only() {
    assert!(is_http_input("https://example.test/a.m3u8"));
    assert!(is_http_input("HTTP://example.test/a.m3u8"));
    assert!(!is_http_input("/var/tmp/a.mp4"));
    assert!(!is_http_input("file:///tmp/a.mp4"));
}

#[test]
fn a_logged_command_line_counts_cookies_instead_of_carrying_them() {
    const SENTINEL: &str = "DOWNER-COOKIE-SENTINEL-2f8a";
    let mut invocation = plain();
    invocation.cookies = Some(format!(
        "session={SENTINEL}; path=/; domain=example.com\nother={SENTINEL}; path=/; domain=example.com"
    ));

    let logged = invocation.to_log_args().join(" ");
    assert!(!logged.contains(SENTINEL), "{logged}");
    assert!(!logged.contains("session="), "{logged}");
    assert!(logged.contains("-cookies <2 cookies>"), "{logged}");

    let executed = invocation.to_args().join(" ");
    assert!(executed.contains(SENTINEL));
}

#[test]
fn one_cookie_is_counted_in_the_singular_and_none_at_all_is_zero() {
    let mut invocation = plain();
    invocation.cookies = Some("session=x; path=/; domain=example.com".to_string());
    assert!(invocation.to_log_args().join(" ").contains("<1 cookie>"));
    assert_eq!(summarize_cookies(&None), "<0 cookies>");
}

#[test]
fn a_logged_command_line_names_headers_without_their_values() {
    let mut invocation = plain();
    invocation.headers = Some(
        "User-Agent: Mozilla/5.0 (secret build 9)\r\nReferer: https://example.com/watch?id=42\r\n"
            .to_string(),
    );

    let logged = invocation.to_log_args().join(" ");
    assert!(logged.contains("-headers <User-Agent,Referer>"), "{logged}");
    assert!(!logged.contains("Mozilla"), "{logged}");
    assert!(!logged.contains("id=42"), "{logged}");
}

#[test]
fn a_logged_command_line_drops_the_output_filename() {
    let invocation = FfmpegInvocation::new(
        "ffmpeg".to_string(),
        "https://example.com/video.m3u8",
        "/home/someone/Downloads/Someone's Private Video Title.mp4".to_string(),
        false,
    );

    let logged = invocation.to_log_args().join(" ");
    assert!(!logged.contains("Private Video Title"), "{logged}");
    assert!(logged.ends_with(LOGGED_OUTPUT), "{logged}");
}

#[test]
fn a_logged_command_line_matches_the_executed_one_position_for_position() {
    let mut invocation = plain();
    invocation.cookies = Some("session=x; path=/; domain=example.com".to_string());
    invocation.headers = Some("User-Agent: test\r\n".to_string());
    invocation.hls_lenient = true;
    invocation.threads = Some(4);

    let executed = invocation.to_args();
    let logged = invocation.to_log_args();
    assert_eq!(executed.len(), logged.len(), "{logged:?}");

    let substituted: Vec<usize> = executed
        .iter()
        .zip(&logged)
        .enumerate()
        .filter(|(_, (left, right))| left != right)
        .map(|(index, _)| index)
        .collect();
    assert_eq!(substituted.len(), 3, "{substituted:?} in {logged:?}");
}

#[test]
fn segment_extension_options_follow_the_lenient_flag() {
    let mut lenient = plain();
    lenient.input = "https://example.test/playlist.m3u8".to_string();
    lenient.hls_lenient = true;
    let args = lenient.to_args();
    assert!(has_pair(&args, ["-allowed_segment_extensions", "ALL"]));
    assert!(has_pair(&args, ["-extension_picky", "0"]));

    let mut strict = plain();
    strict.input = "https://example.test/playlist.m3u8".to_string();
    strict.hls_lenient = false;
    let args = strict.to_args();
    assert!(!has(&args, "-allowed_segment_extensions"));
    assert!(!has(&args, "ALL"));
    assert!(!has(&args, "-extension_picky"));
    assert!(has_pair(&args, ["-i", "https://example.test/playlist.m3u8"]));
    assert_eq!(args.last().unwrap(), "video.mp4");
}

#[test]
fn controlled_reporting_changes_only_the_reporting_flags() {
    let cli = plain().to_args();
    let mut reporting = plain();
    reporting.reporting = Reporting::controlled();
    let controlled = reporting.to_args();

    assert!(has_pair(&cli, ["-loglevel", "error"]));
    assert!(has(&cli, "-stats"));
    assert!(has_pair(&controlled, ["-loglevel", "info"]));
    assert!(has_pair(&controlled, ["-progress", "pipe:1"]));
    assert!(has_pair(&controlled, ["-stats_period", "0.5"]));
    assert!(!has(&controlled, "-stats"));
    assert_eq!(
        controlled.iter().filter(|argument| *argument == "-loglevel").count(),
        1,
        "one log level, not one overriding another: {controlled:?}"
    );

    let tail = |args: &[String]| {
        let at = args.iter().position(|argument| argument == "-i").unwrap();
        args[at..].to_vec()
    };
    assert_eq!(tail(&cli), tail(&controlled));
}

#[test]
fn reads_the_version_off_the_line_ffmpeg_actually_prints() {
    let ubuntu = parse_version(
        "ffmpeg version 6.1.1-3ubuntu5 Copyright (c) 2000-2023 the FFmpeg developers",
    )
    .expect("a distribution version parses");
    assert_eq!(ubuntu.display(), "6.1.1");
    assert!(!ubuntu.meets_minimum());

    let conda =
        parse_version("ffmpeg version 9.0.1 Copyright (c) 2000-2026 the FFmpeg developers")
            .expect("a release version parses");
    assert_eq!(conda.display(), "9.0.1");
    assert!(conda.meets_minimum());

    assert!(parse_version("ffmpeg version 7.1 Copyright").unwrap().meets_minimum());
    assert!(!parse_version("ffmpeg version 7.0.2 Copyright").unwrap().meets_minimum());

    assert_eq!(
        parse_version("ffmpeg version n4.4.1 Copyright").unwrap().display(),
        "4.4.1"
    );

    assert!(parse_version("ffmpeg version N-109755-g1b9f9c1a3d Copyright").is_none());
    assert!(parse_version("not ffmpeg at all").is_none());

    assert_eq!(minimum_ffmpeg().display(), "7.1");
}

#[test]
fn parses_ffmpeg_progress_from_a_dedicated_stream() {
    let input = "out_time_us=1500000\nout_time_ms=1500000\nprogress=continue\nprogress=end\n";
    let mut reader = ProgressReader::new();
    let mut updates: Vec<FfmpegProgress> = Vec::new();
    for line in input.lines() {
        if let Some(progress) = reader.read_line(line) {
            updates.push(progress);
        }
    }
    assert_eq!(updates.len(), 2);
    assert_eq!(updates[0].out_time_ms, Some(1_500));
    assert!(!updates[0].finished);
    assert!(updates[1].finished);
}

#[test]
fn pause_and_resume_can_be_queued_before_ffmpeg_starts() {
    let mut control = ProcessControl::new();
    control.pause().unwrap();
    assert!(control.is_paused());
    control.resume().unwrap();
    assert!(!control.is_paused());
    control.cancel();
    assert!(control.is_cancelled());
}

#[test]
fn a_version_is_read_off_the_first_line_of_what_ffmpeg_prints() {
    let printed = "ffmpeg version 7.1.2 Copyright\nbuilt with gcc 14\n";
    assert_eq!(version(Some(printed)).unwrap().display(), "7.1.2");
    assert!(version(None).is_none());
    assert!(version(Some("")).is_none());
}

#[test]
fn a_signal_goes_to_a_running_process_only() {
    let mut control = ProcessControl::new();
    assert!(matches!(control.pause(), Ok(None)));
    assert!(matches!(control.attach(), Some(Signal::Stop)), "it starts stopped");
    assert!(matches!(control.resume(), Ok(Some(Signal::Continue))));
    assert!(matches!(control.cancel(), Some(Signal::Kill)));
    assert!(control.cancelled_by_request());
    assert!(matches!(control.pause(), Err(reason) if reason == ALREADY_CANCELLED));
    assert!(matches!(control.resume(), Err(reason) if reason == ALREADY_CANCELLED));
    control.detach();
    assert!(control.is_cancelled());
}

#[test]
fn a_shutdown_is_no_request_of_the_user() {
    let mut control = ProcessControl::new();
    control.attach();
    control.cancel_for_shutdown();
    assert!(control.is_cancelled());
    assert!(!control.cancelled_by_request());
}

#[test]
fn resuming_waits_for_progress_to_go_on() {
    let mut control = ProcessControl::new();
    control.attach();
    control.note_progress(Some(1_000));
    control.pause().unwrap();
    control.resume().unwrap();
    assert!(control.resume_pending());
    control.note_progress(Some(1_000));
    assert!(control.resume_pending());
    control.note_progress(Some(1_500));
    assert!(!control.resume_pending());
}

#[test]
fn log_lines_are_the_same_however_they_arrive() {
    let text = "first line\rsecond line\n\nthird";
    let mut whole = LogReader::new();
    let mut all = whole.feed(text);
    all.extend(whole.finish());

    let mut parts = LogReader::new();
    let mut some = Vec::new();
    for c in text.chars() {
        some.extend(parts.feed(&c.to_string()));
    }
    some.extend(parts.finish());

    assert_eq!(all, ["first line", "second line", "third"]);
    assert_eq!(some, all);
}

#[test]
fn a_process_that_does_not_start_says_which_and_why() {
    assert!(matches!(
        spawn_failure(true, "/nowhere/ffmpeg", "No such file or directory"),
        DownerError::FfmpegUnavailable(_)
    ));
    assert!(matches!(
        spawn_failure(false, "/nowhere/ffmpeg", "out of memory"),
        DownerError::FfmpegFailed { status: None, .. }
    ));
}

#[test]
fn a_finished_process_gives_its_output_or_what_it_said() {
    assert!(matches!(
        finished("video.mp4", true, Some(0), "", &None),
        Ok(path) if path == "video.mp4"
    ));
    match finished("video.mp4", false, Some(17), "network failure", &None) {
        Err(DownerError::FfmpegFailed { status, stderr }) => {
            assert_eq!(status, Some(17));
            assert!(stderr.contains("network failure"), "{stderr}");
        }
        other => panic!("unexpected {other:?}"),
    }
}

#[test]
fn a_resume_with_nothing_running_owes_no_progress() {
    let mut control = ProcessControl::new();
    control.pause().unwrap();
    assert!(matches!(control.resume(), Ok(None)));
    assert!(!control.is_paused());
    assert!(!control.resume_pending());
}

#[test]
fn a_printed_version_is_read_back() {
    for (major, minor, patch) in [(7, 1, None), (6, 1, Some(1)), (4_294_967_295, 0, Some(0))] {
        let version = FfmpegVersion { major, minor, patch };
        let line = format!("ffmpeg version {} Copyright", version.display());
        assert_eq!(parse_version(&line), Some(version), "{line}");
    }
}

#[test]
fn a_version_is_asked_for_once() {
    let old = Some(FfmpegVersion { major: 6, minor: 1, patch: None });
    let mut versions = Versions::new();
    assert_eq!(versions.known("/usr/bin/ffmpeg"), None);
    assert_eq!(versions.learn("/usr/bin/ffmpeg", old), old);
    assert_eq!(versions.learn("/opt/ffmpeg", None), None);
    assert_eq!(versions.known("/usr//bin/ffmpeg"), Some(old));
    assert_eq!(versions.known("/opt/ffmpeg"), Some(None));
    assert_eq!(versions.learn("/usr/bin/ffmpeg", None), old);
}

#[test]
fn a_log_shows_no_secret_whatever_the_output_is_called() {
    let logged = |output: &str, cookie: &str| {
        let mut invocation = plain();
        invocation.output = output.to_string();
        invocation.cookies = Some(cookie.to_string());
        invocation.headers = Some(format!("X-Token: {cookie}\r\n"));
        let logged = invocation.to_log_args();
        assert_eq!(logged.len(), invocation.to_args().len());
        logged
    };
    for output in ["copy", "-i", "a=1", "video.mp4", "-cookies", "-headers"] {
        let one = logged(output, "a=1");
        assert_eq!(one, logged(output, "b=22"), "{output}");
        assert!(!one.contains(&"a=1".to_string()), "{one:?}");
    }
}

#[test]
fn an_input_named_like_an_option_shifts_nothing_in_a_log() {
    for input in ["-cookies", "-headers"] {
        let mut invocation = plain();
        invocation.input = input.to_string();
        invocation.audio_input = Some("audio.m3u8".to_string());
        invocation.reconnect = None;
        invocation.cookies = Some("session=secret".to_string());
        invocation.headers = Some("X-Token: secret\r\n".to_string());
        let logged = invocation.to_log_args();
        assert!(!logged.join(" ").contains("secret"), "{logged:?}");
        assert_eq!(logged.iter().filter(|arg| *arg == "<1 cookie>").count(), 2, "{logged:?}");
        assert_eq!(logged.iter().filter(|arg| *arg == "<X-Token>").count(), 2, "{logged:?}");
        assert_eq!(logged.last().map(String::as_str), Some(LOGGED_OUTPUT));
    }
}

#[test]
fn a_resume_that_is_owed_stays_owed() {
    let mut control = ProcessControl::new();
    control.attach();
    control.resume().unwrap();
    control.detach();
    control.resume().unwrap();
    assert!(control.resume_pending());
    control.note_progress(Some(1));
    assert!(!control.resume_pending());
}
