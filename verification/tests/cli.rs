use downer::cli::Cli;
use downer::discovery::{list, listing_text, select, Listing, SCHEMA_VERSION};
use downer::download::{connect_timeout, restarted, should_retry};
use downer::error::DownerError;
use downer::ffmpeg::{FfmpegInvocation, FfmpegVersion};
use downer::output::{validate_url, NamingHints, OnConflict, OutputTarget};
use downer::scraper::{
    classify_source, direct_media, media_in_page, parse_playlist, Playlist, Source, SourceMedia,
};
use downer::web::Url;
use downer::{
    conclude, exit_code, normalize_cookie, outdated_ffmpeg_warning, prepare, resolve_cookie,
    unsupported_ffmpeg, DownloadOptions, DEFAULT_TIMEOUT,
};

const SENTINEL: &str = "downer_sentinel=cookie-value";

fn url(raw: &str) -> Url {
    validate_url(raw).expect("a valid URL")
}

fn cli() -> Cli {
    Cli {
        url: Some("https://example.test/video.mp4".to_string()),
        output: None,
        dir: None,
        overwrite: false,
        on_conflict: None,
        name: None,
        rendition: None,
        list: false,
        json: false,
        select: None,
        media: None,
        ffmpeg: "ffmpeg".to_string(),
        user_agent: "agent".to_string(),
        cookie: None,
        cookie_file: None,
        threads: None,
        reconnect_delay_max: 30,
        no_reconnect: false,
        retries: 2,
        timeout: 30,
        command: None,
    }
}

fn page() -> SourceMedia {
    let html = r#"<html><body>
         <video data-src="http://127.0.0.1/media/master.m3u8"></video>
         <source src="http://127.0.0.1/media/trailer.mp4">
       </body></html>"#;
    media_in_page(html, url("http://127.0.0.1/watch")).expect("the page offers media")
}

const MASTER: &str = "#EXTM3U\n\
    #EXT-X-STREAM-INF:BANDWIDTH=400000,RESOLUTION=640x360,CODECS=\"avc1.4d401e,mp4a.40.2\"\n\
    low.m3u8\n\
    #EXT-X-STREAM-INF:BANDWIDTH=900000,RESOLUTION=1280x720,CODECS=\"avc1.64001f,mp4a.40.2\"\n\
    high.m3u8\n";

fn listing() -> Listing {
    let source = page();
    let master = parse_playlist(MASTER, &source.urls[0], &Vec::new());
    list(&source, &vec![Some(master), None])
}

#[test]
fn invalid_url_has_stable_exit_code() {
    let error = validate_url("ftp://example.test/video.mp4").unwrap_err();
    assert_eq!(exit_code(&error), 2);
    assert!(error.message().contains("unsupported scheme"));
}

#[test]
fn every_failure_has_a_stable_exit_code() {
    let text = || "x".to_string();
    let version = FfmpegVersion { major: 6, minor: 1, patch: None };
    for (error, code) in [
        (DownerError::InvalidUrl(text()), 2),
        (DownerError::CookieSource(text()), 2),
        (DownerError::HostArgument(text()), 2),
        (DownerError::OutputExists(text()), 3),
        (DownerError::OutputPath(text()), 3),
        (DownerError::OutputDirectory(text()), 3),
        (DownerError::OutputIo(text()), 3),
        (DownerError::FfmpegUnavailable(text()), 4),
        (DownerError::FfmpegTooOld { version, minimum: version, stderr: text() }, 4),
        (DownerError::FfmpegFailed { status: Some(1), stderr: text() }, 5),
        (DownerError::SourceFetchFailed { status: None, message: text() }, 5),
        (DownerError::MediaNotFound(text()), 5),
        (DownerError::CandidateNotOffered(text()), 5),
        (DownerError::VariantNotOffered(text()), 5),
        (DownerError::SetupCheckFailed, 6),
        (DownerError::NativeIo(text()), 1),
        (DownerError::Host(text()), 1),
    ] {
        assert_eq!(exit_code(&error), code, "{error:?}");
        assert!(!error.message().is_empty(), "{error:?}");
    }
}

fn options(quiet: bool) -> DownloadOptions {
    DownloadOptions {
        output: None,
        dir: Some("/downloads".to_string()),
        overwrite: false,
        on_conflict: None,
        naming: NamingHints::new(None),
        ffmpeg: "ffmpeg".to_string(),
        user_agent: "agent".to_string(),
        cookie: None,
        threads: None,
        quiet,
        playlist_text: None,
        rendition: None,
        keep_partial: false,
        reconnect: None,
        retries: 2,
        timeout: DEFAULT_TIMEOUT,
    }
}

fn target() -> OutputTarget {
    OutputTarget {
        path: "/downloads/stream.mp4".to_string(),
        overwrite: true,
        reserved: true,
    }
}

fn failed(stderr: &str) -> Result<String, DownerError> {
    Err(DownerError::FfmpegFailed {
        status: Some(17),
        stderr: stderr.to_string(),
    })
}

const OLD: FfmpegVersion = FfmpegVersion { major: 6, minor: 1, patch: Some(1) };

#[test]
fn an_ffmpeg_below_the_minimum_reports_its_version_and_the_minimum() {
    let outdated = unsupported_ffmpeg(Some(OLD));
    assert_eq!(outdated, Some(OLD));
    let conclusion =
        conclude(&options(true), &target(), outdated, failed("network failure"), None, false);
    let error = conclusion.result.unwrap_err();
    assert_eq!(exit_code(&error), 4);
    let message = error.message();
    assert!(
        message.contains("FFmpeg 6.1.1 is older than the minimum supported 7.1"),
        "{message}"
    );
    assert!(message.contains("network failure"), "{message}");
}

#[test]
fn an_old_ffmpeg_keeps_its_headline_and_loses_the_chatter() {
    let stderr = "ffmpeg stats and -progress period set to 0.5.\n\
        [tcp @ 0x1] Connection to tcp://127.0.0.1:8081 failed: Connection refused\n\
        Error opening input files: Invalid data found when processing input";
    let conclusion =
        conclude(&options(true), &target(), Some(OLD), failed(stderr), None, false);
    let message = conclusion.result.unwrap_err().message();
    assert!(message.contains("FFmpeg 6.1.1 is older than the minimum supported 7.1"));
    assert!(!message.contains("supported 7.1:\nffmpeg stats and -progress"), "{message}");
    assert!(message.contains("Connection refused"), "{message}");
}

fn stream_args(outdated: Option<FfmpegVersion>) -> Vec<String> {
    let media = downer::scraper::ResolvedMedia {
        url: url("https://example.test/stream.m3u8"),
        referer: None,
        user_agent: "agent".to_string(),
    };
    prepare(&media, &options(true), &target(), outdated, &None, false)
        .unwrap()
        .invocation
        .to_args()
}

#[test]
fn an_old_ffmpeg_downloads_hls_without_the_71_only_options() {
    let args = stream_args(Some(OLD));
    assert!(!args.iter().any(|argument| argument == "-allowed_segment_extensions"), "{args:?}");
    assert!(!args.iter().any(|argument| argument == "-extension_picky"));
    assert!(args.contains(&"https://example.test/stream.m3u8".to_string()));
    assert!(outdated_ffmpeg_warning(OLD)
        .contains("FFmpeg 6.1.1 is older than the minimum supported 7.1"));
}

#[test]
fn a_supported_ffmpeg_still_receives_the_segment_extension_options() {
    let args = stream_args(unsupported_ffmpeg(Some(FfmpegVersion {
        major: 9,
        minor: 0,
        patch: Some(1),
    })));
    assert!(args.windows(2).any(|pair| pair == ["-allowed_segment_extensions", "ALL"]));
    assert!(args.windows(2).any(|pair| pair == ["-extension_picky", "0"]));
}

#[test]
fn an_inferred_filename_renames_rather_than_failing() {
    assert_eq!(options(true).conflict_policy(), OnConflict::Rename);
}

#[test]
fn an_exact_output_path_still_fails_on_collision_by_default() {
    let mut exact = options(true);
    exact.output = Some("exact.mp4".to_string());
    assert_eq!(exact.conflict_policy(), OnConflict::Fail);
    exact.overwrite = true;
    assert_eq!(exact.conflict_policy(), OnConflict::Overwrite);
}

#[test]
fn on_conflict_overrides_the_inferred_default() {
    let mut chosen = options(true);
    for policy in [OnConflict::Fail, OnConflict::Overwrite, OnConflict::Rename] {
        chosen.on_conflict = Some(policy);
        assert_eq!(chosen.conflict_policy(), policy);
    }
}

#[test]
fn a_download_that_writes_nothing_leaves_no_file_behind() {
    let conclusion = conclude(&options(true), &target(), None, failed("x"), Some(0), false);
    assert!(conclusion.release);
    let partial = conclude(&options(true), &target(), None, failed("x"), Some(5), false);
    assert!(!partial.release);
    assert!(!partial.discard);
    let cancelled = conclude(&options(true), &target(), None, failed("x"), Some(5), true);
    assert!(cancelled.discard);
    let done = conclude(&options(true), &target(), None, Ok("p".to_string()), Some(0), true);
    assert!(matches!(done.result, Ok(path) if path == "p"));
    assert!(!done.release && !done.discard);
}

#[test]
fn cookie_file_is_read_and_forwarded_to_ffmpeg() {
    let cookie = resolve_cookie(&None, &Some(Ok(format!("{SENTINEL}\n"))), &Ok(None)).unwrap();
    assert_eq!(cookie.as_deref(), Some(SENTINEL));
}

#[test]
fn cookie_environment_variable_is_used_when_no_argument_is_given() {
    let cookie = resolve_cookie(&None, &None, &Ok(Some(SENTINEL.to_string()))).unwrap();
    assert_eq!(cookie.as_deref(), Some(SENTINEL));
}

#[test]
fn cookie_argument_takes_precedence_over_the_environment_variable() {
    let environment = Ok(Some("downer_sentinel=from-the-environment".to_string()));
    let cookie = resolve_cookie(&Some(SENTINEL.to_string()), &None, &environment).unwrap();
    assert_eq!(cookie.as_deref(), Some(SENTINEL));
}

#[test]
fn cookie_file_takes_precedence_over_the_environment_variable() {
    let environment = Ok(Some("downer_sentinel=from-the-environment".to_string()));
    let cookie = resolve_cookie(&None, &Some(Ok(SENTINEL.to_string())), &environment).unwrap();
    assert_eq!(cookie.as_deref(), Some(SENTINEL));
}

#[test]
fn a_blank_cookie_source_sends_no_cookie_header() {
    let cookie = resolve_cookie(&None, &Some(Ok("   \n".to_string())), &Ok(None)).unwrap();
    assert_eq!(cookie, None);
    assert_eq!(normalize_cookie(" a=1 \n").as_deref(), Some("a=1"));
}

#[test]
fn an_unreadable_cookie_file_is_an_input_error() {
    let reason = "/tmp/nothing-here.txt: No such file or directory".to_string();
    let error = resolve_cookie(&None, &Some(Err(reason)), &Ok(None)).unwrap_err();
    assert_eq!(exit_code(&error), 2);
    let message = error.message();
    assert!(message.contains("could not read cookie"), "{message}");
    assert!(message.contains("nothing-here.txt"), "{message}");
    assert!(resolve_cookie(&None, &None, &Err("DOWNER_COOKIE: bad".to_string())).is_err());
}

#[test]
fn list_prints_candidates_and_downloads_nothing() {
    let text = listing_text(&listing());
    assert!(text.contains("  1  hls"), "playlists come first:\n{text}");
    assert!(text.contains("/media/master.m3u8"), "{text}");
    assert!(text.contains("  2  file"), "{text}");
    assert!(text.contains("/media/trailer.mp4"), "{text}");
    assert!(text.contains("720p"), "{text}");
    assert!(text.contains("360p"), "{text}");
    assert!(text.contains("(default)"), "the 720p line is the default pick:\n{text}");
    assert_eq!(
        text,
        "Source: http://127.0.0.1/watch\n\n  \
         1  hls    http://127.0.0.1/media/master.m3u8\n       \
         720p  900 kbps  avc1.64001f,mp4a.40.2  (default)\n       \
         360p  400 kbps  avc1.4d401e,mp4a.40.2\n  \
         2  file   http://127.0.0.1/media/trailer.mp4\n\n\
         Download one with --select N, or name it with --media URL.\n\
         Choose a rendition with --rendition (best, worst, a height such as 720p, or a variant URL).\n"
    );
}

#[test]
fn list_json_carries_the_documented_keys() {
    let listing = listing();
    assert_eq!(listing.schema_version, SCHEMA_VERSION);
    assert!(listing.source.ends_with("/watch"));
    assert_eq!(listing.candidates.len(), 2);
    let first = &listing.candidates[0];
    assert_eq!(first.index, 1);
    assert_eq!(first.kind, "hls");
    assert!(!first.experimental);
    let second = &listing.candidates[1];
    assert_eq!(second.kind, "file");
    assert!(second.renditions.is_none());

    let renditions = first.renditions.as_ref().unwrap();
    assert_eq!(renditions.len(), 2);
    assert_eq!(renditions[0].height, Some(720));
    assert_eq!(renditions[0].bandwidth, 900_000);
    assert!(renditions[0].default);
    assert!(renditions[0].audio_url.is_none());
    assert_eq!(renditions[1].height, Some(360));
    assert!(!renditions[1].default);
}

#[test]
fn select_downloads_the_named_candidate() {
    let chosen = select(&page(), Some(2), None).unwrap();
    assert!(chosen.as_str().ends_with("trailer.mp4"));
    let first = select(&page(), None, None).unwrap();
    assert!(first.as_str().ends_with("master.m3u8"));
}

#[test]
fn media_downloads_the_named_candidate() {
    let chosen = select(&page(), None, Some("http://127.0.0.1/media/trailer.mp4")).unwrap();
    assert!(chosen.as_str().ends_with("trailer.mp4"));
}

#[test]
fn a_candidate_that_is_not_offered_is_refused() {
    let past = select(&page(), Some(9), None).unwrap_err();
    assert_eq!(exit_code(&past), 5);
    assert!(past.message().contains("2 candidates"), "{}", past.message());

    let elsewhere = select(&page(), None, Some("https://elsewhere.test/other.mp4")).unwrap_err();
    assert_eq!(exit_code(&elsewhere), 5);
    assert!(elsewhere.message().contains("does not offer it"), "{}", elsewhere.message());
    assert!(select(&page(), Some(0), None).is_err());
}

#[test]
fn a_malformed_media_argument_is_an_input_error() {
    let error = select(&page(), None, Some("not-a-url")).unwrap_err();
    assert_eq!(exit_code(&error), 2);
}

#[test]
fn listing_a_page_with_no_media_fails_like_a_download() {
    let error = media_in_page("<html><body>nothing here</body></html>", url("http://a.test/empty"))
        .unwrap_err();
    assert_eq!(exit_code(&error), 5);
    assert!(error.message().contains("no supported m3u8"), "{}", error.message());
}

#[test]
fn a_source_that_is_media_lists_itself() {
    let source = match classify_source("https://a.test/manifest.mpd").unwrap() {
        Source::Media(url) => direct_media(url),
        other => panic!("unexpected {other:?}"),
    };
    let listing = list(&source, &vec![Some(Playlist::Unusable)]);
    assert_eq!(listing.source, "https://a.test/manifest.mpd");
    assert_eq!(listing.candidates[0].kind, "dash");
    assert!(listing.candidates[0].experimental);
    assert!(listing.candidates[0].renditions.is_none());
    assert!(listing_text(&listing).contains("dash (experimental)"));
}

#[test]
fn the_command_line_becomes_a_download() {
    let mut asked = cli();
    asked.json = true;
    asked.name = Some("Lecture".to_string());
    let options = asked.options(Some(SENTINEL.to_string()));
    assert!(options.quiet);
    assert!(options.keep_partial);
    assert_eq!(options.cookie.as_deref(), Some(SENTINEL));
    assert_eq!(options.naming.title.as_deref(), Some("Lecture"));
    assert_eq!(options.reconnect.map(|policy| policy.delay_max), Some(30));
    let mut plain = cli();
    plain.no_reconnect = true;
    assert!(plain.reconnect().is_none());
    assert!(plain.options(None).reconnect.is_none());
}

#[test]
fn only_a_passing_failure_is_tried_again_and_only_so_often() {
    let passing = DownerError::FfmpegFailed {
        status: Some(1),
        stderr: "[tcp @ 0x2] Connection reset by peer".to_string(),
    };
    assert!(should_retry(2, 0, &passing, false));
    assert!(should_retry(2, 1, &passing, false));
    assert!(!should_retry(2, 2, &passing, false));
    assert!(!should_retry(0, 0, &passing, false));
    assert!(!should_retry(2, 0, &passing, true));
    let refused = DownerError::FfmpegFailed {
        status: Some(1),
        stderr: "Connection reset by peer\nServer returned 403 Forbidden".to_string(),
    };
    assert!(!should_retry(9, 0, &refused, false));
    assert!(!should_retry(9, 0, &DownerError::SetupCheckFailed, false));
    assert_eq!(connect_timeout(30), 10);
    assert_eq!(connect_timeout(8), 8);

    let run = FfmpegInvocation::new(
        "ffmpeg".to_string(),
        "https://a.test/v.mp4",
        "v.mp4".to_string(),
        false,
    );
    assert!(restarted(run).to_args().contains(&"-y".to_string()));
}

#[test]
fn what_is_listed_can_be_selected() {
    for candidate in listing().candidates {
        let by_number = select(&page(), Some(candidate.index), None).unwrap();
        assert_eq!(by_number.as_str(), candidate.url);
        let by_url = select(&page(), None, Some(&candidate.url)).unwrap();
        assert_eq!(by_url.as_str(), candidate.url);
    }
}
