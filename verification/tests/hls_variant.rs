use downer::download::{playlist_source, PlaylistSource};
use downer::error::DownerError;
use downer::ffmpeg::{FfmpegVersion, Reconnect};
use downer::output::{validate_url, NamingHints, OutputTarget};
use downer::scraper::{parse_playlist, segment_durations, Playlist, RenditionChoice, ResolvedMedia};
use downer::web::Url;
use downer::{describe_rendition, prepare, DownloadOptions, DEFAULT_TIMEOUT};

const USER_AGENT: &str = "downer-test/1.0";
const ORIGIN: &str = "http://127.0.0.1:8081";

fn at(path: &str) -> String {
    format!("{ORIGIN}{path}")
}

fn url(raw: &str) -> Url {
    validate_url(raw).expect("a valid URL")
}

fn options(playlist_text: Option<&str>, rendition: Option<&str>) -> DownloadOptions {
    DownloadOptions {
        output: Some("out.mp4".to_string()),
        dir: None,
        overwrite: false,
        on_conflict: None,
        naming: NamingHints::new(None),
        ffmpeg: "ffmpeg".to_string(),
        user_agent: USER_AGENT.to_string(),
        cookie: None,
        threads: None,
        quiet: true,
        playlist_text: playlist_text.map(str::to_string),
        rendition: rendition
            .map(|raw| raw.parse::<RenditionChoice>().expect("a valid rendition selector")),
        keep_partial: true,
        reconnect: Some(Reconnect::default()),
        retries: 0,
        timeout: DEFAULT_TIMEOUT,
    }
}

fn read(text: &str, base: &Url) -> Playlist {
    let durations = segment_durations(text)
        .iter()
        .map(|value| value.parse::<f64>().ok().map(|seconds| (seconds * 1_000.0).round() as u64))
        .collect();
    parse_playlist(text, base, &durations)
}

/// The arguments of a download whose playlist holds `text`, fetched or supplied.
fn argv_for_choice(
    raw: &str,
    text: Option<&str>,
    rendition: Option<&str>,
) -> Result<Vec<String>, DownerError> {
    let media = ResolvedMedia {
        url: url(raw),
        referer: None,
        user_agent: USER_AGENT.to_string(),
    };
    let target = OutputTarget {
        path: "out.mp4".to_string(),
        overwrite: false,
        reserved: false,
    };
    let playlist = text.map(|text| read(text, &media.url));
    let prepared = prepare(&media, &options(text, rendition), &target, None, &playlist, false)?;
    Ok(prepared.invocation.to_args())
}

fn argv_for(raw: &str, text: Option<&str>) -> Vec<String> {
    argv_for_choice(raw, text, None).expect("the download is prepared")
}

fn after_each(args: &[String], option: &str) -> Vec<String> {
    args.iter()
        .enumerate()
        .filter(|(_, argument)| *argument == option)
        .filter_map(|(at, _)| args.get(at + 1).cloned())
        .collect()
}

fn input_of(args: &[String]) -> String {
    after_each(args, "-i").remove(0)
}

fn master_playlist(low: &str, high: &str) -> String {
    format!(
        "#EXTM3U\n\
         #EXT-X-STREAM-INF:BANDWIDTH=100000,RESOLUTION=320x180\n{low}\n\
         #EXT-X-STREAM-INF:BANDWIDTH=800000,RESOLUTION=1280x720\n{high}\n"
    )
}

fn media_playlist() -> String {
    let mut lines = String::from("#EXTM3U\n#EXT-X-VERSION:3\n#EXT-X-TARGETDURATION:2\n");
    for index in 0..4 {
        lines.push_str("#EXTINF:2.0,\n");
        lines.push_str(&at(&format!("/media/high/segment{index}.ts")));
        lines.push('\n');
    }
    lines.push_str("#EXT-X-ENDLIST\n");
    lines
}

fn master_with_audio(video: &str, audio: &str) -> String {
    format!(
        "#EXTM3U\n\
         #EXT-X-MEDIA:TYPE=AUDIO,GROUP-ID=\"aud\",NAME=\"English\",DEFAULT=YES,URI=\"{audio}\"\n\
         #EXT-X-STREAM-INF:BANDWIDTH=800000,RESOLUTION=640x360,AUDIO=\"aud\"\n{video}\n"
    )
}

#[test]
fn a_master_playlist_resolves_to_the_highest_rendition() {
    let low = at("/media/low.m3u8");
    let high = at("/media/high.m3u8");
    let args = argv_for(&at("/media/master.m3u8"), Some(&master_playlist(&low, &high)));
    assert_eq!(
        input_of(&args),
        high,
        "FFmpeg is given the chosen rendition, not the master: {args:?}"
    );
    assert!(matches!(
        playlist_source(&url(&at("/media/master.m3u8")), &options(None, None)),
        PlaylistSource::Fetch
    ));
}

#[test]
fn a_media_playlist_is_passed_through_unchanged() {
    let url = at("/media/video.m3u8");
    let args = argv_for(&url, Some(&media_playlist()));
    assert_eq!(
        input_of(&args),
        url,
        "a playlist with no renditions is used as given: {args:?}"
    );
}

#[test]
fn a_master_with_separate_audio_resolves_to_the_variant_and_its_audio() {
    let video = at("/media/v/video.m3u8");
    let audio = at("/media/a/audio.m3u8");
    let args = argv_for(&at("/media/with-audio.m3u8"), Some(&master_with_audio(&video, &audio)));
    assert_eq!(after_each(&args, "-i"), [video, audio], "{args:?}");
    assert_eq!(
        after_each(&args, "-map"),
        ["0:v:0", "1:a:0"],
        "input 0 is a media playlist, so 0:v:0 is unambiguous: {args:?}"
    );
}

#[test]
fn each_input_carries_the_session_options() {
    let video = at("/media/v/video.m3u8");
    let audio = at("/media/a/audio.m3u8");
    let args = argv_for(&at("/media/with-audio.m3u8"), Some(&master_with_audio(&video, &audio)));
    assert_eq!(after_each(&args, "-headers").len(), 2, "{args:?}");
    assert_eq!(after_each(&args, "-allowed_segment_extensions").len(), 2, "{args:?}");
}

#[test]
fn an_explicitly_chosen_rendition_is_the_one_downloaded() {
    let low = at("/media/low/video.m3u8");
    let high = at("/media/high/video.m3u8");
    let audio = at("/media/a/audio.m3u8");
    let master = format!(
        "#EXTM3U\n\
         #EXT-X-MEDIA:TYPE=AUDIO,GROUP-ID=\"aud\",NAME=\"English\",DEFAULT=YES,URI=\"{audio}\"\n\
         #EXT-X-STREAM-INF:BANDWIDTH=200000,RESOLUTION=320x180,AUDIO=\"aud\"\n{low}\n\
         #EXT-X-STREAM-INF:BANDWIDTH=900000,RESOLUTION=1280x720,AUDIO=\"aud\"\n{high}\n"
    );
    let url = at("/media/master.m3u8");

    let args = argv_for(&url, Some(&master));
    assert_eq!(after_each(&args, "-i"), [high, audio.clone()], "{args:?}");

    let args = argv_for_choice(&url, Some(&master), Some(&low)).expect("the rendition is offered");
    assert_eq!(after_each(&args, "-i"), [low, audio], "{args:?}");
}

#[test]
fn a_rendition_that_is_not_offered_is_refused() {
    let high = at("/media/high/video.m3u8");
    let master =
        format!("#EXTM3U\n#EXT-X-STREAM-INF:BANDWIDTH=900000,RESOLUTION=1280x720\n{high}\n");
    let absent = at("/media/4k/video.m3u8");
    let error = argv_for_choice(&at("/media/master.m3u8"), Some(&master), Some(&absent))
        .expect_err("an unoffered rendition is refused");
    assert!(
        matches!(error, DownerError::VariantNotOffered(_)),
        "{error:?}"
    );
    assert!(error.message().contains("does not offer that rendition"));
}

#[test]
fn an_unreadable_playlist_falls_back_to_the_url_as_given() {
    let url = at("/media/challenged.m3u8");
    let args = argv_for(&url, Some("<!DOCTYPE html><title>Attention Required!</title>"));
    assert_eq!(
        input_of(&args),
        url,
        "an unparseable playlist falls back rather than failing: {args:?}"
    );

    let missing = at("/media/absent.m3u8");
    assert_eq!(input_of(&argv_for(&missing, None)), missing);
}

#[test]
fn a_supplied_master_playlist_is_used_without_any_fetch() {
    let low = at("/media/low.m3u8");
    let high = at("/media/high.m3u8");
    let raw = at("/media/master.m3u8");
    let text = master_playlist(&low, &high);
    assert_eq!(input_of(&argv_for(&raw, Some(&text))), high);
    assert!(matches!(
        playlist_source(&url(&raw), &options(Some(&text), None)),
        PlaylistSource::Supplied
    ));
}

#[test]
fn a_supplied_media_playlist_needs_no_fetch_either() {
    let raw = at("/media/video.m3u8");
    let text = media_playlist();
    assert_eq!(input_of(&argv_for(&raw, Some(&text))), raw);
    assert!(matches!(
        playlist_source(&url(&raw), &options(Some(&text), None)),
        PlaylistSource::Supplied
    ));
    assert!(matches!(
        playlist_source(&url(&at("/media/video.mp4")), &options(None, None)),
        PlaylistSource::Nowhere
    ));
}

#[test]
fn supplied_text_that_is_not_a_playlist_falls_back() {
    let url = at("/media/challenged.m3u8");
    let args = argv_for(&url, Some("<!DOCTYPE html><title>Attention Required!</title>"));
    assert_eq!(input_of(&args), url);
}

#[test]
fn a_rendition_selector_reads_the_words_a_person_would_type() {
    assert_eq!("best".parse(), Ok(RenditionChoice::Best));
    assert_eq!("WORST".parse(), Ok(RenditionChoice::Worst));
    assert_eq!("720p".parse(), Ok(RenditionChoice::Height(720)));
    assert_eq!("720".parse(), Ok(RenditionChoice::Height(720)));
    assert_eq!("1280x720".parse(), Ok(RenditionChoice::Height(720)));
    assert_eq!(
        "https://cdn.test/v/high.m3u8".parse(),
        Ok(RenditionChoice::Exact(url("https://cdn.test/v/high.m3u8")))
    );
    assert!("file:///etc/passwd".parse::<RenditionChoice>().is_err());
    assert!("medium".parse::<RenditionChoice>().is_err());
}

#[test]
fn a_rendition_selector_picks_by_height_and_by_worst() {
    let low = at("/media/low/video.m3u8");
    let high = at("/media/high/video.m3u8");
    let master = format!(
        "#EXTM3U\n\
         #EXT-X-STREAM-INF:BANDWIDTH=200000,RESOLUTION=320x180\n{low}\n\
         #EXT-X-STREAM-INF:BANDWIDTH=900000,RESOLUTION=1280x720\n{high}\n"
    );
    let url = at("/media/master.m3u8");

    for (selector, expected) in [
        ("best", &high),
        ("worst", &low),
        ("720p", &high),
        ("180p", &low),
    ] {
        let args =
            argv_for_choice(&url, Some(&master), Some(selector)).expect("the download is prepared");
        assert_eq!(&input_of(&args), expected, "--rendition {selector}");
    }

    let error = argv_for_choice(&url, Some(&master), Some("1440p")).expect_err("not offered");
    assert!(error.message().contains("1440p"), "{}", error.message());
}

#[test]
fn a_rendition_is_described_in_the_words_that_choose_it() {
    assert_eq!(describe_rendition(&RenditionChoice::Best), "best");
    assert_eq!(describe_rendition(&RenditionChoice::Worst), "worst");
    assert_eq!(describe_rendition(&RenditionChoice::Height(720)), "720p");
    assert_eq!(
        describe_rendition(&RenditionChoice::Exact(url("https://cdn.test/v.m3u8"))),
        "https://cdn.test/v.m3u8"
    );
}

#[test]
fn a_download_says_what_it_does_unless_it_is_quiet() {
    let media = ResolvedMedia {
        url: url(&at("/media/master.m3u8")),
        referer: Some(url(&at("/watch"))),
        user_agent: USER_AGENT.to_string(),
    };
    let target = OutputTarget {
        path: "out.mp4".to_string(),
        overwrite: true,
        reserved: true,
    };
    let high = at("/media/high.m3u8");
    let text = master_playlist(&at("/media/low.m3u8"), &high);
    let playlist = Some(read(&text, &media.url));
    let old = Some(FfmpegVersion { major: 6, minor: 1, patch: Some(1) });
    let mut loud = options(None, None);
    loud.quiet = false;
    let prepared = prepare(&media, &loud, &target, old, &playlist, true).unwrap();
    let said = prepared.notices.join("\n");
    assert!(said.contains(&format!("Selected rendition: {high}")), "{said}");
    assert!(!prepared.invocation.hls_lenient);
    assert!(prepared.invocation.overwrite);

    let silent = prepare(&media, &options(None, None), &target, old, &playlist, true).unwrap();
    assert!(silent.notices.is_empty());
}

#[test]
fn a_described_rendition_is_read_back() {
    for choice in [RenditionChoice::Best, RenditionChoice::Worst, RenditionChoice::Height(1080)] {
        assert_eq!(describe_rendition(&choice).parse(), Ok(choice));
    }
}
