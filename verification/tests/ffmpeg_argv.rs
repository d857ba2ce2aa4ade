use downer::output::{validate_url, NamingHints, OutputTarget};
use downer::scraper::ResolvedMedia;
use downer::{prepare, DownloadOptions, DEFAULT_TIMEOUT};

const USER_AGENT: &str = "downer-test/1.0";

struct Case {
    url: &'static str,
    referer: Option<&'static str>,
    threads: Option<u16>,
    overwrite: bool,
    controlled: bool,
}

impl Case {
    fn direct() -> Self {
        Case {
            url: "https://example.test/video.mp4",
            referer: None,
            threads: None,
            overwrite: false,
            controlled: false,
        }
    }
}

fn user_agent_header() -> String {
    format!("User-Agent: {USER_AGENT}\r\n")
}

fn argv_for(case: Case) -> Vec<String> {
    let media = ResolvedMedia {
        url: validate_url(case.url).expect("a valid URL"),
        referer: case.referer.map(|raw| validate_url(raw).expect("a valid URL")),
        user_agent: USER_AGENT.to_string(),
    };
    let options = DownloadOptions {
        output: Some("<OUTPUT>".to_string()),
        dir: None,
        overwrite: case.overwrite,
        on_conflict: None,
        naming: NamingHints::new(None),
        ffmpeg: "ffmpeg".to_string(),
        user_agent: USER_AGENT.to_string(),
        cookie: None,
        threads: case.threads,
        quiet: true,
        playlist_text: None,
        rendition: None,
        keep_partial: true,
        reconnect: None,
        retries: 0,
        timeout: DEFAULT_TIMEOUT,
    };
    let target = OutputTarget {
        path: "<OUTPUT>".to_string(),
        overwrite: case.overwrite,
        reserved: false,
    };
    prepare(&media, &options, &target, None, &None, case.controlled)
        .expect("the download is prepared")
        .invocation
        .to_args()
}

#[test]
fn direct_file() {
    assert_eq!(
        argv_for(Case::direct()),
        [
            "-hide_banner",
            "-loglevel",
            "error",
            "-stats",
            "-headers",
            &user_agent_header(),
            "-i",
            "https://example.test/video.mp4",
            "-c",
            "copy",
            "-n",
            "<OUTPUT>",
        ]
    );
}

#[test]
fn hls_carries_the_segment_extension_options() {
    assert_eq!(
        argv_for(Case {
            url: "https://example.test/playlist.m3u8",
            ..Case::direct()
        }),
        [
            "-hide_banner",
            "-loglevel",
            "error",
            "-stats",
            "-allowed_segment_extensions",
            "ALL",
            "-extension_picky",
            "0",
            "-headers",
            &user_agent_header(),
            "-i",
            "https://example.test/playlist.m3u8",
            "-c",
            "copy",
            "-n",
            "<OUTPUT>",
        ]
    );
}

#[test]
fn a_referer_joins_the_headers_block() {
    assert_eq!(
        argv_for(Case {
            referer: Some("https://example.test/page"),
            ..Case::direct()
        }),
        [
            "-hide_banner",
            "-loglevel",
            "error",
            "-stats",
            "-headers",
            &format!(
                "{}Referer: https://example.test/page\r\n",
                user_agent_header()
            ),
            "-i",
            "https://example.test/video.mp4",
            "-c",
            "copy",
            "-n",
            "<OUTPUT>",
        ]
    );
}

#[test]
fn threads_are_an_output_option() {
    assert_eq!(
        argv_for(Case {
            threads: Some(4),
            ..Case::direct()
        }),
        [
            "-hide_banner",
            "-loglevel",
            "error",
            "-stats",
            "-headers",
            &user_agent_header(),
            "-i",
            "https://example.test/video.mp4",
            "-c",
            "copy",
            "-threads",
            "4",
            "-n",
            "<OUTPUT>",
        ]
    );
}

#[test]
fn overwrite_replaces_the_refusal_flag() {
    assert_eq!(
        argv_for(Case {
            overwrite: true,
            ..Case::direct()
        }),
        [
            "-hide_banner",
            "-loglevel",
            "error",
            "-stats",
            "-headers",
            &user_agent_header(),
            "-i",
            "https://example.test/video.mp4",
            "-c",
            "copy",
            "-y",
            "<OUTPUT>",
        ]
    );
}

#[test]
fn controlled_mode_reports_progress_on_stdout() {
    assert_eq!(
        argv_for(Case {
            controlled: true,
            ..Case::direct()
        }),
        [
            "-hide_banner",
            "-loglevel",
            "info",
            "-nostats",
            "-stats_period",
            "0.5",
            "-progress",
            "pipe:1",
            "-headers",
            &user_agent_header(),
            "-i",
            "https://example.test/video.mp4",
            "-c",
            "copy",
            "-n",
            "<OUTPUT>",
        ]
    );
}
