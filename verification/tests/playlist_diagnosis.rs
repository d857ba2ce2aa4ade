use downer::output::validate_url;
use downer::probe::{parent_playlist, Fetched, Next, Probe};
use downer::scraper::{
    playlist_refusal, request_failure, segment_durations, HlsInfo, PlaylistProblem,
};
use downer::web::Url;

fn url(raw: &str) -> Url {
    validate_url(raw).expect("a valid URL")
}

fn durations(text: &str) -> Vec<Option<u64>> {
    segment_durations(text)
        .iter()
        .map(|value| value.parse::<f64>().ok().map(|seconds| (seconds * 1_000.0).round() as u64))
        .collect()
}

enum Reply {
    Text(&'static str),
    Challenge,
}

/// Run a search against a server that holds these replies and answers 404 for
/// everything else; also, what was fetched and as if from which page.
fn search(
    raw: &str,
    referer: Option<&str>,
    routes: &[(&str, Reply)],
) -> (Result<HlsInfo, PlaylistProblem>, Vec<(String, Option<String>)>) {
    let mut seen = Vec::new();
    let mut next = Probe::start(&url(raw), &referer.map(url));
    loop {
        match next {
            Next::Done(result) => return (result, seen),
            Next::Fetch(probe, target, page) => {
                seen.push((target.path.clone(), page.map(|page| page.path.clone())));
                let reply = routes.iter().find(|(path, _)| *path == target.path);
                let fetched = match reply {
                    Some((_, Reply::Text(text))) => {
                        Fetched::Text(text.to_string(), target, durations(text))
                    }
                    Some((_, Reply::Challenge)) => {
                        Fetched::Failed(playlist_refusal(403, true, "403 Forbidden"))
                    }
                    None => Fetched::Failed(playlist_refusal(404, false, "404 Not Found")),
                };
                next = probe.step(fetched);
            }
        }
    }
}

fn probe(routes: &[(&str, Reply)], path: &str) -> Result<HlsInfo, PlaylistProblem> {
    search(&format!("http://127.0.0.1:8081{path}"), None, routes).0
}

#[test]
fn a_challenge_by_header_is_named_as_one() {
    assert_eq!(
        probe(&[("/media/index.m3u8", Reply::Challenge)], "/media/index.m3u8"),
        Err(PlaylistProblem::Challenged)
    );
    let message = PlaylistProblem::Challenged.message();
    assert!(
        message.contains("Cloudflare challenge"),
        "and it says so in the words the CLI already uses: {message}"
    );
}

#[test]
fn a_challenge_served_as_200_is_still_named_as_one() {
    let body = "<!DOCTYPE html>\n<title>Attention Required! | Cloudflare</title>\n<body>…</body>";
    assert_eq!(
        probe(&[("/media/index.m3u8", Reply::Text(body))], "/media/index.m3u8"),
        Err(PlaylistProblem::Challenged)
    );
}

#[test]
fn a_body_that_is_not_a_playlist_says_that_and_not_no_segments() {
    let body = "<!DOCTYPE html><title>Sign in</title>";
    assert_eq!(
        probe(&[("/media/index.m3u8", Reply::Text(body))], "/media/index.m3u8"),
        Err(PlaylistProblem::NotAPlaylist)
    );
    assert!(PlaylistProblem::NotAPlaylist
        .message()
        .contains("not a playlist"));
}

#[test]
fn an_empty_playlist_still_reports_no_segments() {
    let body = "#EXTM3U\n#EXT-X-VERSION:3\n#EXT-X-ENDLIST\n";
    assert_eq!(
        probe(&[("/media/index.m3u8", Reply::Text(body))], "/media/index.m3u8"),
        Err(PlaylistProblem::NoSegments)
    );
    assert!(PlaylistProblem::NoSegments
        .message()
        .contains("no segments"));
}

#[test]
fn an_error_status_is_reported_with_the_status() {
    let problem = probe(&[], "/media/missing.m3u8").expect_err("404 is not a playlist");
    let PlaylistProblem::Unreachable(reason) = problem else {
        panic!("expected Unreachable, got {problem:?}");
    };
    assert!(reason.contains("404"), "{reason}");
}

#[test]
fn an_unreachable_server_says_so_without_quoting_the_url() {
    let target = url("http://127.0.0.1:9/media/index.m3u8");
    let failed = || {
        Fetched::Failed(PlaylistProblem::Unreachable(
            request_failure(false, true, false).to_string(),
        ))
    };
    let mut next = Probe::start(&target, &None);
    let problem = loop {
        match next {
            Next::Done(result) => break result.expect_err("nothing answers"),
            Next::Fetch(probe, _, _) => next = probe.step(failed()),
        }
    };
    let PlaylistProblem::Unreachable(reason) = problem else {
        panic!("expected Unreachable, got {problem:?}");
    };
    assert!(
        !reason.contains("127.0.0.1") && !reason.contains("media/index.m3u8"),
        "the reason must not quote the URL: {reason}"
    );
    assert!(reason.contains("could not be reached"), "{reason}");
}

#[test]
fn a_real_playlist_still_reports_its_totals() {
    let body = "#EXTM3U\n#EXTINF:4.0,\nseg0.ts\n#EXTINF:2.5,\nseg1.ts\n#EXT-X-ENDLIST\n";
    let info = probe(&[("/media/index.m3u8", Reply::Text(body))], "/media/index.m3u8")
        .expect("a playlist with segments");
    assert_eq!(info.total_segments, 2);
    assert_eq!(info.total_duration_ms, 6500);
}

const MASTER: &str = "#EXTM3U\n\
    #EXT-X-STREAM-INF:BANDWIDTH=200000\nlow/index.m3u8\n\
    #EXT-X-STREAM-INF:BANDWIDTH=900000\nhigh/index.m3u8\n";

const LOW: &str = "#EXTM3U\n#EXTINF:1.0,\nseg0.ts\n";

const HIGH: &str = "#EXTM3U\n#EXTINF:2.0,\nseg0.ts\n#EXTINF:2.0,\nseg1.ts\n";

#[test]
fn a_master_leads_to_its_best_rendition() {
    let routes = [
        ("/v/master.m3u8", Reply::Text(MASTER)),
        ("/v/high/index.m3u8", Reply::Text(HIGH)),
    ];
    let (result, seen) =
        search("http://a.test/v/master.m3u8", Some("http://a.test/watch"), &routes);
    assert_eq!(result.unwrap().total_duration_ms, 4_000);
    let page = Some("/watch".to_string());
    assert_eq!(
        seen,
        [
            ("/v/master.m3u8".to_string(), page.clone()),
            ("/v/high/index.m3u8".to_string(), page),
        ]
    );
}

#[test]
fn a_refused_rendition_is_fetched_again_from_its_playlist() {
    let routes = [("/v/master.m3u8", Reply::Text(MASTER))];
    let (result, seen) = search("http://a.test/v/master.m3u8", None, &routes);
    assert!(matches!(result, Err(PlaylistProblem::Unreachable(_))));
    assert_eq!(
        seen,
        [
            ("/v/master.m3u8".to_string(), None),
            ("/v/high/index.m3u8".to_string(), None),
            ("/v/high/index.m3u8".to_string(), Some("/v/master.m3u8".to_string())),
            ("/playlist.m3u8".to_string(), None),
        ]
    );
}

#[test]
fn the_playlist_above_is_asked_for_the_rendition_that_was_given() {
    let routes = [
        ("/v/playlist.m3u8", Reply::Text(MASTER)),
        ("/v/low/index.m3u8", Reply::Text("<html>")),
    ];
    let (result, seen) = search("http://a.test/v/low/index.m3u8", None, &routes);
    assert_eq!(result, Err(PlaylistProblem::NotAPlaylist));
    assert_eq!(
        seen.iter().map(|(path, _)| path.as_str()).collect::<Vec<_>>(),
        ["/v/low/index.m3u8", "/v/playlist.m3u8", "/v/low/index.m3u8"]
    );
    let found = [("/v/low/index.m3u8", Reply::Text(LOW))];
    assert_eq!(probe(&found, "/v/low/index.m3u8").unwrap().total_segments, 1);
}

#[test]
fn the_playlist_above_itself_is_not_asked_again() {
    assert!(parent_playlist(&url("http://a.test/playlist.m3u8")).is_none());
    assert_eq!(
        parent_playlist(&url("http://a.test/v/x/i.m3u8")).unwrap().as_str(),
        "http://a.test/v/playlist.m3u8"
    );
}
