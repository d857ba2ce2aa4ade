use downer::output::validate_url;
use downer::scraper::{
    classify_body, classify_source, collapse_segments, cookie_attributes_list, direct_media,
    extract_media_urls, ffmpeg_cookies, ffmpeg_headers, is_master_playlist, master_entries,
    media_extensions_list, media_in_page, media_kind, parse_attributes, parse_hls_info,
    parse_playlist, read_candidates, read_reference, request_failure, resolve_media,
    segment_durations, source_refusal, without_segments, HlsInfo,
    MasterPlaylist, MediaKind, Playlist, PlaylistProblem, Reference, RenditionChoice, Source,
};
use downer::error::DownerError;
use downer::web::{Url, MAX_NESTED};

fn url(raw: &str) -> Url {
    validate_url(raw).expect("a valid URL")
}

fn durations(text: &str) -> Vec<Option<u64>> {
    segment_durations(text)
        .iter()
        .map(|value| value.parse::<f64>().ok().map(|seconds| (seconds * 1_000.0).round() as u64))
        .collect()
}

fn hls_info(text: &str) -> Option<HlsInfo> {
    parse_hls_info(&durations(text))
}

const SEGMENTS_PLAYLIST: &str = "#EXTM3U\n\
    #EXT-X-VERSION:3\n\
    #EXT-X-TARGETDURATION:7\n\
    #EXTINF:6.006,\n\
    segment0.ts\n\
    #EXTINF:4.5,last\n\
    segment1.ts\n\
    #EXT-X-ENDLIST\n";

const TOLERANT_PLAYLIST: &str = "#EXTM3U\n  \
    #EXTINF:3.25,\n  segment0.ts\n\
    #EXTINF:not-a-number,\nsegment1.ts\n\
    \t#EXTINF:2.25\nsegment2.ts\n";

const MASTER_PLAYLIST: &str = "#EXTM3U\n  \
    #EXT-X-STREAM-INF:BANDWIDTH=400000,RESOLUTION=640x360\n  \
    low/video.m3u8\n\
    \t#EXT-X-STREAM-INF:BANDWIDTH=1200000,RESOLUTION=1280x720\n\
    \thigh/video.m3u8\n";

const SEPARATE_AUDIO_MASTER: &str = "#EXTM3U\n\
    #EXT-X-MEDIA:TYPE=AUDIO,GROUP-ID=\"aud\",NAME=\"French\",LANGUAGE=\"fr\",DEFAULT=NO,URI=\"audio/fr.m3u8\"\n\
    #EXT-X-MEDIA:TYPE=AUDIO,GROUP-ID=\"aud\",NAME=\"English\",LANGUAGE=\"en\",DEFAULT=YES,URI=\"audio/en.m3u8\"\n\
    #EXT-X-STREAM-INF:BANDWIDTH=200000,RESOLUTION=320x180,CODECS=\"avc1.4d400d,mp4a.40.2\",AUDIO=\"aud\"\n\
    low/video.m3u8\n\
    #EXT-X-STREAM-INF:BANDWIDTH=900000,RESOLUTION=1280x720,CODECS=\"avc1.64001f,mp4a.40.2\",AUDIO=\"aud\"\n\
    high/video.m3u8\n";

const SUBTITLES_ONLY_MASTER: &str = "#EXTM3U\n\
    #EXT-X-MEDIA:TYPE=SUBTITLES,GROUP-ID=\"subs\",NAME=\"English\",URI=\"subs/en.m3u8\"\n\
    #EXT-X-STREAM-INF:BANDWIDTH=200000,RESOLUTION=320x180,SUBTITLES=\"subs\"\n\
    low/video.m3u8\n\
    #EXT-X-STREAM-INF:BANDWIDTH=900000,RESOLUTION=1280x720,SUBTITLES=\"subs\"\n\
    high/video.m3u8\n";

fn master_of(text: &str) -> MasterPlaylist {
    let base = url("https://example.test/master.m3u8");
    match parse_playlist(text, &base, &durations(text)) {
        Playlist::Master(master) => master,
        other => panic!("expected a master, got {other:?}"),
    }
}

#[test]
fn media_extensions_match_the_shared_vocabulary() {
    let listed = media_extensions_list();
    assert_eq!(
        listed,
        [
            ".m3u8", ".mpd", ".mp4", ".webm", ".mov", ".m4v", ".mkv", ".avi", ".flv", ".ts",
            ".mpeg", ".mpg", ".ogg", ".ogv", ".3gp"
        ]
    );
}

#[test]
fn extracts_relative_and_absolute_media_urls_with_playlists_first() {
    let base = url("https://example.test/watch/123");
    let html = r#"
        <video data-src="/video.mp4"></video>
        <script>const stream = "https:\\/\\/cdn.example.test/live.m3u8?token=abc";</script>
        <a href="cover.jpg">cover</a>
    "#;
    let urls = extract_media_urls(html, &base);
    assert_eq!(
        urls[0].as_str(),
        "https://cdn.example.test/live.m3u8?token=abc"
    );
    assert!(urls
        .iter()
        .any(|url| url.as_str() == "https://example.test/video.mp4"));
    assert!(!urls.iter().any(|url| url.as_str().ends_with("cover.jpg")));
}

#[test]
fn builds_ffmpeg_headers_for_discovered_media() {
    let referer = url("https://example.test/watch/123");
    let headers = ffmpeg_headers(Some(&referer), "Test Agent").unwrap();
    assert!(headers.contains("User-Agent: Test Agent\r\n"));
    assert!(headers.contains("Referer: https://example.test/watch/123\r\n"));
    assert!(
        !headers.contains("Cookie"),
        "cookies go to -cookies, never the -headers block: {headers:?}"
    );
}

#[test]
fn scopes_cookies_to_the_url_authority_as_written() {
    let implicit = url("https://cdn.example.test/video.m3u8");
    assert_eq!(
        ffmpeg_cookies(&implicit, Some("sid=downer-sentinel")).unwrap(),
        "sid=downer-sentinel; path=/; domain=cdn.example.test",
        "a default port must not appear in domain="
    );

    let explicit = url("http://localhost:60254/video.mp4");
    assert_eq!(
        ffmpeg_cookies(&explicit, Some("sid=downer-sentinel")).unwrap(),
        "sid=downer-sentinel; path=/; domain=localhost:60254",
        "a stated port must appear in domain="
    );

    let stated_default = url("https://cdn.example.test:443/video.mp4");
    assert!(ffmpeg_cookies(&stated_default, Some("sid=downer-sentinel"))
        .unwrap()
        .ends_with("domain=cdn.example.test"));
}

#[test]
fn renders_one_cookies_entry_per_cookie() {
    let url = url("https://cdn.example.test/video.mp4");
    let rendered = ffmpeg_cookies(&url, Some("a=1; b=2 ;; c=3")).unwrap();
    assert_eq!(
        rendered.lines().collect::<Vec<_>>(),
        [
            "a=1; path=/; domain=cdn.example.test",
            "b=2; path=/; domain=cdn.example.test",
            "c=3; path=/; domain=cdn.example.test",
        ]
    );

    assert!(ffmpeg_cookies(&url, None).is_none());
    assert!(
        ffmpeg_cookies(&url, Some("   ")).is_none(),
        "a header with no name=value pair renders no -cookies argument"
    );
}

#[test]
fn a_cookie_value_cannot_open_an_entry_of_its_own() {
    let url = url("https://cdn.example.test/video.mp4");
    let rendered = ffmpeg_cookies(
        &url,
        Some("sid=downer-sentinel\nevil=1; path=/; domain=attacker.test"),
    )
    .unwrap();
    assert_eq!(rendered.lines().count(), 1, "{rendered:?}");
    assert!(!rendered.contains("attacker.test"), "{rendered:?}");
    assert!(
        rendered.ends_with("domain=cdn.example.test"),
        "{rendered:?}"
    );
    assert_eq!(rendered.matches("domain=").count(), 1, "{rendered:?}");

    let semicolons =
        ffmpeg_cookies(&url, Some("sid=x; domain=attacker.test; path=/; secure")).unwrap();
    assert_eq!(
        semicolons, "sid=x; path=/; domain=cdn.example.test",
        "attribute pairs are dropped, not rendered as cookies"
    );
    assert!(cookie_attributes_list().contains(&"domain"));
}

#[test]
fn header_values_cannot_inject_extra_header_lines() {
    let headers = ffmpeg_headers(None, "Agent\r\nX-Injected-By-Agent: yes").unwrap();
    let lines: Vec<&str> = headers
        .split("\r\n")
        .filter(|line| !line.is_empty())
        .collect();
    assert_eq!(lines.len(), 1, "one line per supplied header: {lines:?}");
    assert_eq!(
        lines[0], "User-Agent: AgentX-Injected-By-Agent: yes",
        "{lines:?}"
    );
}

#[test]
fn direct_media_urls_skip_page_fetching() {
    let source = match classify_source("https://cdn.example.test/video.mp4") {
        Ok(Source::Media(url)) => direct_media(url),
        other => panic!("unexpected {other:?}"),
    };
    assert_eq!(source.source().as_str(), "https://cdn.example.test/video.mp4");
    let resolved = resolve_media(source, "Test Agent");
    assert_eq!(resolved.url.as_str(), "https://cdn.example.test/video.mp4");
    assert!(resolved.referer.is_none());
    assert_eq!(resolved.user_agent, "Test Agent");
}

fn scanned(html: &str) -> Vec<String> {
    let base = url("https://example.test/files/index.html");
    let mut urls: Vec<String> = extract_media_urls(html, &base)
        .iter()
        .map(|url| url.as_str().to_string())
        .collect();
    urls.sort();
    urls
}

#[test]
fn resolves_relative_anchor_links_like_the_extension() {
    let page = r#"<html><body>
        <a href="movie.mp4">movie</a>
        <a href='/archive/talk.webm'>talk</a>
        <a href="media/clip.m3u8">clip</a>
        <a href="https://cdn.example.test/promo.mp4">promo</a>
        <a href="about.html">about</a>
    </body></html>"#;
    assert_eq!(
        scanned(page),
        [
            "https://cdn.example.test/promo.mp4",
            "https://example.test/archive/talk.webm",
            "https://example.test/files/media/clip.m3u8",
            "https://example.test/files/movie.mp4",
        ]
    );
}

#[test]
fn ignores_anchors_to_non_media_files() {
    let page = r#"<a href="index.html">i</a><a href="cover.jpg">c</a><a href="app.ts">t</a>
        <a href="mailto:me@example.test">m</a><a href="notes.txt?file=x.mp4">n</a>"#;
    assert!(scanned(page).is_empty(), "{:?}", scanned(page));
}

#[test]
fn deduplicates_media_reached_by_both_src_and_href() {
    let page = r#"<video src="/media/feature.mp4"></video>
        <a href="https://example.test/media/feature.mp4">download</a>"#;
    assert_eq!(scanned(page), ["https://example.test/media/feature.mp4"]);
}

#[test]
fn reads_every_attribute_the_extension_reads() {
    let page = r#"
        <video src="/a/one.mp4"></video>
        <a href="/a/two.webm">two</a>
        <div data-src="/a/three.m3u8"></div>
        <div data-video="/a/four.mkv"></div>
        <div data-hls="/a/five.mov"></div>
        <div data-url="/a/six.m4v"></div>
        <div data-file="/a/seven.flv"></div>
        <player file="/a/eight.ogv"></player>
        <player video_url='/a/nine.mpd'></player>
    "#;
    assert_eq!(
        scanned(page),
        [
            "https://example.test/a/eight.ogv",
            "https://example.test/a/five.mov",
            "https://example.test/a/four.mkv",
            "https://example.test/a/nine.mpd",
            "https://example.test/a/one.mp4",
            "https://example.test/a/seven.flv",
            "https://example.test/a/six.m4v",
            "https://example.test/a/three.m3u8",
            "https://example.test/a/two.webm",
        ]
    );
}

#[test]
fn counts_hls_segments_and_duration() {
    assert_eq!(
        hls_info(SEGMENTS_PLAYLIST),
        Some(HlsInfo {
            total_segments: 2,
            total_duration_ms: 10_506,
        })
    );
}

#[test]
fn hls_metadata_tolerates_indentation_and_bad_duration_lines() {
    assert_eq!(
        hls_info(TOLERANT_PLAYLIST),
        Some(HlsInfo {
            total_segments: 2,
            total_duration_ms: 5_500,
        })
    );
    assert_eq!(segment_durations(TOLERANT_PLAYLIST), ["3.25", "not-a-number", "2.25"]);
    assert_eq!(hls_info("#EXTM3U\n"), None);
}

#[test]
fn hls_variant_selection_tolerates_indentation() {
    let master = master_of(MASTER_PLAYLIST);
    assert_eq!(
        master.choose_rendition(None).unwrap().video.as_str(),
        "https://example.test/high/video.m3u8"
    );
    let preferred = url("https://example.test/low/video.m3u8");
    assert_eq!(
        master
            .choose_rendition(Some(&RenditionChoice::Exact(preferred.copy())))
            .unwrap()
            .video
            .as_str(),
        preferred.as_str()
    );
}

#[test]
fn renditions_are_ordered_by_what_the_master_declares_not_by_position() {
    let master = master_of(SEPARATE_AUDIO_MASTER);
    assert_eq!(
        master
            .renditions
            .iter()
            .map(|rendition| rendition.bandwidth)
            .collect::<Vec<_>>(),
        [900_000, 200_000],
        "the fixture lists the low rendition first, on purpose"
    );
    let best = master.default_rendition().unwrap();
    assert_eq!(best.width, Some(1280));
    assert_eq!(best.height, Some(720));
    assert_eq!(best.codecs.as_deref(), Some("avc1.64001f,mp4a.40.2"));
}

#[test]
fn a_quoted_comma_does_not_split_the_attribute_list() {
    let master = master_of(SEPARATE_AUDIO_MASTER);
    let best = master.default_rendition().unwrap();
    assert_eq!(best.audio_group.as_deref(), Some("aud"));
    assert_eq!(
        parse_attributes("A=1,B=\"x,y\", C=z"),
        [
            ("A".to_string(), "1".to_string()),
            ("B".to_string(), "x,y".to_string()),
            ("C".to_string(), "z".to_string()),
        ]
    );
}

#[test]
fn a_rendition_is_paired_with_the_default_audio_of_its_group() {
    let master = master_of(SEPARATE_AUDIO_MASTER);
    let chosen = master.choose_rendition(None).unwrap();
    assert_eq!(
        chosen.video.as_str(),
        "https://example.test/high/video.m3u8"
    );
    assert_eq!(
        chosen.audio.as_ref().map(Url::as_str),
        Some("https://example.test/audio/en.m3u8"),
        "DEFAULT=YES wins within the group, not declaration order"
    );

    let low = url("https://example.test/low/video.m3u8");
    let chosen = master
        .choose_rendition(Some(&RenditionChoice::Exact(low.copy())))
        .unwrap();
    assert_eq!(chosen.video, low);
    assert_eq!(
        chosen.audio.as_ref().map(Url::as_str),
        Some("https://example.test/audio/en.m3u8")
    );
}

#[test]
fn a_subtitles_only_master_resolves_without_a_paired_audio() {
    let master = master_of(SUBTITLES_ONLY_MASTER);
    assert!(
        master.audio.is_empty(),
        "subtitles are not modelled as audio"
    );
    let chosen = master.choose_rendition(None).unwrap();
    assert_eq!(
        chosen.video.as_str(),
        "https://example.test/high/video.m3u8"
    );
    assert_eq!(chosen.audio, None);
}

#[test]
fn a_rendition_the_master_does_not_declare_is_not_silently_replaced() {
    let master = master_of(SEPARATE_AUDIO_MASTER);
    let absent = url("https://example.test/4k/video.m3u8");
    assert_eq!(
        master.choose_rendition(Some(&RenditionChoice::Exact(absent))),
        None
    );
}

#[test]
fn media_kinds_match_the_shared_case_table() {
    let cases = [
        ("https://a.test/master.m3u8", Some("hls")),
        ("https://a.test/MASTER.M3U8?token=1", Some("hls")),
        ("https://a.test/manifest.mpd", Some("dash")),
        ("https://a.test/video.mp4", Some("file")),
        ("https://a.test/video.MP4#t=1", Some("file")),
        ("https://a.test/video.webm", Some("file")),
        ("https://a.test/seg-001.ts", Some("file")),
        ("https://a.test/component.ts", None),
        ("https://a.test/page.html", None),
        ("https://a.test/watch?v=video.mp4", None),
        ("https://a.test/video.mp4/", None),
        ("https://a.test/dir.m3u8/page", None),
        ("https://a.test/", None),
        ("https://a.test/noextension", None),
    ];
    for (raw, expected) in cases {
        assert_eq!(media_kind(&url(raw)).map(MediaKind::as_str), expected, "{raw}");
    }
}

#[test]
fn segments_collapse_into_a_playlist_that_covers_them() {
    let mut urls = vec![
        url("https://cdn.test/v/master.m3u8"),
        url("https://cdn.test/v/high/seg-001.ts"),
        url("https://cdn.test/v/high/seg-002.ts"),
        url("https://other.test/clip-01.ts"),
    ];
    collapse_segments(&mut urls);
    assert_eq!(
        urls.iter().map(Url::as_str).collect::<Vec<_>>(),
        [
            "https://cdn.test/v/master.m3u8",
            "https://other.test/clip-01.ts"
        ]
    );
    collapse_segments(&mut urls);
    assert_eq!(urls.len(), 2);

    let mut alone = vec![url("https://cdn.test/v/seg-001.ts")];
    collapse_segments(&mut alone);
    assert_eq!(alone.len(), 1);
}

#[test]
fn renditions_of_one_bandwidth_are_ranked_by_their_size_and_then_their_place() {
    let text = "#EXTM3U\n\
        #EXT-X-STREAM-INF:BANDWIDTH=500000\nunsized.m3u8\n\
        #EXT-X-STREAM-INF:BANDWIDTH=500000,RESOLUTION=640x360\nfirst.m3u8\n\
        #EXT-X-STREAM-INF:BANDWIDTH=500000,RESOLUTION=1280x720\nlarge.m3u8\n\
        #EXT-X-STREAM-INF:BANDWIDTH=500000,RESOLUTION=640x360\nsecond.m3u8\n";
    let order: Vec<String> = master_of(text)
        .renditions
        .iter()
        .map(|rendition| rendition.url.path.clone())
        .collect();
    assert_eq!(order, ["/large.m3u8", "/first.m3u8", "/second.m3u8", "/unsized.m3u8"]);
}

#[test]
fn a_text_is_a_master_playlist_if_it_lists_renditions() {
    assert!(is_master_playlist(MASTER_PLAYLIST));
    assert!(!is_master_playlist(SEGMENTS_PLAYLIST));
    assert_eq!(master_entries(SEPARATE_AUDIO_MASTER).audio.len(), 2);
    assert_eq!(master_entries(SEPARATE_AUDIO_MASTER).variants[0].uri, "low/video.m3u8");
    let base = url("https://example.test/v.m3u8");
    assert!(matches!(
        parse_playlist("<html>", &base, &Vec::new()),
        Playlist::Unusable
    ));
    assert!(matches!(
        parse_playlist(SEGMENTS_PLAYLIST, &base, &durations(SEGMENTS_PLAYLIST)),
        Playlist::Media(info) if info.total_segments == 2
    ));
}

#[test]
fn a_body_without_segments_says_what_it_is() {
    assert_eq!(classify_body("  #EXTM3U\n"), PlaylistProblem::NoSegments);
    assert_eq!(
        classify_body("<title>Attention Required! | Cloudflare</title>"),
        PlaylistProblem::Challenged
    );
    assert_eq!(classify_body("<title>Sign in</title>"), PlaylistProblem::NotAPlaylist);
}

#[test]
fn a_page_without_media_is_an_error_that_names_it() {
    let page = url("https://example.test/empty");
    match media_in_page("<html>nothing here</html>", page) {
        Err(error) => {
            assert!(matches!(error, DownerError::MediaNotFound(_)));
            assert!(error.message().contains("https://example.test/empty"), "{}", error.message());
        }
        Ok(found) => panic!("unexpected {found:?}"),
    }
}

#[test]
fn a_source_that_is_a_page_is_told_from_media() {
    assert!(matches!(
        classify_source("https://example.test/watch/1"),
        Ok(Source::Page(url)) if url.path == "/watch/1"
    ));
    assert!(matches!(
        classify_source("file:///etc/passwd"),
        Err(DownerError::InvalidUrl(_))
    ));
}

#[test]
fn a_refused_source_says_how_it_was_refused() {
    let denied = source_refusal(500, false, "500 Internal Server Error").message();
    assert!(denied.contains("500 Internal Server Error"), "{denied}");
    let challenged = source_refusal(403, true, "403 Forbidden").message();
    assert!(challenged.contains("Cloudflare challenge"), "{challenged}");
    assert_eq!(request_failure(true, false, false), "the request timed out");
    assert_eq!(request_failure(false, false, true), "too many redirects");
    assert_eq!(request_failure(false, false, false), "the request failed");
}

#[test]
fn candidates_are_gathered_and_read_from_their_page() {
    let attributes = Some(vec![Some("/a.mp4".to_string()), None]);
    let raw = Some(vec![Some("https://b.test/b.mp4".to_string())]);
    assert_eq!(read_candidates(&attributes, &raw), ["/a.mp4", "https://b.test/b.mp4"]);
    assert_eq!(read_candidates(&None, &raw), ["https://b.test/b.mp4"]);

    let page = url("https://a.test/watch");
    assert!(matches!(
        read_reference(" //cdn.test/c.mp4; ", &page),
        Reference::Whole(text) if text == "https://cdn.test/c.mp4"
    ));
    assert!(matches!(
        read_reference("c.mp4,", &page),
        Reference::Relative(text) if text == "c.mp4"
    ));
    let found = extract_media_urls("<video src='//cdn.test/c.mp4'>", &page);
    assert_eq!(found[0].as_str(), "https://cdn.test/c.mp4");
}

#[test]
fn a_height_chooses_the_best_rendition_of_it() {
    let text = "#EXTM3U\n\
        #EXT-X-STREAM-INF:BANDWIDTH=500000,RESOLUTION=1280x720\npoor.m3u8\n\
        #EXT-X-STREAM-INF:BANDWIDTH=900000,RESOLUTION=1280x720\nrich.m3u8\n\
        #EXT-X-STREAM-INF:BANDWIDTH=1900000,RESOLUTION=1920x1080\nlarge.m3u8\n";
    let master = master_of(text);
    let by_height = master.choose_rendition(Some(&RenditionChoice::Height(720))).unwrap();
    assert_eq!(by_height.video.path, "/rich.m3u8");
    for rendition in &master.renditions {
        let wanted = RenditionChoice::Exact(url(rendition.url.as_str()));
        let chosen = master.choose_rendition(Some(&wanted)).unwrap();
        assert_eq!(chosen.video.as_str(), rendition.url.as_str());
    }
}

fn opaque(scheme: &str, path: &str) -> Url {
    Url {
        text: format!("{scheme}:{path}"),
        scheme: scheme.to_string(),
        host: None,
        port: None,
        path: path.to_string(),
        query: None,
    }
}

fn collapsed(mut urls: Vec<Url>) -> Vec<String> {
    collapse_segments(&mut urls);
    urls.iter().map(|url| url.as_str().to_string()).collect()
}

#[test]
fn a_blob_has_the_origin_of_the_url_in_it() {
    let playlist = opaque("blob", "http://x/{{{{{a.m3u8");
    let segment = opaque("blob", "http://x/b1.ts");
    assert_eq!(collapsed(vec![playlist, segment]), ["blob:http://x/{{{{{a.m3u8"]);

    let playlist = opaque("blob", "https:/a.m3u8");
    let segment = opaque("blob", "https://x/b1.ts");
    assert_eq!(collapsed(vec![playlist, segment]).len(), 2);

    let within = "blob:".repeat(MAX_NESTED - 2);
    let playlist = opaque("blob", &format!("{within}https://x/v/a.m3u8"));
    let segment = opaque("blob", &format!("{within}https://x/v/b1.ts"));
    assert_eq!(collapsed(vec![playlist, segment]).len(), 1);

    let playlist = opaque("data", "v/a.m3u8");
    let segment = opaque("data", "v/b1.ts");
    assert_eq!(collapsed(vec![playlist, segment]), ["data:v/a.m3u8"]);
}

#[test]
fn a_segment_is_dropped_by_its_origin_and_its_directory() {
    let kept = |origins: [Option<&str>; 3]| {
        let urls = vec![
            url("https://x/v/a.m3u8"),
            url("https://x/v/low/b1.ts"),
            url("https://x/w/c1.ts"),
        ];
        let origins = origins.iter().map(|origin| origin.map(str::to_string)).collect();
        without_segments(&urls, &origins).len()
    };
    assert_eq!(kept([Some("o"), Some("o"), Some("o")]), 2);
    assert_eq!(kept([Some("o"), Some("p"), Some("o")]), 3);
    assert_eq!(kept([Some("o"), None, None]), 3);
    assert_eq!(kept([None, None, None]), 2);
}

#[test]
fn a_url_nested_in_itself_is_refused() {
    let nested = "blob:".repeat(20_000);
    assert!(validate_url(&nested).is_err());
    let page = format!("<video src=\"{nested}x.m3u8\"></video>");
    assert!(extract_media_urls(&page, &url("https://a.test/")).is_empty());
    let master = format!("#EXTM3U\n#EXT-X-STREAM-INF:BANDWIDTH=1\n{nested}x.m3u8\n");
    assert_eq!(master_of(&master).renditions.len(), 1);
}

#[test]
fn a_playlist_of_another_origin_covers_nothing() {
    let mut urls = vec![
        url("https://cdn.test/v/master.m3u8"),
        url("http://cdn.test/v/seg-1.ts"),
        url("https://cdn.test:8443/v/seg-1.ts"),
        url("https://cdn.test:443/v/seg-1.ts"),
    ];
    collapse_segments(&mut urls);
    assert_eq!(
        urls.iter().map(Url::as_str).collect::<Vec<_>>(),
        [
            "https://cdn.test/v/master.m3u8",
            "http://cdn.test/v/seg-1.ts",
            "https://cdn.test:8443/v/seg-1.ts",
        ]
    );
}
