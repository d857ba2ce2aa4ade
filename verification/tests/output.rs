use downer::error::DownerError;
use downer::output::{
    candidate_name, check_output_path, choose_name, infer_filename, infer_filename_with_hints,
    is_generic_stem, last_path_segment, numbered_variant, release_reservation,
    reserve_unused_path, resolve_conflict, resolve_default_download_dir, resolve_output_path,
    sanitize_filename, sanitize_title, validate_url, Attempt, Found, NamingHints, OnConflict,
    OutputTarget, Resolution, ReserveStep, MAX_RENAME_ATTEMPTS, MAX_TITLE_CHARS,
};
use downer::web::Url;

fn url(raw: &str) -> Url {
    validate_url(raw).expect("a valid URL")
}

fn hints(title: Option<&str>) -> NamingHints {
    NamingHints::new(title.map(str::to_string))
}

/// Names that are taken in a directory.
fn reserve(taken: &[&str], name: &str) -> Result<OutputTarget, DownerError> {
    let mut attempt = 1;
    loop {
        let candidate = candidate_name(name, attempt);
        let outcome = if taken.contains(&candidate.as_str()) {
            Attempt::Taken
        } else {
            Attempt::Created
        };
        match reserve_unused_path(name, &candidate, attempt, outcome) {
            ReserveStep::Try(next) => attempt = next,
            ReserveStep::Done(target) => return Ok(target),
            ReserveStep::Stop(error) => return Err(error),
        }
    }
}

#[test]
fn validates_http_and_https_only() {
    assert!(validate_url("https://example.test/video.mp4").is_ok());
    assert!(validate_url("http://example.test/live.m3u8").is_ok());
    assert!(validate_url("ftp://example.test/video.mp4").is_err());
    assert!(validate_url("https:///video.mp4").is_err());
    assert!(validate_url("https:example.test/video.mp4").is_err());
}

#[test]
fn decodes_and_sanitizes_url_filename() {
    let url = url("https://example.test/a/My%20video%3Ffinal.mp4?token=x");
    assert_eq!(infer_filename(&url), "My video_final.mp4");
}

#[test]
fn uses_mp4_for_missing_or_playlist_names() {
    assert_eq!(infer_filename(&url("https://example.test/")), "video.mp4");
    assert_eq!(
        infer_filename(&url("https://example.test/stream.m3u8")),
        "stream.mp4"
    );
    assert_eq!(infer_filename(&url("https://example.test/live")), "live.mp4");
    assert_eq!(
        infer_filename(&url("https://example.test/?filename=from%20query.ts")),
        "from query.ts"
    );
}

#[test]
fn avoids_device_and_traversal_names() {
    assert_eq!(infer_filename(&url("https://example.test/CON")), "video.mp4");
    assert_eq!(
        infer_filename(&url("https://example.test/evil%2Fname.mp4")),
        "evil_name.mp4"
    );
}

#[test]
fn detects_generic_stems() {
    for stem in ["index", "playlist", "master", "download", "video", "media"] {
        assert!(is_generic_stem(stem), "{stem} should be generic");
        assert!(
            is_generic_stem(&stem.to_ascii_uppercase()),
            "{stem} should be generic regardless of case"
        );
    }
    assert!(is_generic_stem("1080"));
    assert!(is_generic_stem("42"));
    assert!(is_generic_stem(""));

    assert!(!is_generic_stem("lecture"));
    assert!(!is_generic_stem("indexing"));
    assert!(!is_generic_stem("master class"));
    assert!(!is_generic_stem("1080p"));
    assert!(!is_generic_stem("episode-2"));
}

#[test]
fn a_generic_stem_defaults_to_video_with_no_title() {
    for generic in [
        "https://example.test/hls/index.m3u8",
        "https://example.test/playlist.m3u8",
        "https://example.test/master.m3u8",
        "https://example.test/media/1080.mp4",
        "https://example.test/",
    ] {
        assert_eq!(
            infer_filename_with_hints(&url(generic), &hints(None)),
            "video.mp4",
            "{generic}"
        );
    }

    assert_eq!(
        infer_filename_with_hints(&url("https://example.test/playlist.m3u8"), &hints(None)),
        "video.mp4"
    );
}

#[test]
fn a_supplied_title_replaces_a_generic_stem_and_nothing_else() {
    let generic = url("https://example.test/hls/index.m3u8");
    assert_eq!(
        infer_filename_with_hints(&generic, &hints(Some("Lecture 3"))),
        "Lecture 3.mp4"
    );

    let distinctive = url("https://example.test/lecture-three.mp4");
    assert_eq!(
        infer_filename_with_hints(&distinctive, &hints(Some("Some Unrelated Page Title"))),
        "lecture-three.mp4"
    );

    assert_eq!(
        infer_filename_with_hints(&generic, &hints(Some("   ...   "))),
        "video.mp4"
    );
}

#[test]
fn sanitizes_and_bounds_a_title() {
    assert_eq!(
        sanitize_title("evil/../name").as_deref(),
        Some("evil_.._name")
    );
    assert_eq!(
        sanitize_title("My\n\tGreat   Video").as_deref(),
        Some("My Great Video")
    );
    assert_eq!(
        sanitize_title("Report: Q3 <final>").as_deref(),
        Some("Report_ Q3 _final_")
    );

    let long = "a".repeat(500);
    let bounded = sanitize_title(&long).expect("a long title still yields a name");
    assert_eq!(bounded.chars().count(), MAX_TITLE_CHARS);

    let wide = "\u{1f3ac}".repeat(200);
    let bounded = sanitize_title(&wide).expect("a wide title still yields a name");
    assert_eq!(bounded.chars().count(), MAX_TITLE_CHARS);

    assert_eq!(sanitize_title(""), None);
    assert_eq!(sanitize_title("   "), None);
    assert_eq!(sanitize_title(".."), None);
    assert_eq!(sanitize_title("CON"), None);
}

#[test]
fn rename_walks_the_numbered_sequence_and_reserves_its_choice() {
    assert!(matches!(
        resolve_conflict("/d/video.mp4".to_string(), OnConflict::Rename, &Found::Missing),
        Ok(Resolution::Reserve)
    ));

    let first = reserve(&[], "video.mp4").unwrap();
    assert_eq!(first.path, "video.mp4");
    assert!(first.overwrite);
    assert!(first.reserved);

    let second = reserve(&["video.mp4"], "video.mp4").unwrap();
    assert_eq!(second.path, "video_2.mp4");

    let third = reserve(&["video.mp4", "video_2.mp4"], "video.mp4").unwrap();
    assert_eq!(third.path, "video_3.mp4");

    let fourth = reserve(&["video.mp4", "video_3.mp4"], "video.mp4").unwrap();
    assert_eq!(fourth.path, "video_2.mp4");
}

#[test]
fn a_failed_download_leaves_no_reservation_behind() {
    let target = reserve(&[], "video.mp4").unwrap();
    assert!(release_reservation(&target, Some(0)));
    assert!(!release_reservation(&target, None));
}

#[test]
fn releasing_never_deletes_output_ffmpeg_actually_wrote() {
    let target = reserve(&[], "video.mp4").unwrap();
    assert!(!release_reservation(&target, Some(13)));
}

#[test]
fn releasing_never_touches_a_path_we_did_not_reserve() {
    let overwriting =
        match resolve_conflict("existing.mp4".to_string(), OnConflict::Overwrite, &Found::File) {
            Ok(Resolution::Target(target)) => target,
            other => panic!("unexpected {other:?}"),
        };
    assert!(!overwriting.reserved);
    assert!(!release_reservation(&overwriting, Some(0)));
}

#[test]
fn rename_keeps_the_extension_last() {
    assert_eq!(reserve(&["noextension"], "noextension").unwrap().path, "noextension_2");
    assert_eq!(reserve(&[".hidden"], ".hidden").unwrap().path, ".hidden_2");
    assert_eq!(numbered_variant("a.b.mp4", 7), "a.b_7.mp4");
}

#[test]
fn fail_and_overwrite_policies_leave_the_file_alone_or_replace_it() {
    assert!(matches!(
        resolve_conflict("existing.mp4".to_string(), OnConflict::Fail, &Found::File),
        Err(DownerError::OutputExists(_))
    ));
    match resolve_conflict("existing.mp4".to_string(), OnConflict::Overwrite, &Found::File) {
        Ok(Resolution::Target(target)) => {
            assert_eq!(target.path, "existing.mp4");
            assert!(target.overwrite);
        }
        other => panic!("unexpected {other:?}"),
    }
    match resolve_conflict("new.mp4".to_string(), OnConflict::Fail, &Found::Missing) {
        Ok(Resolution::Target(target)) => assert!(!target.overwrite),
        other => panic!("unexpected {other:?}"),
    }
}

#[test]
fn no_policy_writes_over_a_directory() {
    for policy in [OnConflict::Fail, OnConflict::Rename, OnConflict::Overwrite] {
        assert!(
            matches!(
                resolve_conflict("taken".to_string(), policy, &Found::Directory),
                Err(DownerError::OutputDirectory(_))
            ),
            "{policy:?} must refuse a directory"
        );
    }
}

#[test]
fn the_default_download_directory_prefers_the_desktops_answer() {
    assert_eq!(
        resolve_default_download_dir(
            Some("/home/me/Téléchargements".to_string()),
            Some("/home/me".to_string())
        ),
        Some("/home/me/Téléchargements".to_string())
    );
    assert_eq!(
        resolve_default_download_dir(None, Some("/home/me".to_string())),
        Some("/home/me/Downloads".to_string())
    );
    assert_eq!(resolve_default_download_dir(None, None), None);
}

#[test]
fn refuses_existing_output_without_overwrite() {
    assert!(matches!(
        check_output_path("existing.mp4", &Found::File, false),
        Err(DownerError::OutputExists(_))
    ));
    assert!(check_output_path("existing.mp4", &Found::File, true).is_ok());
    assert!(matches!(
        check_output_path("x", &Found::Unreadable("denied".to_string()), true),
        Err(DownerError::OutputIo(reason)) if reason == "denied"
    ));
}

#[test]
fn a_search_for_a_name_ends() {
    let mut attempt = 1;
    loop {
        let candidate = candidate_name("v.mp4", attempt);
        match reserve_unused_path("v.mp4", &candidate, attempt, Attempt::Taken) {
            ReserveStep::Try(next) => attempt = next,
            ReserveStep::Stop(DownerError::OutputExists(path)) => {
                assert_eq!(path, "v.mp4");
                break;
            }
            other => panic!("unexpected {other:?}"),
        }
    }
    assert_eq!(attempt, MAX_RENAME_ATTEMPTS);
    assert!(matches!(
        reserve_unused_path("v.mp4", "v.mp4", 1, Attempt::Failed("full".to_string())),
        ReserveStep::Stop(DownerError::OutputIo(reason)) if reason == "full"
    ));
}

#[test]
fn a_refused_url_says_why() {
    let scheme = validate_url("ftp://example.test/video.mp4").unwrap_err();
    assert!(scheme.message().contains("unsupported scheme"), "{}", scheme.message());
    assert!(matches!(validate_url("not a url"), Err(DownerError::InvalidUrl(_))));
    let read = url("HTTPS://Example.test:8443/a/b.mp4?x=1#f");
    assert_eq!(read.scheme, "https");
    assert_eq!(read.host.as_deref(), Some("example.test"));
    assert_eq!(read.port, Some(8443));
    assert_eq!(read.path, "/a/b.mp4");
    assert_eq!(read.query.as_deref(), Some("x=1"));
}

#[test]
fn a_plan_names_the_directory_to_make_and_the_path() {
    let media = url("https://example.test/clip.mp4");
    let inferred =
        resolve_output_path(&media, None, None, Some("/d"), ".", &hints(None)).unwrap();
    assert_eq!(inferred.path, "/d/clip.mp4");
    assert_eq!(inferred.create.as_deref(), Some("/d"));

    let here = resolve_output_path(&media, None, None, None, ".", &hints(None)).unwrap();
    assert_eq!(here.path, "./clip.mp4");

    let exact =
        resolve_output_path(&media, Some("/e/x.mp4"), Some("/e"), None, ".", &hints(None)).unwrap();
    assert_eq!(exact.path, "/e/x.mp4");
    assert_eq!(exact.create.as_deref(), Some("/e"));

    assert!(matches!(
        resolve_output_path(&media, Some(""), None, None, ".", &hints(None)),
        Err(DownerError::OutputPath(_))
    ));
    assert!(matches!(
        resolve_output_path(&media, None, None, Some(""), ".", &hints(None)),
        Err(DownerError::OutputPath(_))
    ));
}

#[test]
fn a_name_comes_from_the_path_or_the_query() {
    assert_eq!(last_path_segment("/a/b.mp4").as_deref(), Some("b.mp4"));
    assert_eq!(last_path_segment("/"), None);
    let pairs = vec![("filename".to_string(), "q.mp4".to_string())];
    assert_eq!(choose_name(&None, &pairs), "q.mp4");
    assert_eq!(choose_name(&Some("p.mp4".to_string()), &Vec::new()), "p.mp4");
    assert_eq!(sanitize_filename("a/b\\c:d"), "a_b_c_d");
}

#[test]
fn a_sanitized_title_is_tidy_and_settled() {
    for title in [
        "  A\ttitle \n of: words?  ",
        "... dots and spaces . .",
        &"word ".repeat(40),
        "a\u{3000}\u{a0}b",
    ] {
        let stem = sanitize_title(title).expect("something is left");
        assert!(stem.chars().count() <= MAX_TITLE_CHARS, "{stem:?}");
        assert!(!stem.starts_with(['.', ' ']) && !stem.ends_with(['.', ' ']), "{stem:?}");
        assert!(!stem.contains("  "), "{stem:?}");
        assert!(stem.chars().all(|c| !c.is_whitespace() || c == ' '), "{stem:?}");
        assert_eq!(sanitize_title(&stem), Some(stem));
    }
    assert_eq!(sanitize_title("CON"), None);
}
