use downer::download::PlaylistSource;
use downer::error::DownerError;
use downer::ffmpeg::FfmpegVersion;
use downer::output::{validate_url, Attempt, Found, NamingHints, OnConflict};
use downer::scraper::{parse_playlist, RenditionChoice, ResolvedMedia};
use downer::session::{start, Finish, Job, Running, Step};
use downer::{DownloadOptions, DEFAULT_TIMEOUT};

fn job(url: &str, output: Option<&str>) -> Job {
    Job {
        media: ResolvedMedia {
            url: validate_url(url).expect("a valid URL"),
            referer: None,
            user_agent: "agent".to_string(),
        },
        options: DownloadOptions {
            output: output.map(str::to_string),
            dir: Some("/downloads".to_string()),
            overwrite: false,
            on_conflict: None,
            naming: NamingHints::new(None),
            ffmpeg: "ffmpeg".to_string(),
            user_agent: "agent".to_string(),
            cookie: None,
            threads: None,
            quiet: false,
            playlist_text: None,
            rendition: None,
            keep_partial: false,
            reconnect: None,
            retries: 1,
            timeout: DEFAULT_TIMEOUT,
        },
        controlled: false,
    }
}

/// A disk that holds these names, a playlist and a version of FFmpeg.
struct World {
    taken: Vec<&'static str>,
    playlist: Option<&'static str>,
    version: Option<FfmpegVersion>,
    /// What the file that was reserved holds.
    size: Option<u64>,
    said: Vec<String>,
}

impl World {
    fn empty() -> World {
        World {
            taken: Vec::new(),
            playlist: None,
            version: None,
            size: Some(0),
            said: Vec::new(),
        }
    }

    /// Go on until FFmpeg is to be run, or it is over.
    fn until_run(&mut self, mut step: Step) -> Result<Running, Finish> {
        loop {
            step = match step {
                Step::MakeDirectory(waiting, directory) => {
                    assert_eq!(directory, "/downloads");
                    waiting.made(Ok(()))
                }
                Step::Look(waiting) => {
                    let name = waiting.path.rsplit('/').next().unwrap().to_string();
                    let found = if self.taken.contains(&name.as_str()) {
                        Found::File
                    } else {
                        Found::Missing
                    };
                    waiting.found(found, name)
                }
                Step::Create(waiting, name) => {
                    let outcome = if self.taken.contains(&name.as_str()) {
                        Attempt::Taken
                    } else {
                        Attempt::Created
                    };
                    waiting.tried(format!("/downloads/{name}"), outcome)
                }
                Step::AskVersion(waiting, lines) => {
                    self.said.extend(lines);
                    waiting.version(self.version)
                }
                Step::ReadPlaylist(waiting, source, warnings) => {
                    self.said.extend(warnings);
                    let playlist = match (source, self.playlist) {
                        (PlaylistSource::Fetch, Some(text)) => {
                            Some(parse_playlist(text, &waiting.job.media.url, &Vec::new()))
                        }
                        _ => None,
                    };
                    waiting.playlist(playlist, self.size)
                }
                Step::Run(running, lines) => {
                    self.said.extend(lines);
                    return Ok(running);
                }
                Step::Finish(finish) => return Err(finish),
            }
        }
    }
}

fn failed(stderr: &str) -> Result<String, DownerError> {
    Err(DownerError::FfmpegFailed {
        status: Some(1),
        stderr: stderr.to_string(),
    })
}

#[test]
fn a_download_reserves_a_free_name_and_says_where_it_goes() {
    let mut world = World::empty();
    world.taken = vec!["clip.mp4", "clip_2.mp4"];
    let running = world
        .until_run(start(job("https://a.test/clip.mp4", None), None))
        .expect("FFmpeg is run");
    assert_eq!(running.target.path, "/downloads/clip_3.mp4");
    assert!(running.target.reserved);
    assert_eq!(running.invocation.output, "/downloads/clip_3.mp4");
    assert_eq!(
        world.said,
        [
            "Downloading https://a.test/clip.mp4",
            "Destination: /downloads/clip_3.mp4",
        ]
    );

    let path = running.target.path.clone();
    match running.ended(Ok(path), Some(9), false, false) {
        Step::Finish(finish) => {
            assert_eq!(finish.result.unwrap(), "/downloads/clip_3.mp4");
            assert!(finish.remove.is_none());
            assert_eq!(finish.lines, ["Download complete: /downloads/clip_3.mp4"]);
        }
        other => panic!("unexpected {other:?}"),
    }
}

#[test]
fn existing_output_is_rejected_before_ffmpeg_is_started() {
    let mut world = World::empty();
    world.taken = vec!["existing.mp4"];
    let step = start(job("https://a.test/clip.mp4", Some("existing.mp4")), None);
    let finish = world.until_run(step).expect_err("FFmpeg is not run");
    assert!(matches!(finish.result, Err(DownerError::OutputExists(_))));
    assert!(finish.remove.is_none());
    assert!(world.said.is_empty());
}

#[test]
fn an_exact_path_needs_no_directory_of_its_own_and_may_be_replaced() {
    let mut world = World::empty();
    world.taken = vec!["existing.mp4"];
    let mut wanted = job("https://a.test/clip.mp4", Some("existing.mp4"));
    wanted.options.on_conflict = Some(OnConflict::Overwrite);
    let running = world.until_run(start(wanted, Some(""))).expect("FFmpeg is run");
    assert!(running.target.overwrite);
    assert!(!running.target.reserved);
}

#[test]
fn a_failure_that_may_pass_is_tried_again_over_its_own_file() {
    let mut world = World::empty();
    let running = world
        .until_run(start(job("https://a.test/clip.mp4", Some("clip.mp4")), None))
        .expect("FFmpeg is run");
    assert!(!running.invocation.overwrite);
    let again = match running.ended(failed("Connection reset by peer"), Some(5), false, false) {
        Step::Run(again, lines) => {
            assert!(lines.is_empty());
            again
        }
        other => panic!("unexpected {other:?}"),
    };
    assert_eq!(again.restarts, 1);
    assert!(again.invocation.overwrite);
    match again.ended(failed("Connection reset by peer"), Some(5), false, false) {
        Step::Finish(finish) => {
            assert!(finish.result.is_err());
            assert!(finish.remove.is_none(), "what was written stays");
        }
        other => panic!("unexpected {other:?}"),
    }
}

#[test]
fn a_cancelled_download_is_removed_and_a_refused_one_is_not_tried_again() {
    let run = || {
        World::empty()
            .until_run(start(job("https://a.test/clip.mp4", None), None))
            .expect("FFmpeg is run")
    };
    match run().ended(failed("Connection reset by peer"), Some(5), true, true) {
        Step::Finish(finish) => {
            assert_eq!(finish.remove.as_deref(), Some("/downloads/clip.mp4"));
        }
        other => panic!("unexpected {other:?}"),
    }
    match run().ended(failed("Server returned 403 Forbidden"), Some(0), false, false) {
        Step::Finish(finish) => {
            assert_eq!(finish.remove.as_deref(), Some("/downloads/clip.mp4"));
        }
        other => panic!("unexpected {other:?}"),
    }
}

#[test]
fn an_old_ffmpeg_is_warned_about_and_a_rendition_is_named() {
    let mut world = World::empty();
    world.version = Some(FfmpegVersion { major: 6, minor: 1, patch: Some(1) });
    world.playlist = Some("#EXTM3U\n#EXT-X-STREAM-INF:BANDWIDTH=1\nhigh.m3u8\n");
    let running = world
        .until_run(start(job("https://a.test/master.m3u8", None), None))
        .expect("FFmpeg is run");
    assert_eq!(running.invocation.input, "https://a.test/high.m3u8");
    assert!(!running.invocation.hls_lenient);
    let said = world.said.join("\n");
    assert!(said.contains("FFmpeg 6.1.1 is older than the minimum supported 7.1"), "{said}");
    assert!(said.contains("Selected rendition: https://a.test/high.m3u8"), "{said}");
}

#[test]
fn a_download_that_cannot_be_placed_stops() {
    match start(job("https://a.test/clip.mp4", Some("")), None) {
        Step::Finish(finish) => {
            assert!(matches!(finish.result, Err(DownerError::OutputPath(_))));
        }
        other => panic!("unexpected {other:?}"),
    }
    match start(job("https://a.test/clip.mp4", None), None) {
        Step::MakeDirectory(waiting, _) => match waiting.made(Err("read-only".to_string())) {
            Step::Finish(finish) => {
                assert!(matches!(finish.result, Err(DownerError::OutputIo(e)) if e == "read-only"));
            }
            other => panic!("unexpected {other:?}"),
        },
        other => panic!("unexpected {other:?}"),
    }
    match start(job("https://a.test/clip.mp4", Some("taken")), None) {
        Step::Look(waiting) => match waiting.found(Found::Directory, "taken".to_string()) {
            Step::Finish(finish) => {
                assert!(matches!(finish.result, Err(DownerError::OutputDirectory(_))));
            }
            other => panic!("unexpected {other:?}"),
        },
        other => panic!("unexpected {other:?}"),
    }
}

#[test]
fn a_rendition_that_is_not_offered_leaves_no_file_behind() {
    let mut world = World::empty();
    world.playlist =
        Some("#EXTM3U\n#EXT-X-STREAM-INF:BANDWIDTH=1,RESOLUTION=640x360\nlow.m3u8\n");
    let mut inferred = job("https://a.test/master.m3u8", None);
    inferred.options.rendition = Some(RenditionChoice::Height(1440));
    let finish = world.until_run(start(inferred, None)).err().expect("it is refused");
    assert!(matches!(finish.result, Err(DownerError::VariantNotOffered(_))));
    assert_eq!(finish.remove.as_deref(), Some("/downloads/video.mp4"));
    assert!(finish.lines.is_empty());

    for size in [Some(7), None] {
        let mut inferred = job("https://a.test/master.m3u8", None);
        inferred.options.rendition = Some(RenditionChoice::Height(1440));
        world.size = size;
        let finish = world.until_run(start(inferred, None)).err().expect("it is refused");
        assert!(finish.remove.is_none(), "{size:?}");
    }

    world.size = Some(0);
    let mut exact = job("https://a.test/master.m3u8", Some("/downloads/mine.mp4"));
    exact.options.rendition = Some(RenditionChoice::Height(1440));
    let finish = world
        .until_run(start(exact, Some("/downloads")))
        .err()
        .expect("it is refused");
    assert!(finish.remove.is_none());
}
