use downer::diagnostics::{
    doctor_lines, ffmpeg_check, host_registration_check, output_directory_check, platform_check,
    probed_directory, run, Ancestor, Check, DirectoryFacts, Outcome, Report, SetupFacts,
    HOST_VERSION,
};
use downer::ffmpeg::FfmpegVersion;
use downer::host::{HostPaths, Platform};

fn directory(exists: bool, is_dir: bool) -> DirectoryFacts {
    DirectoryFacts { exists, is_dir, ancestor: None, refusal: None }
}

fn paths() -> HostPaths {
    HostPaths {
        manifest: "/m.json".to_string(),
        launcher: "/launch".to_string(),
        binary: "/bin/downer".to_string(),
        config: "/config.json".to_string(),
    }
}

fn setup(platform: Platform) -> SetupFacts {
    SetupFacts {
        platform,
        paths: Ok(paths()),
        manifest_there: true,
        launcher_there: true,
        ffmpeg: "/usr/bin/ffmpeg".to_string(),
        ffmpeg_version: Some(FfmpegVersion { major: 9, minor: 0, patch: Some(1) }),
        directory: None,
        log_path: Some("/home/me/.local/state/downer/logs/host.log".to_string()),
    }
}

#[test]
fn a_writable_directory_passes_and_leaves_nothing_behind() {
    let check = output_directory_check("/home/me/videos", &directory(true, true));
    assert_eq!(check.outcome, Outcome::Pass);
    assert!(check.remedy.is_none());
}

#[test]
fn a_directory_that_does_not_exist_yet_passes_and_says_so() {
    let facts = DirectoryFacts {
        exists: false,
        is_dir: false,
        ancestor: Some(Ancestor { path: "/tmp/here".to_string(), is_dir: true }),
        refusal: None,
    };
    let check = output_directory_check("/tmp/here/not-created", &facts);
    assert_eq!(check.outcome, Outcome::Pass, "{check:?}");
    assert!(check.detail.contains("will be created"), "{check:?}");
    assert_eq!(
        probed_directory("/tmp/here/not-created", &facts).as_deref(),
        Some("/tmp/here")
    );
}

#[test]
fn a_directory_several_levels_from_anything_existing_still_passes() {
    let facts = DirectoryFacts {
        exists: false,
        is_dir: false,
        ancestor: Some(Ancestor { path: "/tmp/here".to_string(), is_dir: true }),
        refusal: None,
    };
    let check = output_directory_check("/tmp/here/a/b/c", &facts);
    assert_eq!(check.outcome, Outcome::Pass, "{check:?}");
}

#[test]
fn a_missing_directory_under_a_file_fails_rather_than_finding_a_parent() {
    let facts = DirectoryFacts {
        exists: false,
        is_dir: false,
        ancestor: Some(Ancestor { path: "/tmp/here/in-the-way".to_string(), is_dir: false }),
        refusal: None,
    };
    let check = output_directory_check("/tmp/here/in-the-way/downloads", &facts);
    assert_eq!(check.outcome, Outcome::Fail, "{check:?}");
    assert!(check.detail.contains("is a file"), "{check:?}");
    assert!(check.remedy.is_some(), "a failure always says what to do");
}

#[test]
fn a_missing_directory_under_an_unwritable_parent_fails_with_something_to_do() {
    let facts = DirectoryFacts {
        exists: false,
        is_dir: false,
        ancestor: Some(Ancestor { path: "/tmp/here/locked".to_string(), is_dir: true }),
        refusal: Some("Permission denied (os error 13)".to_string()),
    };
    let check = output_directory_check("/tmp/here/locked/downloads", &facts);
    assert_eq!(check.outcome, Outcome::Fail, "{check:?}");
    assert!(check.detail.contains("cannot be created"), "{check:?}");
    assert!(check.remedy.is_some(), "a failure always says what to do");
}

#[test]
fn a_path_that_is_a_file_fails_as_a_file() {
    let check = output_directory_check("/tmp/not-a-directory", &directory(true, false));
    assert_eq!(check.outcome, Outcome::Fail, "{check:?}");
    assert!(check.detail.contains("is not a directory"), "{check:?}");
}

#[test]
fn an_unwritable_directory_fails_rather_than_passing_on_existence() {
    let facts = DirectoryFacts {
        exists: true,
        is_dir: true,
        ancestor: None,
        refusal: Some("Permission denied (os error 13)".to_string()),
    };
    let check = output_directory_check("/tmp/locked", &facts);
    assert_eq!(check.outcome, Outcome::Fail);
    assert!(check.detail.contains("cannot be written to"));
}

#[test]
fn an_unsupported_platform_fails_the_report_and_says_what_is_supported() {
    let check = platform_check(Platform::Unsupported("windows"));
    assert_eq!(check.outcome, Outcome::Fail, "{check:?}");
    assert_eq!(check.name, "platform");
    assert!(check.detail.contains("windows"), "{check:?}");
    assert!(check.detail.contains("macOS and Linux"), "{check:?}");
    let remedy = check.remedy.expect("a failure always says what to do");
    assert!(remedy.contains("Firefox"), "{remedy}");
}

#[test]
fn a_supported_platform_passes_and_names_itself() {
    for platform in [Platform::MacOs, Platform::Linux] {
        let check = platform_check(platform);
        assert_eq!(check.outcome, Outcome::Pass, "{check:?}");
        assert_eq!(check.detail, platform.name());
        assert!(check.remedy.is_none(), "a pass has nothing to remedy");
    }
}

#[test]
fn the_reported_platform_is_a_documented_value() {
    for platform in [Platform::MacOs, Platform::Linux, Platform::Unsupported("windows")] {
        let report = run(&setup(platform), 1);
        assert!(
            matches!(report.platform, "macos" | "linux" | "unsupported"),
            "got {}",
            report.platform
        );
    }
    assert_eq!(run(&setup(Platform::MacOs), 1).platform, "macos");
    assert_eq!(run(&setup(Platform::Linux), 1).platform, "linux");
}

#[test]
fn an_old_ffmpeg_warns_rather_than_failing() {
    let version = FfmpegVersion {
        major: 6,
        minor: 1,
        patch: Some(1),
    };
    let check = ffmpeg_check("/usr/bin/ffmpeg", Some(version));
    assert_eq!(check.outcome, Outcome::Warn);
    assert!(check.detail.contains("6.1.1"));
    assert!(check.remedy.unwrap().contains("7.1"));
}

#[test]
fn an_unrunnable_ffmpeg_fails() {
    let check = ffmpeg_check("/nonexistent/ffmpeg", None);
    assert_eq!(check.outcome, Outcome::Fail);
    assert!(check.remedy.unwrap().contains("install-host --ffmpeg"));
}

#[test]
fn the_report_takes_the_worst_outcome() {
    let check = |name: &'static str, outcome: Outcome| Check {
        name,
        title: name,
        outcome,
        detail: "detail".to_string(),
        remedy: None,
    };
    let mut report = Report {
        host_version: "0.0.0",
        protocol_version: 1,
        platform: "linux",
        ffmpeg_path: None,
        ffmpeg_version: None,
        ffmpeg_ok: true,
        log_path: None,
        checks: vec![check("a", Outcome::Pass)],
    };
    assert_eq!(report.outcome(), Outcome::Pass);

    report.checks.push(check("b", Outcome::Warn));
    assert_eq!(report.outcome(), Outcome::Warn);

    report.checks.push(check("c", Outcome::Fail));
    assert_eq!(report.outcome(), Outcome::Fail);
    assert!(report.outcome().is_failure());
}

#[test]
fn a_missing_registration_fails_and_a_missing_launcher_too() {
    let good = host_registration_check(&Ok(paths()), true, true);
    assert_eq!(good.outcome, Outcome::Pass, "{good:?}");
    for (manifest, launcher) in [(false, true), (true, false), (false, false)] {
        let check = host_registration_check(&Ok(paths()), manifest, launcher);
        assert_eq!(check.outcome, Outcome::Fail, "{check:?}");
        assert!(check.remedy.is_some(), "{check:?}");
    }
    let unknown = host_registration_check(&Err("no home".to_string()), true, true);
    assert_eq!(unknown.outcome, Outcome::Fail, "{unknown:?}");
}

#[test]
fn a_report_holds_what_was_found() {
    let report = run(&setup(Platform::Linux), 1);
    assert_eq!(report.host_version, HOST_VERSION);
    assert_eq!(report.protocol_version, 1);
    assert_eq!(report.ffmpeg_path.as_deref(), Some("/usr/bin/ffmpeg"));
    assert_eq!(report.ffmpeg_version.as_deref(), Some("9.0.1"));
    assert!(report.ffmpeg_ok);
    assert_eq!(
        report.log_path.as_deref(),
        Some("/home/me/.local/state/downer/logs/host.log")
    );
    assert_eq!(report.outcome(), Outcome::Pass);
    assert_eq!(Outcome::Pass.as_str(), "ok");
    assert_eq!(Outcome::Warn.as_str(), "warning");
    assert_eq!(Outcome::Fail.as_str(), "failed");
}

#[test]
fn the_doctor_reports_the_path_the_host_actually_writes() {
    let report = run(&setup(Platform::Linux), 1);
    let text = doctor_lines(&report, true, &None).join("\n");
    assert!(
        text.contains("Native host log: /home/me/.local/state/downer/logs/host.log"),
        "{text}"
    );
}

fn doctor(dir_given: bool) -> String {
    let mut facts = setup(Platform::Linux);
    facts.directory = Some(("/work".to_string(), directory(true, true)));
    let report = run(&facts, 1);
    doctor_lines(&report, dir_given, &Some("/home/me/Downloads".to_string())).join("\n")
}

#[test]
fn doctor_distinguishes_the_command_lines_directory_from_the_extensions() {
    let text = doctor(false);
    assert!(text.contains("note: this is the command line's directory"), "{text}");
    assert!(text.contains("/home/me/Downloads"), "{text}");
    assert!(text.starts_with("downer 0.5.0 (protocol 1), linux"), "{text}");
}

#[test]
fn doctor_with_an_explicit_directory_does_not_add_the_note() {
    let text = doctor(true);
    assert!(!text.contains("note: this is the command line's"), "{text}");
}

#[test]
fn an_ffmpeg_below_the_minimum_is_not_ok() {
    let mut facts = setup(Platform::Linux);
    assert!(run(&facts, 1).ffmpeg_ok);
    facts.ffmpeg_version = Some(FfmpegVersion { major: 6, minor: 1, patch: Some(1) });
    let report = run(&facts, 1);
    assert!(!report.ffmpeg_ok);
    assert_eq!(report.ffmpeg_version.as_deref(), Some("6.1.1"));
    assert_eq!(report.outcome(), Outcome::Warn);
    facts.ffmpeg_version = None;
    assert!(!run(&facts, 1).ffmpeg_ok);
}
