use downer::paths::is_same_path;
use downer::error::DownerError;
use downer::host::{
    cargo_bin_dir, configured_ffmpeg, install_lines, is_stable_location, launcher_script,
    manifest_document, plan_install, shell_quote, uninstall_lines, uninstall_step,
    uninstall_targets, unsupported_platform_message, validated_ffmpeg, HostConfig, HostPaths,
    InstallOptions, Platform, Removal, UninstallOptions, UninstallReport,
};
use downer::hostlog::Level;

fn linux() -> HostPaths {
    HostPaths::resolve(
        Platform::Linux,
        &Some("/home/me".to_string()),
        &Some("/home/me/.local/share".to_string()),
        &Some("/home/me/.config".to_string()),
    )
    .expect("the directories are known")
}

#[test]
fn quotes_paths_literally() {
    assert_eq!(
        shell_quote("/usr/local/bin/downer"),
        "'/usr/local/bin/downer'"
    );
    assert_eq!(shell_quote("/tmp/a b/downer"), "'/tmp/a b/downer'");
    assert_eq!(shell_quote("/tmp/$HOME/downer"), "'/tmp/$HOME/downer'");
}

#[test]
fn closes_and_reopens_quoting_around_a_quote() {
    assert_eq!(shell_quote("/tmp/it's/downer"), "'/tmp/it'\\''s/downer'");
}

#[test]
fn a_bare_ffmpeg_name_is_refused() {
    let error = validated_ffmpeg("ffmpeg", true, Ok("/usr/bin/ffmpeg".to_string())).unwrap_err();
    assert!(matches!(error, DownerError::HostArgument(_)), "{error:?}");
    assert!(error.message().contains("bare name `ffmpeg`"), "{}", error.message());
}

#[test]
fn install_refuses_an_ffmpeg_that_is_not_there() {
    let error = validated_ffmpeg("/nowhere/ffmpeg", false, Err("gone".to_string())).unwrap_err();
    assert!(matches!(error, DownerError::HostArgument(_)), "{error:?}");
    assert!(error.message().contains("no FFmpeg executable at /nowhere/ffmpeg"));

    let unresolved = validated_ffmpeg("/a/ffmpeg", true, Err("loop".to_string())).unwrap_err();
    assert!(unresolved.message().contains("could not resolve /a/ffmpeg: loop"));

    let found = validated_ffmpeg("./ffmpeg", true, Ok("/work/ffmpeg".to_string()));
    assert_eq!(found.unwrap(), "/work/ffmpeg");
}

#[test]
fn the_manifest_allows_exactly_the_shipped_extension() {
    let manifest = manifest_document("/home/me/launch", false, "downer@example.org");
    assert_eq!(manifest.name, "com.downer.native");
    assert_eq!(manifest.kind, "stdio");
    assert_eq!(manifest.path, "/home/me/launch");
    assert_eq!(manifest.allowed_extensions, ["downer@example.org"]);
    assert!(!manifest.description.contains("development"));
    assert!(manifest_document("/l", true, "x").description.contains("development"));
}

#[test]
fn install_writes_a_manifest_firefox_can_use() {
    let paths = linux();
    assert!(
        paths.manifest.ends_with(".mozilla/native-messaging-hosts/com.downer.native.json"),
        "{}",
        paths.manifest
    );
    let mac = HostPaths::resolve(
        Platform::MacOs,
        &Some("/Users/me".to_string()),
        &Some("/Users/me/Library/Application Support".to_string()),
        &Some("/Users/me/Library/Application Support".to_string()),
    )
    .unwrap();
    assert!(
        mac.manifest
            .ends_with("Library/Application Support/Mozilla/NativeMessagingHosts/com.downer.native.json"),
        "{}",
        mac.manifest
    );
}

#[test]
fn a_registration_needs_a_supported_platform_and_a_home() {
    let unsupported = HostPaths::resolve(
        Platform::Unsupported("windows"),
        &Some("C:".to_string()),
        &Some("C:/data".to_string()),
        &Some("C:/config".to_string()),
    )
    .unwrap_err();
    assert!(
        unsupported.message().contains("supported on macOS and Linux"),
        "{}",
        unsupported.message()
    );
    let home = Some("/home/me".to_string());
    let data = Some("/home/me/.local/share".to_string());
    for (home, data, missing) in [
        (&None, &data, "no home directory"),
        (&home, &None, "no data directory"),
        (&home, &data, "no config directory"),
    ] {
        let error = HostPaths::resolve(Platform::Linux, home, data, &None).unwrap_err();
        assert!(error.message().contains(missing), "{}", error.message());
    }
    assert!(unsupported_platform_message("windows").contains("macOS and Linux"));
}

#[test]
fn install_copies_the_binary_out_of_the_build_directory() {
    let paths = linux();
    let report = plan_install(
        &InstallOptions::default(),
        &paths,
        "/work/target/debug/downer",
        false,
        None,
    );
    assert!(report.copied);
    assert_eq!(report.binary, paths.binary);
    let lines = install_lines(&report).join("\n");
    assert!(lines.contains("Installed binary: "), "{lines}");
}

#[test]
fn dev_install_references_the_running_binary() {
    let paths = linux();
    let options = InstallOptions { link: false, dev: true, ffmpeg: None };
    let report = plan_install(&options, &paths, "/work/target/debug/downer", false, None);
    assert!(!report.copied);
    assert_eq!(report.binary, "/work/target/debug/downer");
    let lines = install_lines(&report).join("\n");
    assert!(lines.contains("Using binary in place: /work/target/debug/downer"), "{lines}");
    assert!(lines.contains("Development registration"), "{lines}");
}

#[test]
fn the_launcher_starts_the_native_host() {
    let script = launcher_script("/opt/it's here/downer");
    assert!(script.starts_with("#!/bin/sh\n"), "{script}");
    assert!(
        script.contains("exec '/opt/it'\\''s here/downer' --native-host \"$@\"\n"),
        "{script}"
    );
}

#[test]
fn a_binary_that_stays_where_it_is_is_used_in_place() {
    let paths = linux();
    let cargo = cargo_bin_dir(&None, &Some("/home/me".to_string()));
    assert_eq!(cargo.as_deref(), Some("/home/me/.cargo/bin"));
    assert_eq!(
        cargo_bin_dir(&Some("/c".to_string()), &Some("/home/me".to_string())).as_deref(),
        Some("/c/bin")
    );
    let parent = Some("/home/me/.cargo/bin".to_string());
    assert!(is_stable_location("/home/me/.cargo/bin/downer", &parent, &None, &cargo, &paths));
    assert!(is_stable_location(&paths.binary, &None, &None, &None, &paths));
    assert!(!is_stable_location(
        "/work/downer",
        &Some("/work".to_string()),
        &None,
        &cargo,
        &paths
    ));
    assert!(!is_stable_location("/downer", &None, &None, &None, &paths));
    let doubled = Some("/home/me//.cargo/./bin/".to_string());
    assert!(is_stable_location("/home/me/.cargo/bin/downer", &doubled, &None, &cargo, &paths));
    let relative = Some("home/me/.cargo/bin".to_string());
    assert!(!is_stable_location("downer", &relative, &None, &cargo, &paths));
}

#[test]
fn install_records_the_ffmpeg_path_for_the_host() {
    let config = HostConfig::with_ffmpeg("/usr/bin/ffmpeg");
    assert_eq!(configured_ffmpeg(&config, true).as_deref(), Some("/usr/bin/ffmpeg"));
    assert_eq!(configured_ffmpeg(&config, false), None);
    assert_eq!(config.log_level(), Level::Info);
    let loud = HostConfig { ffmpeg: None, log_level: Some("debug".to_string()) };
    assert_eq!(loud.log_level(), Level::Debug);
}

#[test]
fn uninstall_removes_the_registration_and_the_config() {
    let paths = linux();
    let targets = uninstall_targets(&paths, &UninstallOptions::default());
    assert_eq!(
        targets,
        [paths.manifest.as_str(), paths.launcher.as_str(), paths.config.as_str()]
    );
    let mut report = UninstallReport::default();
    for target in &targets {
        uninstall_step(&mut report, target, Removal::Removed).unwrap();
    }
    assert_eq!(report.removed, targets);
    assert!(uninstall_lines(&report)[0].starts_with("Removed "));
}

#[test]
fn uninstall_can_remove_the_installed_binary_and_repeats_cleanly() {
    let paths = linux();
    let targets = uninstall_targets(&paths, &UninstallOptions { binary: true });
    assert_eq!(targets.last(), Some(&paths.binary));
    let mut report = UninstallReport::default();
    for target in &targets {
        uninstall_step(&mut report, target, Removal::Missing).unwrap();
    }
    assert!(report.removed.is_empty());
    assert_eq!(
        uninstall_lines(&report),
        ["No native host registration found; nothing to remove."]
    );
    let error =
        uninstall_step(&mut report, "/m.json", Removal::Failed("busy".to_string())).unwrap_err();
    assert_eq!(
        error.message(),
        "native host installation failed: could not remove /m.json: busy"
    );
}

#[test]
fn paths_are_compared_by_their_components() {
    for (a, b) in [
        ("/h//.cargo/bin", "/h/.cargo/bin"),
        ("a/b/", "a/b"),
        ("a/./b", "a/b"),
        ("./a", "a"),
        ("/a", "a"),
        ("a/../b", "b"),
        ("", "."),
    ] {
        let expected = std::path::Path::new(a) == std::path::Path::new(b);
        assert_eq!(is_same_path(a, b), expected, "{a} {b}");
    }
}
