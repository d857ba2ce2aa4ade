use downer::host::Platform;
use downer::hostlog::{
    civil_from_days, configured_level, debug, default_path, error, info, init, init_default,
    path_in, quote, render, timestamp, HostLog, Level, LogSlot, DEFAULT_MAX_BYTES,
};

/// The two files of a log.
struct Disk {
    live: Option<String>,
    aside: Option<String>,
}

impl Disk {
    fn empty() -> Disk {
        Disk { live: None, aside: None }
    }

    fn write(&mut self, log: &mut HostLog, level: Level, event: &str, fields: &[(&str, &str)]) {
        let Some(line) = log.write(0, level, event, &pairs(fields)) else {
            return;
        };
        let bytes = line.len() as u64 + 1;
        let size = self.live.as_ref().map_or(0, |live| live.len() as u64);
        if log.must_rotate(size, bytes) {
            log.rotated();
            self.aside = self.live.take();
        }
        let live = self.live.get_or_insert_with(String::new);
        log.opened(live.len() as u64);
        live.push_str(&line);
        live.push('\n');
        log.wrote(bytes);
    }
}

fn pairs(fields: &[(&str, &str)]) -> Vec<(String, String)> {
    fields.iter().map(|(k, v)| (k.to_string(), v.to_string())).collect()
}

#[test]
fn the_macos_layout_is_the_one_apple_documents() {
    let path = path_in(Platform::MacOs, "/Users/someone", "/unused");
    assert_eq!(path, "/Users/someone/Library/Logs/downer/host.log");
}

#[test]
fn elsewhere_the_log_goes_under_the_state_directory() {
    let path = path_in(
        Platform::Linux,
        "/home/someone",
        "/home/someone/.local/state",
    );
    assert_eq!(path, "/home/someone/.local/state/downer/logs/host.log");
}

#[test]
fn a_level_is_parsed_case_insensitively_and_a_typo_is_not_silence() {
    assert_eq!(Level::parse("DEBUG"), Some(Level::Debug));
    assert_eq!(Level::parse(" info "), Some(Level::Info));
    assert_eq!(Level::parse("off"), Some(Level::Off));
    assert_eq!(Level::parse("verbose"), None);
}

#[test]
fn levels_order_from_quietest_to_loudest() {
    assert!(Level::Off < Level::Error);
    assert!(Level::Error < Level::Info);
    assert!(Level::Info < Level::Debug);
    assert_eq!(Level::default(), Level::Info);
}

#[test]
fn nothing_is_written_below_the_configured_level() {
    let mut disk = Disk::empty();
    let mut log = HostLog::new("host.log".to_string(), Level::Info, DEFAULT_MAX_BYTES);

    disk.write(&mut log, Level::Debug, "ffmpeg.stderr", &[("line", "chatter")]);
    assert!(disk.live.is_none(), "a filtered event must not even create a file");

    disk.write(&mut log, Level::Info, "host.start", &[]);
    assert!(disk.live.unwrap().contains("host.start"));
}

#[test]
fn off_writes_nothing_at_all() {
    let mut disk = Disk::empty();
    let mut log = HostLog::new("host.log".to_string(), Level::Off, DEFAULT_MAX_BYTES);
    disk.write(&mut log, Level::Error, "host.failed", &[("error", "boom")]);
    assert!(disk.live.is_none(), "logging off must leave no file behind");
}

#[test]
fn the_log_rotates_at_the_cap_and_keeps_exactly_one_generation() {
    let mut disk = Disk::empty();
    let mut log = HostLog::new("/logs/host.log".to_string(), Level::Info, 200);

    for index in 0..40 {
        disk.write(&mut log, Level::Info, "job.progress", &[("n", &index.to_string())]);
        assert!(disk.live.as_ref().unwrap().len() <= 200);
    }

    assert_eq!(log.rotated_path(), "/logs/host.log.1");
    let live = disk.live.expect("the live file exists");
    let aside = disk.aside.expect("exactly one generation is kept");
    assert!(live.len() <= 200, "the live file stays under the cap: {}", live.len());
    assert!(live.len() + aside.len() <= 400, "two files of the cap, at most");
    assert!(live.contains("n=39"));
}

#[test]
fn reopening_appends_rather_than_discarding_the_previous_run() {
    let mut disk = Disk::empty();
    let mut first = HostLog::new("host.log".to_string(), Level::Info, DEFAULT_MAX_BYTES);
    disk.write(&mut first, Level::Info, "host.start", &[("run", "1")]);

    let mut second = HostLog::new("host.log".to_string(), Level::Info, DEFAULT_MAX_BYTES);
    disk.write(&mut second, Level::Info, "host.start", &[("run", "2")]);

    let contents = disk.live.unwrap();
    assert!(contents.contains("run=1"), "{contents}");
    assert!(contents.contains("run=2"), "{contents}");
    assert_eq!(second.written, contents.len() as u64);
}

#[test]
fn a_value_with_a_newline_cannot_forge_a_log_line() {
    let line = render(
        0,
        Level::Info,
        "request.received",
        &pairs(&[("command", "download\nINFO host.stop")]),
    );
    assert_eq!(line.lines().count(), 1, "{line}");
    assert!(line.contains("\\n"), "{line}");
}

#[test]
fn a_url_in_a_value_loses_its_query() {
    let line = render(
        0,
        Level::Info,
        "ffmpeg.spawn",
        &pairs(&[("input", "https://cdn.example.com/v.m3u8?token=SECRET")]),
    );
    assert!(!line.contains("SECRET"), "{line}");
    assert!(line.contains("https://cdn.example.com/v.m3u8"), "{line}");
}

#[test]
fn a_timestamp_is_rfc3339_utc_to_the_second() {
    let stamp = timestamp(1_789_999_999);
    assert_eq!(stamp.len(), 20, "{stamp}");
    assert!(stamp.ends_with('Z'), "{stamp}");
    assert_eq!(stamp.as_bytes()[4], b'-', "{stamp}");
    assert_eq!(stamp.as_bytes()[10], b'T', "{stamp}");
    assert_eq!(timestamp(0), "1970-01-01T00:00:00Z");
    assert_eq!(timestamp(1_709_210_096), "2024-02-29T12:34:56Z");
}

#[test]
fn civil_dates_match_known_days() {
    assert_eq!(civil_from_days(0), (1970, 1, 1));
    assert_eq!(civil_from_days(1), (1970, 1, 2));
    assert_eq!(civil_from_days(19_782), (2024, 2, 29));
    assert_eq!(civil_from_days(19_783), (2024, 3, 1));
    assert_eq!(civil_from_days(11_016), (2000, 2, 29));
    assert_eq!(civil_from_days(20_717), (2026, 9, 21));
    assert_eq!(civil_from_days(-1), (1969, 12, 31));
    assert_eq!(civil_from_days(-25_508), (1900, 3, 1));
    assert_eq!(civil_from_days(-25_509), (1900, 2, 28));
}

#[test]
fn a_line_holds_the_time_the_level_the_event_and_its_fields() {
    let line = render(
        0,
        Level::Info,
        "job.terminal",
        &pairs(&[("job_id", "job-1"), ("error", "it went wrong"), ("empty", "")]),
    );
    assert_eq!(
        line,
        "1970-01-01T00:00:00Z INFO  job.terminal job_id=job-1 error=\"it went wrong\" empty=\"\""
    );
}

#[test]
fn values_are_quoted_only_where_they_need_it() {
    assert_eq!(quote("plain"), "plain");
    assert_eq!(quote(""), "\"\"");
    assert_eq!(quote("a b"), "\"a b\"");
    assert_eq!(quote("a\"b\\c\td\re"), "\"a\\\"b\\\\c\\td\\re\"");
    assert_ne!(quote("a\nb"), quote("a\\nb"));
}

#[test]
fn the_environment_outweighs_the_configuration() {
    assert_eq!(configured_level(Some("debug".to_string()), Level::Error), Level::Debug);
    assert_eq!(configured_level(Some("loud".to_string()), Level::Error), Level::Error);
    assert_eq!(configured_level(None, Level::Off), Level::Off);
}

#[test]
fn the_log_needs_a_home_and_a_place_for_state() {
    let home = Some("/h".to_string());
    let state = Some("/h/state".to_string());
    let local = Some("/h/local".to_string());
    assert_eq!(
        default_path(Platform::Linux, &home, &state, &local).as_deref(),
        Some("/h/state/downer/logs/host.log")
    );
    assert_eq!(
        default_path(Platform::Linux, &home, &None, &local).as_deref(),
        Some("/h/local/downer/logs/host.log")
    );
    assert_eq!(default_path(Platform::Linux, &home, &None, &None), None);
    assert_eq!(default_path(Platform::Linux, &None, &state, &local), None);
}

#[test]
fn an_event_goes_to_a_log_if_there_is_one() {
    let mut slot = LogSlot::new();
    assert!(info(&slot, 0, "host.stop", &pairs(&[])).is_none());
    init_default(&mut slot, Level::Info, None);
    assert!(slot.log.is_none());
    init_default(&mut slot, Level::Off, Some("/logs/host.log".to_string()));
    assert!(slot.log.is_none());
    init_default(&mut slot, Level::Info, Some("/logs/host.log".to_string()));
    assert_eq!(
        info(&slot, 0, "host.stop", &pairs(&[])).as_deref(),
        Some("1970-01-01T00:00:00Z INFO  host.stop")
    );
    assert!(error(&slot, 0, "host.failed", &pairs(&[])).is_some());
    assert!(debug(&slot, 0, "ffmpeg.stderr", &pairs(&[])).is_none());
    let mut small = LogSlot::new();
    init(&mut small, "/x".to_string(), Level::Debug, 10);
    let small = small.log.unwrap();
    assert_eq!(small.path(), "/x");
    assert_eq!(small.level(), Level::Debug);
    assert_eq!(small.max_bytes, 10);
    assert_eq!(Level::Debug.name(), "debug");
}

#[test]
fn a_fresh_log_over_a_nearly_full_file_sets_it_aside_first() {
    let mut disk = Disk { live: Some("x".repeat(90)), aside: None };
    let mut log = HostLog::new("host.log".to_string(), Level::Info, 100);
    disk.write(&mut log, Level::Info, "host.start", &[("run", "2")]);
    let live = disk.live.unwrap();
    assert!(live.len() <= 100, "{live}");
    assert!(live.contains("run=2"), "{live}");
    assert_eq!(disk.aside.as_deref(), Some("x".repeat(90).as_str()));
    assert_eq!(log.written, live.len() as u64);
}

#[test]
fn a_line_longer_than_the_limit_is_written_alone() {
    let mut disk = Disk { live: Some("x".repeat(9)), aside: None };
    let mut log = HostLog::new("host.log".to_string(), Level::Info, 10);
    disk.write(&mut log, Level::Info, "host.start", &[]);
    assert!(disk.live.unwrap().ends_with("host.start\n"));
    assert_eq!(disk.aside.as_deref(), Some("xxxxxxxxx"));
}

#[test]
fn a_log_is_set_aside_under_its_last_name() {
    for (path, expected) in [
        ("/logs/host.log", "/logs/host.log.1"),
        ("/logs/host.log/", "/logs/host.log.1"),
        ("/logs//host.log/.", "/logs/host.log.1"),
        ("host.log", "host.log.1"),
        ("/host.log", "/host.log.1"),
        ("logs/./host.log", "logs/host.log.1"),
        ("./host.log", "./host.log.1"),
        ("logs/..", "logs/../.1"),
        ("/", "/.1"),
        ("", ".1"),
    ] {
        let log = HostLog::new(path.to_string(), Level::Info, 1);
        assert_eq!(log.rotated_path(), expected, "{path}");
        let name = std::path::Path::new(path).file_name().unwrap_or_default().to_str().unwrap();
        let moved = std::path::Path::new(path).with_file_name(format!("{name}.1"));
        assert_eq!(moved.to_str().unwrap(), expected, "{path}");
    }
}

#[test]
fn the_first_log_of_a_process_stands() {
    let mut slot = LogSlot::new();
    init(&mut slot, "/first".to_string(), Level::Info, 10);
    init(&mut slot, "/second".to_string(), Level::Debug, 20);
    init_default(&mut slot, Level::Debug, Some("/third".to_string()));
    assert!(debug(&slot, 0, "ffmpeg.stderr", &pairs(&[])).is_none());
    let log = slot.log.unwrap();
    assert_eq!((log.path(), log.level(), log.max_bytes), ("/first", Level::Info, 10));
}
