use downer::failure::{is_transient, summarize, MAX_DETAIL_BYTES};

#[test]
fn leads_with_the_cause_not_the_configuration_or_the_consequence() {
    let stderr = "ffmpeg stats and -progress period set to 0.5.\n\
         [in#0 @ 0x7bff020000] Opening 'http://127.0.0.1:8081/media/segment0.ts' for reading\n\
         [tcp @ 0x7bff04c080] Connection to tcp://127.0.0.1:8081 failed: Connection refused\n\
         [in#0 @ 0x7bff020000] Failed to open segment 0 of playlist 0\n\
         Error opening input files: Invalid data found when processing input";
    let summary = summarize(stderr);
    assert_eq!(
        summary.headline,
        "Connection to tcp://127.0.0.1:8081 failed: Connection refused"
    );
    assert!(
        !summary.detail.contains("stats and -progress"),
        "configuration chatter is not detail: {}",
        summary.detail
    );
    assert!(
        !summary.detail.contains("for reading"),
        "nor is what FFmpeg was opening: {}",
        summary.detail
    );
    assert!(summary.detail.contains("Invalid data found"));
}

#[test]
fn an_http_status_is_a_cause() {
    let summary = summarize(
        "ffmpeg stats and -progress period set to 0.5.\n\
         [hls @ 0x1] Server returned 404 Not Found\n\
         Error opening input files: Invalid data found when processing input",
    );
    assert_eq!(summary.headline, "Server returned 404 Not Found");
}

#[test]
fn falls_back_to_the_last_line_rather_than_the_first() {
    let summary = summarize(
        "ffmpeg stats and -progress period set to 0.5.\n\
         [out#0 @ 0x1] Something entirely unanticipated\n\
         Conversion failed!",
    );
    assert_eq!(summary.headline, "Conversion failed!");
}

#[test]
fn chatter_survives_when_it_is_all_there_is() {
    let summary = summarize("Opening https://cdn.example.test/hls/seg42.ts?… for reading");
    assert_eq!(
        summary.detail,
        "Opening https://cdn.example.test/hls/seg42.ts?… for reading"
    );
    assert_eq!(
        summary.headline,
        "Opening https://cdn.example.test/hls/seg42.ts?… for reading"
    );
}

#[test]
fn a_long_tail_with_multibyte_characters_does_not_panic() {
    let noisy = format!("[in#0 @ 0x1] {}\n", "…".repeat(40)).repeat(60);
    let stderr = format!("{noisy}Error opening input files: Invalid data found!");
    assert!(
        !stderr.is_char_boundary(stderr.len() - MAX_DETAIL_BYTES),
        "this fixture only tests what it claims if the cut is mid-character"
    );

    let summary = summarize(&stderr);
    assert!(summary.detail.starts_with("…earlier output omitted…"));
    assert!(summary
        .detail
        .ends_with("Error opening input files: Invalid data found!"));
}

#[test]
fn empty_output_says_so_rather_than_showing_nothing() {
    let summary = summarize("   \n\n");
    assert_eq!(summary.headline, "FFmpeg produced no diagnostic output");
    assert_eq!(summary.detail, "");
}

#[test]
fn the_component_prefix_is_dropped_from_the_headline_only() {
    let summary = summarize("[tcp @ 0xdeadbeef] Connection refused");
    assert_eq!(summary.headline, "Connection refused");
    assert_eq!(summary.detail, "[tcp @ 0xdeadbeef] Connection refused");
}

#[test]
fn a_long_tail_is_bounded_keeping_the_end() {
    let repeated =
        "[in#0 @ 0x1] Segment 0 of playlist 0 failed too many times, skipping\n".repeat(200);
    let stderr = format!("{repeated}Error opening input files: Invalid data found");
    let summary = summarize(&stderr);
    assert!(
        summary.detail.len() <= MAX_DETAIL_BYTES + 32,
        "{}",
        summary.detail.len()
    );
    assert!(summary.detail.starts_with("…earlier output omitted…"));
    assert!(
        summary
            .detail
            .ends_with("Error opening input files: Invalid data found"),
        "the end is what explains the failure"
    );
}

#[test]
fn a_dropped_connection_is_worth_retrying() {
    for stderr in [
        "[hls @ 0x1] Error in the pull function.\n[in#0] Error during demuxing: Input/output error",
        "[tcp @ 0x2] Connection reset by peer",
        "[http @ 0x3] Server returned 503 Service Unavailable",
        "[http @ 0x4] Server returned 429 Too Many Requests",
        "[tcp @ 0x5] Connection timed out",
    ] {
        assert!(is_transient(stderr), "should retry: {stderr}");
    }
}

#[test]
fn an_authorisation_or_missing_resource_failure_is_never_retried() {
    for stderr in [
        "[http @ 0x1] Server returned 403 Forbidden",
        "[http @ 0x2] Server returned 404 Not Found",
        "[http @ 0x3] Server returned 401 Unauthorized",
        "[out#0] Error opening output file: Permission denied",
        "No space left on device",
        "[in#0] Error opening input: Invalid data found when processing input",
    ] {
        assert!(!is_transient(stderr), "should not retry: {stderr}");
    }
}

#[test]
fn a_permanent_failure_wins_over_transient_noise_earlier_in_the_log() {
    let stderr = "[hls @ 0x1] Error in the pull function.\n                      [http @ 0x2] Server returned 403 Forbidden\n                      [in#0] Error during demuxing: Input/output error";
    assert!(
        !is_transient(stderr),
        "a 403 anywhere in the transcript settles it"
    );
}

#[test]
fn an_unrecognised_failure_is_not_retried() {
    assert!(!is_transient("[in#0] Something nobody has seen before"));
    assert!(!is_transient(""));
}

#[test]
fn an_argument_parsing_failure_is_not_a_network_problem() {
    assert!(!is_transient(
        "Unrecognized option 'allowed_segment_extensions'.\nError splitting the argument list: Option not found"
    ));
}
