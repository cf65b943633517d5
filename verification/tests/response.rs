use clam_client::error::ClamError;
use clam_client::response::ClamScanResult;
use clam_client::response::ClamStats;
use clam_client::response::ClamVersion;
use clam_client::response::is_pong;

fn version_string() -> String {
    "ClamAV 0.100.0/24802/Wed Aug  1 08:43:37 2018\0".to_string()
}

fn stats_string() -> &'static str {
    "POOLS: 1\n\nSTATE: VALID PRIMARY\nTHREADS: live 1  idle 0 max 12 idle-timeout 30\nQUEUE: 0 items\n\tSTATS 0.000394\n\nMEMSTATS: heap 9.082M mmap 0.000M used 6.902M free 2.184M releasable 0.129M pools 1 pools_used 565.979M pools_total 565.999M\nEND\0"
}

#[test]
fn test_version_parse_version_tag() {
    let raw = version_string();
    let parsed = ClamVersion::parse(raw).unwrap();
    assert_eq!(parsed.version_tag, "ClamAV 0.100.0".to_string());
}

#[test]
fn test_version_parse_build_number() {
    let raw = version_string();
    let parsed = ClamVersion::parse(raw).unwrap();
    assert_eq!(parsed.build_number, 24802);
}

#[test]
fn test_version_parse_publish_dt() {
    let raw = version_string();
    let parsed = ClamVersion::parse(raw).unwrap();
    let expected = chrono::NaiveDateTime::parse_from_str("Wed Aug  1 08:43:37 2018", "%a %b %e %T %Y")
        .unwrap()
        .and_utc()
        .timestamp();
    assert_eq!(parsed.release_date, expected);
}

#[test]
fn test_version_parse_publish_dt_value() {
    // 2018-08-01T08:43:37Z as Unix seconds, computed independently.
    let raw = version_string();
    let parsed = ClamVersion::parse(raw).unwrap();
    assert_eq!(parsed.release_date, 1533113017);
}

#[test]
fn test_result_parse_ok() {
    let raw = "/some/file: OK\0";
    let parsed = ClamScanResult::parse(raw);
    assert_eq!(parsed[0], ClamScanResult::Clean);
}

#[test]
fn test_result_parse_found() {
    let raw = "/some/file: SOME_BAD-Virus FOUND\0";
    let parsed = ClamScanResult::parse(raw);
    assert_eq!(
        parsed[0],
        ClamScanResult::Found("/some/file".to_string(), "SOME_BAD-Virus".to_string())
    );
}

#[test]
fn test_result_parse_multi_found() {
    let raw = "/some/file: SOME_BAD-Virus FOUND\0/some/other_file: SOME_V*BAD-Virus FOUND\0";
    let parsed = ClamScanResult::parse(raw);
    assert_eq!(
        parsed[0],
        ClamScanResult::Found("/some/file".to_string(), "SOME_BAD-Virus".to_string())
    );
    assert_eq!(
        parsed[1],
        ClamScanResult::Found(
            "/some/other_file".to_string(),
            "SOME_V*BAD-Virus".to_string()
        )
    );
}

#[test]
fn test_result_parse_error() {
    let raw = "/some/file: lstat() failed or some other random error\0";
    let parsed = ClamScanResult::parse(raw);
    assert_eq!(
        parsed[0],
        ClamScanResult::Error("/some/file: lstat() failed or some other random error".to_string())
    );
}

#[test]
fn test_stats_parse_pools() {
    let parsed = ClamStats::parse(stats_string()).unwrap();
    assert_eq!(parsed.pools, 1);
}

#[test]
fn test_stats_parse_state() {
    let parsed = ClamStats::parse(stats_string()).unwrap();
    assert_eq!(parsed.state, "VALID PRIMARY".to_string());
}

#[test]
fn test_stats_parse_live_threads() {
    let parsed = ClamStats::parse(stats_string()).unwrap();
    assert_eq!(parsed.threads_live, 1);
}

#[test]
fn test_stats_parse_idle_threads() {
    let parsed = ClamStats::parse(stats_string()).unwrap();
    assert_eq!(parsed.threads_idle, 0);
}

#[test]
fn test_stats_parse_max_threads() {
    let parsed = ClamStats::parse(stats_string()).unwrap();
    assert_eq!(parsed.threads_max, 12);
}

#[test]
fn test_stats_parse_threads_timeout() {
    let parsed = ClamStats::parse(stats_string()).unwrap();
    assert_eq!(parsed.threads_idle_timeout_secs, 30);
}

#[test]
fn test_stats_parse_queue() {
    let parsed = ClamStats::parse(stats_string()).unwrap();
    assert_eq!(parsed.queue, 0);
}

#[test]
fn test_stats_parse_mem_heap() {
    let parsed = ClamStats::parse(stats_string()).unwrap();
    assert_eq!(parsed.mem_heap, "9.082M".to_string());
}

#[test]
fn test_stats_parse_mem_mmap() {
    let parsed = ClamStats::parse(stats_string()).unwrap();
    assert_eq!(parsed.mem_mmap, "0.000M".to_string());
}

#[test]
fn test_stats_parse_mem_used() {
    let parsed = ClamStats::parse(stats_string()).unwrap();
    assert_eq!(parsed.mem_used, "6.902M".to_string());
}

#[test]
fn test_stats_parse_mem_free() {
    let parsed = ClamStats::parse(stats_string()).unwrap();
    assert_eq!(parsed.mem_free, "2.184M".to_string());
}

#[test]
fn test_stats_parse_mem_releaseable() {
    let parsed = ClamStats::parse(stats_string()).unwrap();
    assert_eq!(parsed.mem_releasable, "0.129M".to_string());
}

#[test]
fn test_stats_parse_pools_used() {
    let parsed = ClamStats::parse(stats_string()).unwrap();
    assert_eq!(parsed.pools_used, "565.979M".to_string());
}

#[test]
fn test_stats_parse_pools_total() {
    let parsed = ClamStats::parse(stats_string()).unwrap();
    assert_eq!(parsed.pools_total, "565.999M".to_string());
}

#[test]
fn test_stats_parse_malformed_is_error() {
    let raw = "bogus";
    match ClamStats::parse(raw) {
        Err(ClamError::InvalidData(t)) => assert_eq!(t, "bogus".to_string()),
        other => panic!("expected the raw text back, got {:?}", other),
    }
}

#[test]
fn test_scan_outcomes_keep_segment_order() {
    let parsed = ClamScanResult::parse("/a: OK\0/b: X FOUND\0");
    assert_eq!(
        parsed,
        vec![
            ClamScanResult::Clean,
            ClamScanResult::Found("/b".to_string(), "X".to_string()),
        ]
    );
}

#[test]
fn test_ok_suffix_wins_over_noise() {
    let parsed = ClamScanResult::parse("/p: weird message but still OK\0");
    assert_eq!(parsed, vec![ClamScanResult::Clean]);
}

#[test]
fn test_ok_suffix_precedes_found() {
    // The OK-suffix check comes first, so a segment that both holds
    // FOUND and truly ends in OK reads as clean.
    let parsed = ClamScanResult::parse("/p: EVIL FOUND but then OK\0");
    assert_eq!(parsed, vec![ClamScanResult::Clean]);
}

#[test]
fn test_version_parse_single_field_rejected() {
    match ClamVersion::parse("onlyonepart".to_string()) {
        Err(ClamError::InvalidData(t)) => assert_eq!(t, "onlyonepart".to_string()),
        other => panic!("expected a malformed-data error, got {:?}", other),
    }
}

#[test]
fn test_version_parse_bad_build_number() {
    match ClamVersion::parse("tag/notanum/Wed Aug  1 08:43:37 2018".to_string()) {
        Err(ClamError::IntParseError(t)) => assert_eq!(t, "notanum".to_string()),
        other => panic!("expected an integer-parse error, got {:?}", other),
    }
}

#[test]
fn test_version_parse_build_number_overflow() {
    match ClamVersion::parse("tag/18446744073709551616/Wed Aug  1 08:43:37 2018".to_string()) {
        Err(ClamError::IntParseError(t)) => assert_eq!(t, "18446744073709551616".to_string()),
        other => panic!("expected an integer-parse error, got {:?}", other),
    }
}

#[test]
fn test_version_parse_plus_sign_accepted() {
    let parsed = ClamVersion::parse("tag/+24802/Wed Aug  1 08:43:37 2018".to_string()).unwrap();
    assert_eq!(parsed.build_number, 24802);
}

#[test]
fn test_version_parse_bad_date() {
    match ClamVersion::parse("tag/1/not a date".to_string()) {
        Err(ClamError::DateParseError(t)) => assert_eq!(t, "not a date".to_string()),
        other => panic!("expected a date-parse error, got {:?}", other),
    }
}

#[test]
fn test_single_outcome_accepted() {
    let one = ClamScanResult::parse_single("stream: OK\0").unwrap();
    assert_eq!(one, ClamScanResult::Clean);
}

#[test]
fn test_single_outcome_zero_rejected() {
    match ClamScanResult::parse_single("") {
        Err(ClamError::InvalidData(t)) => assert_eq!(t, "".to_string()),
        other => panic!("expected a malformed-response error, got {:?}", other),
    }
}

#[test]
fn test_single_outcome_many_rejected() {
    let raw = "/a: OK\0/b: OK\0";
    match ClamScanResult::parse_single(raw) {
        Err(ClamError::InvalidData(t)) => assert_eq!(t, raw.to_string()),
        other => panic!("expected a malformed-response error, got {:?}", other),
    }
}

#[test]
fn test_is_pong() {
    assert!(is_pong("PONG"));
    assert!(!is_pong("NOPE"));
    assert!(!is_pong("PONG\0"));
}

#[test]
fn test_found_signature_joins_tokens() {
    // Tokens between the location and FOUND are joined with nothing in
    // between.
    let parsed = ClamScanResult::parse("/f: Two Part FOUND\0");
    assert_eq!(
        parsed,
        vec![ClamScanResult::Found("/f".to_string(), "TwoPart".to_string())]
    );
}
