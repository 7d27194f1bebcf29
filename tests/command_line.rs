use surf::cli::{plan_run, take_entries, to_scan_request, Args, RunMode, DEFAULT_LIMIT};
use surf::engine::FileEntry;

fn args() -> Args {
    Args {
        path: ".".to_string(),
        min_size: "0".to_string(),
        limit: DEFAULT_LIMIT,
        json: false,
        tui: false,
        threads: 4,
        service: false,
        port: 1234,
        host: "127.0.0.1".to_string(),
    }
}

#[test]
fn service_mode_wins() {
    let mut a = args();
    a.service = true;
    a.tui = true;
    match plan_run(&a) {
        Ok(RunMode::Service { host, port }) => {
            assert_eq!(host, "127.0.0.1");
            assert_eq!(port, 1234);
        }
        _ => panic!("expected service mode"),
    }
}

#[test]
fn tui_refuses_json_and_a_changed_limit() {
    let mut a = args();
    a.tui = true;
    a.json = true;
    assert!(plan_run(&a).unwrap_err().contains("--json cannot be used together with --tui"));
    a.json = false;
    a.limit = 5;
    assert!(plan_run(&a).unwrap_err().contains("--limit is not supported in --tui mode"));
    a.limit = DEFAULT_LIMIT;
    match plan_run(&a) {
        Ok(RunMode::Tui(config)) => {
            assert_eq!(config.root, ".");
            assert_eq!(config.threads, 4);
        }
        _ => panic!("expected tui mode"),
    }
}

#[test]
fn one_shot_parses_the_minimum_size() {
    let mut a = args();
    a.min_size = "2MB".to_string();
    a.json = true;
    a.limit = 3;
    match plan_run(&a) {
        Ok(RunMode::OneShot { config, json, limit }) => {
            assert_eq!(config.min_size, 2 * 1024 * 1024);
            assert!(json);
            assert_eq!(limit, 3);
        }
        _ => panic!("expected one-shot mode"),
    }
    a.min_size = "10XB".to_string();
    assert!(plan_run(&a).unwrap_err().contains("unsupported size unit"));
}

#[test]
fn output_is_cut_to_the_limit() {
    let entries = vec![
        FileEntry { path: "/a".to_string(), size: 30 },
        FileEntry { path: "/b".to_string(), size: 20 },
        FileEntry { path: "/c".to_string(), size: 10 },
    ];
    let shown = take_entries(&entries, 1);
    assert_eq!(shown.len(), 1);
    assert_eq!(shown[0].path, "/a");
    assert_eq!(take_entries(&entries, 20).len(), 3);
    assert_eq!(take_entries(&entries, 0).len(), 0);
}

#[test]
fn scan_request_from_options() {
    let req = to_scan_request("/data", Some(2), Some("1KB".to_string()), Some(30), 7).unwrap();
    assert_eq!(req.root_path, "/data");
    assert_eq!(req.threads, Some(2));
    assert_eq!(req.min_size, Some(1024));
    assert_eq!(req.stale_days, Some(30));
    assert_eq!(req.limit, Some(7));
    assert!(to_scan_request("/data", None, Some("abc".to_string()), None, 7).is_err());
    assert_eq!(to_scan_request("/data", None, None, None, 7).unwrap().min_size, None);
}

#[test]
fn threads_can_be_overridden_via_short_flag() {
    assert_eq!(surf::size::parse_threads("8").unwrap(), 8);
}

#[test]
fn threads_rejects_zero_value() {
    assert!(surf::size::parse_threads("0").is_err());
}

#[test]
fn service_mode_flags_can_be_set() {
    let mut a = args();
    a.service = true;
    a.port = 4321;
    a.host = "0.0.0.0".to_string();
    match plan_run(&a) {
        Ok(RunMode::Service { host, port }) => {
            assert_eq!(port, 4321);
            assert_eq!(host, "0.0.0.0");
        }
        _ => panic!("expected service mode"),
    }
}

#[test]
fn tui_flag_can_be_enabled() {
    let mut a = args();
    a.tui = true;
    assert!(matches!(plan_run(&a), Ok(RunMode::Tui(_))));
    a.tui = false;
    assert!(matches!(plan_run(&a), Ok(RunMode::OneShot { .. })));
}
