use surf::engine::{ScanProgress, StatusSnapshot};
use surf::rpc::{
    decode_request, handle_cancel, handle_get_results, handle_status_all, handle_status_one, register_scan,
    scan_config_for, validate_surf_scan_params, Json, RpcCall, RpcOutcome, SurfGetResultsParams, SurfScanParams,
    INVALID_PARAMS, INVALID_REQUEST, METHOD_NOT_FOUND, TASK_NOT_FOUND,
};
use surf::tasks::{TaskManager, TaskState};

fn obj(fields: Vec<(&str, Json)>) -> Json {
    Json::Object(fields.into_iter().map(|(k, v)| (k.to_string(), v)).collect())
}

fn text(s: &str) -> Json {
    Json::Str(s.to_string())
}

fn request(method: &str, params: Option<Json>) -> Json {
    let mut fields = vec![("jsonrpc", text("2.0")), ("method", text(method)), ("id", Json::UInt(1))];
    if let Some(p) = params {
        fields.push(("params", p));
    }
    obj(fields)
}

fn error_code(r: Result<RpcCall, surf::rpc::JsonRpcError>) -> i32 {
    match r {
        Err(e) => e.code,
        Ok(_) => 0,
    }
}

#[test]
fn test_validate_surf_scan_params_ok_and_invalid() {
    let ok_params = SurfScanParams {
        path: "/tmp".to_string(),
        min_size: Some("10MB".to_string()),
        threads: Some(4),
        limit: Some(10),
        exclude_patterns: None,
        tag: None,
    };
    assert!(validate_surf_scan_params(&ok_params).is_ok());

    let bad_min_size = SurfScanParams {
        path: "/tmp".to_string(),
        min_size: Some("10XB".to_string()),
        threads: Some(4),
        limit: None,
        exclude_patterns: None,
        tag: None,
    };
    let err = validate_surf_scan_params(&bad_min_size).unwrap_err();
    assert_eq!(err.code, INVALID_PARAMS);
    assert_eq!(err.message, "INVALID_PARAMS");
    let detail = err.data.unwrap();
    assert!(detail.contains("invalid min_size"));

    let bad_threads = SurfScanParams {
        path: "/tmp".to_string(),
        min_size: None,
        threads: Some(0),
        limit: None,
        exclude_patterns: None,
        tag: None,
    };
    let err = validate_surf_scan_params(&bad_threads).unwrap_err();
    assert_eq!(err.code, INVALID_PARAMS);
    assert_eq!(err.message, "INVALID_PARAMS");
    let detail = err.data.unwrap();
    assert!(detail.contains("threads"));
    assert!(detail.contains(">= 1"));
}

#[test]
fn envelope_errors_follow_the_pipeline() {
    assert_eq!(error_code(decode_request(&Json::Array(Vec::new()))), INVALID_REQUEST);
    assert_eq!(error_code(decode_request(&obj(vec![("method", text("Surf.Scan"))]))), INVALID_REQUEST);
    assert_eq!(
        error_code(decode_request(&obj(vec![("jsonrpc", text("1.0")), ("method", text("Surf.Scan"))]))),
        INVALID_REQUEST
    );
    let unknown = decode_request(&request("Unknown.Method", None)).unwrap_err();
    assert_eq!(unknown.code, METHOD_NOT_FOUND);
    assert!(unknown.data.unwrap().contains("Unknown.Method"));
    let no_params = decode_request(&request("Surf.Scan", None)).unwrap_err();
    assert_eq!(no_params.code, INVALID_PARAMS);
    assert_eq!(error_code(decode_request(&request("Surf.Cancel", None))), INVALID_PARAMS);
}

#[test]
fn params_of_the_wrong_kind_are_invalid() {
    let e = decode_request(&request("Surf.Scan", Some(Json::Array(Vec::new())))).unwrap_err();
    assert_eq!(e.code, INVALID_PARAMS);
    assert!(e.data.unwrap().contains("params must be a JSON object for method Surf.Scan"));
    assert_eq!(error_code(decode_request(&request("Surf.Status", Some(Json::Array(Vec::new()))))), INVALID_PARAMS);
    assert_eq!(error_code(decode_request(&request("Surf.Cancel", Some(Json::Array(Vec::new()))))), INVALID_PARAMS);
    assert_eq!(error_code(decode_request(&request("Surf.GetResults", Some(Json::Array(Vec::new()))))), INVALID_PARAMS);
    let e = decode_request(&request("Surf.Scan", Some(obj(vec![("threads", Json::UInt(4))])))).unwrap_err();
    assert!(e.data.unwrap().contains("invalid Surf.Scan params"));
    let e = decode_request(&request("Surf.Scan", Some(obj(vec![("path", text("/tmp")), ("min_size", text("10XB"))])))).unwrap_err();
    let d = e.data.unwrap();
    assert!(d.contains("min_size") && d.contains("unsupported"));
    let e = decode_request(&request("Surf.Scan", Some(obj(vec![("path", text("/tmp")), ("threads", Json::UInt(0))])))).unwrap_err();
    let d = e.data.unwrap();
    assert!(d.contains("threads") && d.contains(">= 1"));
}

#[test]
fn status_and_cancel_task_ids_are_checked() {
    let e = decode_request(&request("Surf.Status", Some(obj(vec![("task_id", Json::UInt(42))])))).unwrap_err();
    assert!(e.data.unwrap().contains("task_id must be a string or null"));
    let e = decode_request(&request("Surf.Status", Some(obj(vec![("task_id", text(""))])))).unwrap_err();
    assert!(e.data.unwrap().contains("task_id must be a non-empty string or null"));
    assert!(matches!(decode_request(&request("Surf.Status", Some(obj(vec![])))), Ok(RpcCall::StatusAll)));
    assert!(matches!(decode_request(&request("Surf.Status", Some(obj(vec![("task_id", Json::Null)])))), Ok(RpcCall::StatusAll)));
    assert!(matches!(decode_request(&request("Surf.Status", None)), Ok(RpcCall::StatusAll)));
    let e = decode_request(&request("Surf.Cancel", Some(obj(vec![])))).unwrap_err();
    assert!(e.data.unwrap().contains("task_id must be a non-empty string"));
    let e = decode_request(&request("Surf.Cancel", Some(obj(vec![("task_id", Json::UInt(42))])))).unwrap_err();
    assert!(e.data.unwrap().contains("task_id must be a string"));
    match decode_request(&request("Surf.Cancel", Some(obj(vec![("task_id", text("7"))])))) {
        Ok(RpcCall::Cancel(id)) => assert_eq!(id, "7"),
        _ => panic!("expected a cancel call"),
    }
}

#[test]
fn valid_scan_request_registers_a_running_task() {
    let req = request(
        "Surf.Scan",
        Some(obj(vec![
            ("path", text("/tmp")),
            ("min_size", text("10MB")),
            ("threads", Json::UInt(4)),
            ("limit", Json::UInt(10)),
            ("exclude_patterns", Json::Array(vec![text("**/node_modules/**")])),
            ("tag", text("test")),
        ])),
    );
    let params = match decode_request(&req) {
        Ok(RpcCall::Scan(p)) => p,
        _ => panic!("expected a scan call"),
    };
    let config = scan_config_for(&params, 2);
    assert_eq!(config.min_size, 10 * 1024 * 1024);
    assert_eq!(config.threads, 4);
    let mut mgr = TaskManager::new();
    match register_scan(&mut mgr, &params, &config, Ok(()), 100) {
        RpcOutcome::Scan(r) => {
            assert_eq!(r.task_id, "1");
            assert_eq!(r.state, TaskState::Running);
            assert_eq!(r.path, "/tmp");
            assert_eq!(r.min_size_bytes, 10 * 1024 * 1024);
            assert_eq!(r.threads, 4);
            assert_eq!(r.limit, Some(10));
        }
        _ => panic!("expected a scan result"),
    }
    match register_scan(&mut mgr, &params, &config, Err("no such root".to_string()), 100) {
        RpcOutcome::Error(e) => assert_eq!(e.code, INVALID_PARAMS),
        _ => panic!("expected an error"),
    }
}

#[test]
fn task_ids_increase_and_records_are_kept() {
    let mut manager = TaskManager::new();
    let id1 = manager.register_task("/path/one".to_string(), 1024, 4, Some(10), Some("tag-one".to_string()), TaskState::Queued, 50);
    let id2 = manager.register_task("/path/two".to_string(), 2048, 8, None, None, TaskState::Running, 60);
    assert_ne!(id1, id2);
    assert_eq!(id1, "1");
    assert_eq!(id2, "2");
    let info1 = manager.get_task_info(&id1).expect("task id1 should exist");
    assert_eq!(info1.path, "/path/one");
    assert_eq!(info1.min_size_bytes, 1024);
    assert_eq!(info1.threads, 4);
    assert_eq!(info1.limit, Some(10));
    assert_eq!(info1.tag.as_deref(), Some("tag-one"));
    assert_eq!(info1.state, TaskState::Queued);
    assert_eq!(info1.started_at, 50);
    assert_eq!(info1.updated_at, 50);
    assert!(manager.get_task_info("01").is_none());
    assert!(manager.get_task_info("3").is_none());
    assert!(manager.get_task_info("").is_none());
}

#[test]
fn cancel_of_a_canceled_task_is_idempotent() {
    let mut mgr = TaskManager::new();
    let id = mgr.register_task("/tmp/idempotent".to_string(), 0, 2, None, None, TaskState::Canceled, 10);
    match handle_cancel(&mut mgr, &id, 20) {
        (RpcOutcome::Cancel(r), stop) => {
            assert_eq!(r.task_id, id);
            assert_eq!(r.previous_state.as_str(), "canceled");
            assert_eq!(r.current_state.as_str(), "canceled");
            assert!(!stop);
        }
        _ => panic!("expected a cancel result"),
    }
    assert_eq!(mgr.get_task_info(&id).unwrap().updated_at, 20);
}

#[test]
fn cancel_moves_active_tasks_and_keeps_finished_ones() {
    let mut mgr = TaskManager::new();
    let queued = mgr.register_task("/a".to_string(), 0, 1, None, None, TaskState::Queued, 1);
    let done = mgr.register_task("/b".to_string(), 0, 1, None, None, TaskState::Completed, 1);
    let failed = mgr.register_task("/c".to_string(), 0, 1, None, None, TaskState::Failed, 1);
    let running = mgr.register_task_with_handle("/d".to_string(), 0, 1, None, None, TaskState::Running, true, 1);
    let (prev, info, stop) = mgr.cancel_task(&queued, 2).unwrap();
    assert_eq!((prev, info.state, stop), (TaskState::Queued, TaskState::Canceled, false));
    let (prev, info, _) = mgr.cancel_task(&done, 2).unwrap();
    assert_eq!((prev, info.state), (TaskState::Completed, TaskState::Completed));
    let (prev, info, _) = mgr.cancel_task(&failed, 2).unwrap();
    assert_eq!((prev, info.state), (TaskState::Failed, TaskState::Failed));
    let (_, info, stop) = mgr.cancel_task(&running, 2).unwrap();
    assert_eq!((info.state, stop), (TaskState::Canceled, true));
    match handle_cancel(&mut mgr, "non-existent", 3) {
        (RpcOutcome::Error(e), false) => {
            assert_eq!(e.code, TASK_NOT_FOUND);
            assert!(e.data.unwrap().contains("task_id not found: non-existent"));
        }
        _ => panic!("expected task not found"),
    }
}

#[test]
fn status_listing_leaves_out_terminal_tasks() {
    let mut mgr = TaskManager::new();
    let completed = mgr.register_task("/tmp/c".to_string(), 0, 1, None, Some("c".to_string()), TaskState::Completed, 1);
    let queued = mgr.register_task("/tmp/q".to_string(), 0, 1, None, Some("q".to_string()), TaskState::Queued, 1);
    let running = mgr.register_task("/tmp/r".to_string(), 0, 1, None, Some("r".to_string()), TaskState::Running, 1);
    let list = handle_status_all(&mut mgr, &Vec::new(), 2);
    let ids: Vec<&str> = list.iter().map(|s| s.task_id.as_str()).collect();
    assert_eq!(ids, vec![queued.as_str(), running.as_str()]);
    assert!(!ids.contains(&completed.as_str()));
    assert_eq!(list[0].state, TaskState::Queued);
    assert_eq!(list[1].state, TaskState::Running);
}

#[test]
fn status_records_the_end_of_a_running_scan() {
    let mut mgr = TaskManager::new();
    let id = mgr.register_task_with_handle("/tmp".to_string(), 0, 1, None, None, TaskState::Running, true, 1);
    let progress = ScanProgress { scanned_files: 3, scanned_bytes: 30, total_bytes_estimate: None };
    let running = StatusSnapshot { done: false, progress, error: None };
    let snapshots = vec![(id.clone(), running)];
    match handle_status_one(&mut mgr, &id, &snapshots, 5) {
        RpcOutcome::Status(s) => {
            assert_eq!(s.state, TaskState::Running);
            assert_eq!(s.scanned_files, 3);
            assert_eq!(s.scanned_bytes, 30);
        }
        _ => panic!("expected a status"),
    }
    let finished = StatusSnapshot { done: true, progress, error: None };
    let snapshots = vec![(id.clone(), finished)];
    let list = handle_status_all(&mut mgr, &snapshots, 6);
    assert!(list.is_empty());
    assert_eq!(mgr.get_task_info(&id).unwrap().state, TaskState::Completed);
    match handle_status_one(&mut mgr, "nope", &Vec::new(), 7) {
        RpcOutcome::Error(e) => assert_eq!(e.code, TASK_NOT_FOUND),
        _ => panic!("expected task not found"),
    }
}

#[test]
fn get_results_checks_mode_task_and_state() {
    let mut mgr = TaskManager::new();
    let running = mgr.register_task("/tmp/r".to_string(), 0, 1, None, None, TaskState::Running, 1);
    let completed = mgr.register_task("/tmp/c".to_string(), 0, 1, None, None, TaskState::Completed, 1);
    let params = |id: &str, mode: Option<&str>| SurfGetResultsParams {
        task_id: id.to_string(),
        mode: mode.map(|m| m.to_string()),
        limit: None,
    };
    match handle_get_results(&mgr, &params(&completed, Some("unknown")), None) {
        RpcOutcome::Error(e) => assert!(e.data.unwrap().contains("unsupported mode")),
        _ => panic!("expected an error"),
    }
    match handle_get_results(&mgr, &params("non-existent", None), None) {
        RpcOutcome::Error(e) => assert_eq!(e.code, TASK_NOT_FOUND),
        _ => panic!("expected an error"),
    }
    match handle_get_results(&mgr, &params(&running, None), None) {
        RpcOutcome::Error(e) => {
            let d = e.data.unwrap();
            assert!(d.contains("task is not in completed state") && d.contains("running"));
        }
        _ => panic!("expected an error"),
    }
    match handle_get_results(&mgr, &params(&completed, Some("FLAT")), None) {
        RpcOutcome::Results(r) => {
            assert_eq!(r.path, "/tmp/c");
            assert_eq!(r.total_files, 0);
            assert_eq!(r.total_bytes, 0);
            assert!(r.entries.is_empty());
        }
        _ => panic!("expected results"),
    }
    let files = vec![
        surf::engine::FileEntry { path: "/tmp/c/x".to_string(), size: 5 },
        surf::engine::FileEntry { path: "/tmp/c/y".to_string(), size: 3 },
    ];
    let limited = SurfGetResultsParams { task_id: completed.clone(), mode: None, limit: Some(1) };
    match handle_get_results(&mgr, &limited, Some(&files)) {
        RpcOutcome::Results(r) => {
            assert_eq!(r.total_files, 2);
            assert_eq!(r.total_bytes, 8);
            assert_eq!(r.entries.len(), 1);
        }
        _ => panic!("expected results"),
    }
}
