use surf::engine::{collect_outcome, effective_threads, finish_walk, keep_entry, FileEntry, ScanError, ScanProgress};
use surf::scan::{classify_entry, extension_of, is_excluded, is_stale, EntryAction, ScanCollector, ScanRequest};

#[test]
fn test_scan_request_new() {
    let req = ScanRequest::new("/tmp");
    assert_eq!(req.root_path, "/tmp");
    assert!(req.threads.is_none());
    assert!(req.min_size.is_none());
    assert!(req.exclude_patterns.is_empty());
    assert!(req.stale_days.is_none());
}

/// Runs the walk's decisions over a flat listing of files (path, size).
fn collect(request: &ScanRequest, files: &[(&str, u64)]) -> surf::scan::ScanResult {
    let mut collector = ScanCollector::new(request.limit.unwrap_or(20));
    collector.add_dir();
    for (path, size) in files {
        if classify_entry(path, false, *size, request) == EntryAction::Admit {
            assert!(collector.record_file(path.to_string(), *size, None, 0, request.stale_days));
        }
    }
    collector.to_result(request.root_path.clone())
}

#[test]
fn min_size_filtering_keeps_only_large_enough_files() {
    let mut request = ScanRequest::new("/root");
    request.min_size = Some(10);
    request.limit = Some(1);
    let result = collect(&request, &[("/root/small.txt", 5), ("/root/medium.txt", 20), ("/root/large.txt", 30)]);
    assert!(result.top_files.len() <= 1);
    assert!(result.top_files.iter().all(|e| e.size_bytes >= 10));
    assert!(result.top_files.iter().all(|e| e.path != "/root/small.txt"));
    assert_eq!(result.top_files[0].path, "/root/large.txt");
    assert_eq!(result.summary.total_files, 2);
}

#[test]
fn exclusion_by_glob_drops_matching_files() {
    let mut request = ScanRequest::new("/root");
    request.exclude_patterns = vec!["**/*.log".to_string(), "*.log".to_string()];
    let result = collect(&request, &[("/root/data.bin", 1024), ("/root/skip.log", 11)]);
    assert_eq!(result.summary.total_files, 1);
    assert_eq!(result.top_files.len(), 1);
    assert_eq!(result.top_files[0].path, "/root/data.bin");
    assert!(result.by_extension.iter().all(|s| s.extension != "log"));
}

#[test]
fn excluded_directory_is_not_walked() {
    let patterns = vec!["**/sub/**".to_string(), "sub/**".to_string(), "sub".to_string()];
    let mut request = ScanRequest::new("/root");
    request.exclude_patterns = patterns.clone();
    assert!(is_excluded("/root/sub/a.txt", &patterns));
    assert_eq!(classify_entry("/root/other", true, 0, &request), EntryAction::Descend);
    assert_eq!(classify_entry("/root/b.txt", false, 5, &request), EntryAction::Admit);
    assert!(!is_excluded("/root/b.txt", &patterns));
}

#[test]
fn top_n_ties_are_ordered_by_path_descending() {
    let request = ScanRequest::new("/root");
    let result = collect(&request, &[("/root/a.txt", 9), ("/root/b.txt", 9), ("/root/c.txt", 9)]);
    let names: Vec<&str> = result.top_files.iter().map(|e| e.path.as_str()).collect();
    assert_eq!(names, vec!["/root/c.txt", "/root/b.txt", "/root/a.txt"]);
}

#[test]
fn top_n_keeps_the_largest_and_skips_empty_files() {
    let mut request = ScanRequest::new("/root");
    request.limit = Some(5);
    let sizes = [100u64, 500, 300, 800, 200, 700, 400, 600, 900, 50, 0];
    let files: Vec<(String, u64)> = sizes.iter().enumerate().map(|(i, s)| (format!("/root/file{}.txt", i), *s)).collect();
    let refs: Vec<(&str, u64)> = files.iter().map(|(p, s)| (p.as_str(), *s)).collect();
    let result = collect(&request, &refs);
    let top: Vec<u64> = result.top_files.iter().map(|e| e.size_bytes).collect();
    assert_eq!(top, vec![900, 800, 700, 600, 500]);
    assert_eq!(result.summary.total_files, 11);
}

#[test]
fn full_top_list_does_not_evict_on_ties() {
    let mut collector = ScanCollector::new(1);
    assert!(collector.record_file("/r/a".to_string(), 7, None, 0, None));
    assert!(collector.record_file("/r/b".to_string(), 7, None, 0, None));
    let top = collector.top_files_to_vec();
    assert_eq!(top.len(), 1);
    assert_eq!(top[0].path, "/r/a");
    assert!(collector.record_file("/r/c".to_string(), 8, None, 0, None));
    assert_eq!(collector.top_files_to_vec()[0].path, "/r/c");
}

#[test]
fn totals_equal_the_sums_over_extensions() {
    let request = ScanRequest::new("/root");
    let result = collect(
        &request,
        &[("/root/a.txt", 3), ("/root/b.TXT", 4), ("/root/c.log", 5), ("/root/d", 6), ("/root/e.Log", 7), ("/root/f.mp4", 8)],
    );
    let count: u64 = result.by_extension.iter().map(|s| s.file_count).sum();
    let size: u64 = result.by_extension.iter().map(|s| s.total_size_bytes).sum();
    assert_eq!(result.summary.total_files, count);
    assert_eq!(result.summary.total_size_bytes, size);
    assert_eq!(result.by_extension.len(), 4);
    assert_eq!(result.by_extension[0].extension, "log");
    assert_eq!(result.by_extension[0].total_size_bytes, 12);
    let none = result.by_extension.iter().find(|s| s.extension == "no_extension").expect("no_extension");
    assert_eq!(none.file_count, 1);
    let txt = result.by_extension.iter().find(|s| s.extension == "txt").expect("txt");
    assert_eq!(txt.file_count, 2);
}

#[test]
fn extensions_follow_path_rules() {
    assert_eq!(extension_of("/a/b.TXT").as_deref(), Some("txt"));
    assert_eq!(extension_of("/a/.bashrc"), None);
    assert_eq!(extension_of("/a/noext"), None);
    assert_eq!(extension_of("/a/arch.tar.GZ").as_deref(), Some("gz"));
    assert_eq!(extension_of("/a/dot.").as_deref(), Some(""));
}

#[test]
fn stale_files_are_those_old_enough() {
    let day = 86400u64;
    assert!(is_stale(10 * day + 1, Some(0), Some(10)));
    assert!(!is_stale(10 * day, Some(0), Some(10)));
    assert!(!is_stale(10 * day, None, Some(1)));
    assert!(!is_stale(10 * day, Some(0), None));
    assert!(!is_stale(5, Some(10), Some(0)));
    let mut collector = ScanCollector::new(20);
    assert!(collector.record_file("/r/old".to_string(), 1, Some(0), 3 * day, Some(2)));
    assert!(collector.record_file("/r/new".to_string(), 1, Some(3 * day), 3 * day, Some(2)));
    let stale = collector.stale_files_to_vec();
    assert_eq!(stale.len(), 1);
    assert_eq!(stale[0].path, "/r/old");
}

#[test]
fn zero_threads_run_as_one() {
    assert_eq!(effective_threads(0), 1);
    assert_eq!(effective_threads(0), effective_threads(1));
    assert_eq!(effective_threads(6), 6);
}

#[test]
fn walk_keeps_regular_files_of_the_minimum_size() {
    assert!(keep_entry(true, 10, 10));
    assert!(!keep_entry(true, 9, 10));
    assert!(!keep_entry(false, 100, 0));
}

#[test]
fn finished_walk_is_sorted_or_interrupted() {
    let entries = vec![
        FileEntry { path: "/r/a".to_string(), size: 3 },
        FileEntry { path: "/r/b".to_string(), size: 9 },
        FileEntry { path: "/r/c".to_string(), size: 5 },
    ];
    let sorted = finish_walk(entries, false).expect("sorted");
    let sizes: Vec<u64> = sorted.iter().map(|e| e.size).collect();
    assert_eq!(sizes, vec![9, 5, 3]);
    assert_eq!(finish_walk(Vec::new(), true).unwrap_err(), ScanError::Interrupted);
    assert_eq!(collect_outcome(None, true).unwrap_err(), ScanError::Interrupted);
    assert!(matches!(collect_outcome(None, false), Err(ScanError::Other(_))));
    assert_eq!(collect_outcome(Some(Ok(Vec::new())), true).unwrap().len(), 0);
}

#[test]
fn progress_only_grows() {
    let mut p = ScanProgress::new();
    p.record(10);
    p.record(5);
    assert_eq!(p.scanned_files, 2);
    assert_eq!(p.scanned_bytes, 15);
    p.scanned_bytes = u64::MAX - 1;
    p.record(10);
    assert_eq!(p.scanned_bytes, u64::MAX);
}
