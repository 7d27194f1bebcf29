use surf::engine::{FileEntry, ScanProgress, StatusSnapshot};
use surf::tui::{Key, TuiAction, TuiExit, TuiMode, TuiState};

fn scanned(state: &mut TuiState) {
    let snap = StatusSnapshot { done: true, progress: ScanProgress::new(), error: None };
    assert!(state.on_status(&snap));
    state.on_results(Ok(vec![
        FileEntry { path: "/root/a.bin".to_string(), size: 10 },
        FileEntry { path: "/root/sub1/b.bin".to_string(), size: 20 },
        FileEntry { path: "/root/sub1/deep/c.bin".to_string(), size: 30 },
    ]));
}

#[test]
fn browser_navigates_and_wraps() {
    let mut state = TuiState::new("/root");
    scanned(&mut state);
    assert_eq!(state.mode, TuiMode::Browsing);
    assert_eq!(state.child_count(), 2);
    assert!(matches!(state.on_key(Key::Up), TuiAction::Continue));
    assert_eq!(state.selected_index, 1);
    state.on_key(Key::Char('j'));
    assert_eq!(state.selected_index, 0);
    state.on_key(Key::Enter);
    assert_eq!(state.current_dir, "/root/sub1");
    assert_eq!(state.child_count(), 2);
    state.on_key(Key::Backspace);
    assert_eq!(state.current_dir, "/root");
    state.on_key(Key::Left);
    assert_eq!(state.current_dir, "/root");
}

#[test]
fn browser_deletes_through_the_trash_and_reaggregates() {
    let mut state = TuiState::new("/root");
    scanned(&mut state);
    state.on_key(Key::Enter);
    state.on_key(Key::Down);
    state.on_key(Key::Char('d'));
    assert_eq!(state.mode, TuiMode::ConfirmDelete);
    match state.on_key(Key::Char('y')) {
        TuiAction::Trash(path) => assert_eq!(path, "/root/sub1/b.bin"),
        _ => panic!("expected a trash request"),
    }
    state.on_trash_result(Ok(()));
    assert_eq!(state.mode, TuiMode::Browsing);
    assert_eq!(state.selected_index, 0);
    let tree = state.tree.as_ref().unwrap();
    assert_eq!(tree.size, 40);
    assert_eq!(tree.children[0].size, 30);
}

#[test]
fn browser_exits_and_reports_trash_failures() {
    let mut state = TuiState::new("/root");
    match state.on_key(Key::CtrlC) {
        TuiAction::Exit { reason, cancel_scan } => {
            assert_eq!(reason, TuiExit::Interrupted);
            assert!(cancel_scan);
        }
        _ => panic!("expected exit"),
    }
    scanned(&mut state);
    match state.on_key(Key::Char('q')) {
        TuiAction::Exit { reason, cancel_scan } => {
            assert_eq!(reason, TuiExit::Completed);
            assert!(!cancel_scan);
        }
        _ => panic!("expected exit"),
    }
    state.on_key(Key::Char('d'));
    state.on_key(Key::Esc);
    assert_eq!(state.mode, TuiMode::Browsing);
    state.on_key(Key::Char('d'));
    state.on_trash_result(Err("denied".to_string()));
    assert_eq!(state.mode, TuiMode::Error);
    assert_eq!(state.error.as_deref(), Some("Failed to move to trash: denied"));
}

#[test]
fn scan_error_switches_to_the_error_view() {
    let mut state = TuiState::new("/root");
    let snap = StatusSnapshot { done: true, progress: ScanProgress::new(), error: Some("boom".to_string()) };
    assert!(!state.on_status(&snap));
    assert_eq!(state.mode, TuiMode::Error);
}
