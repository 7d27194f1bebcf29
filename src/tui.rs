//! The decisions of the terminal browser: how scan progress, results, key presses and
//! trash outcomes move its state. Drawing and the terminal itself live with the caller.
use vstd::prelude::*;
use crate::engine::{sum_sizes, FileEntry, StatusSnapshot};
use crate::paths::{parent, parent_of};
use crate::tasks::text_equal;
use crate::tree::{
    aggregated, build_tree, file_total, tree_sorted, files_are_leaves, find_in, find_node, recompute_aggregated_sizes,
    remove_child_of, removal_target, DirNode, NodeType,
};

verus! {

/// Why the browser ended.
#[derive(Debug, Clone, Copy, PartialEq, Eq, Structural)]
pub enum TuiExit {
    /// the user quit (q or Esc), during or after the scan
    Completed,
    /// the user pressed Ctrl+C
    Interrupted,
}

/// What the browser shows.
#[derive(Debug, Clone, Copy, PartialEq, Eq, Structural)]
pub enum TuiMode {
    Scanning,
    Browsing,
    /// asking whether the selected entry goes to the trash
    ConfirmDelete,
    Error,
}

/// A key press, as far as the browser tells keys apart.
#[derive(Debug, Clone, Copy, PartialEq, Eq, Structural)]
pub enum Key {
    Char(char),
    Enter,
    Esc,
    Up,
    Down,
    Left,
    Right,
    Backspace,
    CtrlC,
    Other,
}

/// What the caller does after a key press.
#[derive(Debug)]
pub enum TuiAction {
    Continue,
    /// leave the browser; stop the scan first when `cancel_scan`
    Exit { reason: TuiExit, cancel_scan: bool },
    /// move the entry at this path to the trash, then report with `on_trash_result`
    Trash(String),
}

/// The browser's state.
#[derive(Debug)]
pub struct TuiState {
    pub mode: TuiMode,
    pub selected_index: usize,
    /// the directory whose children are listed
    pub current_dir: String,
    pub root_path: String,
    pub tree: Option<DirNode>,
    pub done: bool,
    pub error: Option<String>,
    pub scanned_files: u64,
    pub scanned_bytes: u64,
}

/// The number of entries listed for directory `dir` of `tree`.
pub open spec fn listed_count(tree: Option<DirNode>, dir: Seq<char>) -> nat {
    match tree {
        Some(t) => match find_in(t, dir) {
            Some(d) => d.children@.len(),
            None => 0,
        },
        None => 0,
    }
}

/// The entry listed at `i` in directory `dir`.
pub open spec fn listed_entry(tree: Option<DirNode>, dir: Seq<char>, i: int) -> DirNode {
    find_in(tree->0, dir)->0.children@[i]
}

pub open spec fn is_quit(k: Key) -> bool {
    k == Key::Char('q') || k == Key::Esc
}

pub open spec fn is_up(k: Key) -> bool {
    k == Key::Up || k == Key::Char('k')
}

pub open spec fn is_down(k: Key) -> bool {
    k == Key::Down || k == Key::Char('j')
}

pub open spec fn is_open(k: Key) -> bool {
    k == Key::Enter || k == Key::Right || k == Key::Char('l')
}

pub open spec fn is_back(k: Key) -> bool {
    k == Key::Backspace || k == Key::Left || k == Key::Char('h')
}

/// The selection after moving up in a list of `total` entries (wrapping to the end).
pub open spec fn moved_up(sel: usize, total: nat) -> usize {
    if total == 0 { sel } else if sel == 0 { (total - 1) as usize } else { (sel - 1) as usize }
}

/// The selection after moving down in a list of `total` entries (wrapping to the start).
pub open spec fn moved_down(sel: usize, total: nat) -> usize {
    if total == 0 { sel } else if sel + 1 >= total { 0 } else { (sel + 1) as usize }
}

impl TuiState {
    /// A browser for `root_path`, waiting for the scan.
    pub fn new(root_path: &str) -> (r: TuiState)
        ensures
            r.mode == TuiMode::Scanning,
            r.selected_index == 0,
            r.current_dir@ == root_path@,
            r.root_path@ == root_path@,
            r.tree is None,
            !r.done,
            r.error is None,
    {
        TuiState {
            mode: TuiMode::Scanning,
            selected_index: 0,
            current_dir: root_path.to_string(),
            root_path: root_path.to_string(),
            tree: None,
            done: false,
            error: None,
            scanned_files: 0,
            scanned_bytes: 0,
        }
    }

    /// The number of entries listed in the current directory.
    pub fn child_count(&self) -> (r: usize)
        ensures
            r == listed_count(self.tree, self.current_dir@),
    {
        match &self.tree {
            Some(t) => match find_node(t, self.current_dir.as_str()) {
                Some(d) => d.children.len(),
                None => 0,
            },
            None => 0,
        }
    }

    /// Takes in a progress snapshot of the scan. Returns true when the scan has just ended
    /// without error while the browser was waiting: the caller then collects the results
    /// and hands them to `on_results`. An ended scan with an error shows the error.
    pub fn on_status(&mut self, snapshot: &StatusSnapshot) -> (collect: bool)
        ensures
            final(self).scanned_files == snapshot.progress.scanned_files,
            final(self).scanned_bytes == snapshot.progress.scanned_bytes,
            final(self).done == snapshot.done,
            collect == (snapshot.done && snapshot.error is None && old(self).mode == TuiMode::Scanning),
            snapshot.done && snapshot.error is Some ==> final(self).mode == TuiMode::Error,
            !(snapshot.done && snapshot.error is Some) ==> final(self).mode == old(self).mode,
            final(self).selected_index == old(self).selected_index,
            final(self).current_dir == old(self).current_dir,
            final(self).root_path == old(self).root_path,
            final(self).tree == old(self).tree,
    {
        self.scanned_files = snapshot.progress.scanned_files;
        self.scanned_bytes = snapshot.progress.scanned_bytes;
        self.done = snapshot.done;
        let failed = match &snapshot.error {
            Some(e) => {
                self.error = Some(e.clone());
                true
            },
            None => false,
        };
        if snapshot.done && failed {
            self.mode = TuiMode::Error;
            return false;
        }
        snapshot.done && self.mode == TuiMode::Scanning
    }

    /// Takes in the collected results: their tree is browsed from the root, or the error
    /// is shown.
    pub fn on_results(&mut self, results: Result<Vec<FileEntry>, String>)
        ensures
            results is Ok ==> final(self).mode == TuiMode::Browsing && final(self).tree is Some
                && final(self).tree->0.full_path@ == old(self).root_path@ && final(self).selected_index == 0
                && final(self).current_dir == old(self).current_dir,
            results is Ok ==> final(self).tree->0.node_type == NodeType::Directory && tree_sorted(final(self).tree->0),
            results is Ok ==> crate::tree::dirs_unique(final(self).tree->0) && crate::tree::from_entries(final(self).tree->0,
                crate::tree::entry_dirs(old(self).root_path@, results->Ok_0@), crate::tree::entry_files(results->Ok_0@)),
            results is Ok && sum_sizes(results->Ok_0@) <= u64::MAX ==> aggregated(final(self).tree->0)
                && file_total(final(self).tree->0) == sum_sizes(results->Ok_0@),
            results is Ok ==> forall|i: int| 0 <= i < results->Ok_0@.len() ==> crate::tree::holds_file(final(self).tree->0,
                crate::tree::ancestors(old(self).root_path@, (#[trigger] results->Ok_0@[i]).path@),
                results->Ok_0@[i].path@, results->Ok_0@[i].size),
            results is Err ==> final(self).mode == TuiMode::Error && final(self).error == Some(results->Err_0)
                && final(self).tree == old(self).tree,
            final(self).root_path == old(self).root_path,
    {
        match results {
            Ok(entries) => {
                let tree = build_tree(self.root_path.as_str(), entries);
                self.tree = Some(tree);
                self.selected_index = 0;
                self.mode = TuiMode::Browsing;
            },
            Err(e) => {
                self.error = Some(e);
                self.mode = TuiMode::Error;
            },
        }
    }

    /// Applies a key press.
    pub fn on_key(&mut self, key: Key) -> (r: TuiAction)
        ensures
            final(self).root_path == old(self).root_path,
            final(self).tree == old(self).tree,
            key == Key::CtrlC ==> (r matches TuiAction::Exit { reason, cancel_scan }
                && reason == TuiExit::Interrupted && cancel_scan == !old(self).done),
            (key == Key::Char('q') || (key == Key::Esc && old(self).mode != TuiMode::ConfirmDelete))
                ==> (r matches TuiAction::Exit { reason, cancel_scan } && reason == TuiExit::Completed
                && cancel_scan == !old(self).done),
            old(self).mode == TuiMode::ConfirmDelete && (key == Key::Char('n') || key == Key::Esc)
                ==> r is Continue && final(self).mode == TuiMode::Browsing,
            old(self).mode == TuiMode::ConfirmDelete && (key == Key::Char('y') || key == Key::Enter) ==> {
                let total = listed_count(old(self).tree, old(self).current_dir@);
                if old(self).selected_index < total {
                    r is Trash && r->Trash_0@ == listed_entry(old(self).tree, old(self).current_dir@,
                        old(self).selected_index as int).full_path@ && final(self).mode == TuiMode::ConfirmDelete
                } else {
                    r is Continue && final(self).mode == TuiMode::Browsing
                }
            },
            old(self).mode == TuiMode::Browsing && is_up(key) ==> r is Continue && final(self).selected_index
                == moved_up(old(self).selected_index, listed_count(old(self).tree, old(self).current_dir@)),
            old(self).mode == TuiMode::Browsing && is_down(key) ==> r is Continue && final(self).selected_index
                == moved_down(old(self).selected_index, listed_count(old(self).tree, old(self).current_dir@)),
            old(self).mode == TuiMode::Browsing && key == Key::Char('d') ==> r is Continue && final(self).mode == (
                if old(self).selected_index < listed_count(old(self).tree, old(self).current_dir@) {
                    TuiMode::ConfirmDelete
                } else {
                    TuiMode::Browsing
                }),
            old(self).mode == TuiMode::Browsing && is_open(key) ==> r is Continue && ({
                let total = listed_count(old(self).tree, old(self).current_dir@);
                let i = old(self).selected_index as int;
                if i < total && listed_entry(old(self).tree, old(self).current_dir@, i).node_type == NodeType::Directory {
                    final(self).current_dir@ == listed_entry(old(self).tree, old(self).current_dir@, i).full_path@
                        && final(self).selected_index == 0
                } else {
                    final(self).current_dir == old(self).current_dir && final(self).selected_index == old(self).selected_index
                }
            }),
            old(self).mode == TuiMode::Browsing && is_back(key) ==> r is Continue && (
                if old(self).current_dir@ != old(self).root_path@ && parent(old(self).current_dir@) is Some {
                    final(self).current_dir@ == parent(old(self).current_dir@)->0 && final(self).selected_index == 0
                } else {
                    final(self).current_dir == old(self).current_dir && final(self).selected_index == old(self).selected_index
                }),
    {
        if key == Key::CtrlC {
            return TuiAction::Exit { reason: TuiExit::Interrupted, cancel_scan: !self.done };
        }
        if key == Key::Char('q') || (key == Key::Esc && self.mode != TuiMode::ConfirmDelete) {
            return TuiAction::Exit { reason: TuiExit::Completed, cancel_scan: !self.done };
        }
        let total = self.child_count();
        if self.mode == TuiMode::ConfirmDelete {
            if key == Key::Char('n') || key == Key::Esc {
                self.mode = TuiMode::Browsing;
                return TuiAction::Continue;
            }
            if key == Key::Char('y') || key == Key::Enter {
                if self.selected_index < total {
                    let path = match &self.tree {
                        Some(t) => match find_node(t, self.current_dir.as_str()) {
                            Some(d) => d.children[self.selected_index].full_path.clone(),
                            None => String::new(),
                        },
                        None => String::new(),
                    };
                    return TuiAction::Trash(path);
                }
                self.mode = TuiMode::Browsing;
            }
            return TuiAction::Continue;
        }
        if self.mode != TuiMode::Browsing {
            return TuiAction::Continue;
        }
        if key == Key::Up || key == Key::Char('k') {
            if total > 0 {
                self.selected_index = if self.selected_index == 0 { total - 1 } else { self.selected_index - 1 };
            }
        } else if key == Key::Down || key == Key::Char('j') {
            if total > 0 {
                self.selected_index = if self.selected_index >= total - 1 { 0 } else { self.selected_index + 1 };
            }
        } else if key == Key::Char('d') {
            if self.selected_index < total {
                self.mode = TuiMode::ConfirmDelete;
            }
        } else if key == Key::Enter || key == Key::Right || key == Key::Char('l') {
            if self.selected_index < total {
                let next: Option<String> = match &self.tree {
                    Some(t) => match find_node(t, self.current_dir.as_str()) {
                        Some(d) => {
                            let node = &d.children[self.selected_index];
                            if node.node_type == NodeType::Directory { Some(node.full_path.clone()) } else { None }
                        },
                        None => None,
                    },
                    None => None,
                };
                if let Some(p) = next {
                    self.current_dir = p;
                    self.selected_index = 0;
                }
            }
        } else if key == Key::Backspace || key == Key::Left || key == Key::Char('h') {
            if !text_equal(&self.current_dir, self.root_path.as_str()) {
                if let Some(p) = parent_of(self.current_dir.as_str()) {
                    self.current_dir = p;
                    self.selected_index = 0;
                }
            }
        }
        TuiAction::Continue
    }

    /// Takes in the outcome of moving the selected entry to the trash. On success the entry
    /// leaves the tree, every directory size is recomputed and the selection stays in
    /// range; on failure the error is shown.
    pub fn on_trash_result(&mut self, outcome: Result<(), String>)
        ensures
            final(self).root_path == old(self).root_path,
            final(self).current_dir == old(self).current_dir,
            outcome is Err ==> final(self).mode == TuiMode::Error && final(self).error is Some,
            outcome is Ok ==> final(self).mode == TuiMode::Browsing,
            outcome is Ok && old(self).tree is Some && removal_target(old(self).tree->0, old(self).current_dir@,
                old(self).selected_index as int) is Some ==> {
                let before = old(self).tree->0;
                let removed = removal_target(before, old(self).current_dir@, old(self).selected_index as int)->0
                    .children@[old(self).selected_index as int];
                &&& final(self).tree is Some
                &&& file_total(final(self).tree->0) + file_total(removed) == file_total(before)
                &&& (files_are_leaves(before) && file_total(before) <= u64::MAX ==> crate::tree::aggregated(final(self).tree->0))
            },
            outcome is Ok ==> final(self).selected_index < listed_count(final(self).tree, final(self).current_dir@)
                || final(self).selected_index == 0,
    {
        match outcome {
            Err(e) => {
                self.error = Some(crate::text::concat_str("Failed to move to trash: ", e.as_str()));
                self.mode = TuiMode::Error;
            },
            Ok(()) => {
                let mut taken: Option<DirNode> = None;
                std::mem::swap(&mut taken, &mut self.tree);
                if let Some(mut tree) = taken {
                    let removed = remove_child_of(&mut tree, self.current_dir.as_str(), self.selected_index);
                    if removed.is_some() {
                        recompute_aggregated_sizes(&mut tree);
                    }
                    self.tree = Some(tree);
                }
                let remaining = self.child_count();
                if remaining == 0 {
                    self.selected_index = 0;
                } else if self.selected_index >= remaining {
                    self.selected_index = remaining - 1;
                }
                self.mode = TuiMode::Browsing;
            },
        }
    }
}

} // verus!
