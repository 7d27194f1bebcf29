//! The scan engine's values and decisions: which entries a walk keeps, in what order it
//! hands them out, how progress grows and how a finished or cancelled walk ends.
use vstd::prelude::*;

verus! {

/// A single file found by a scan.
#[derive(Debug, Clone)]
pub struct FileEntry {
    pub path: String,
    pub size: u64,
}

/// The parameters of one scan.
#[derive(Debug, Clone)]
pub struct ScanConfig {
    pub root: String,
    pub min_size: u64,
    pub threads: usize,
}

/// How far a running scan has come.
#[derive(Debug, Clone, Copy, PartialEq, Eq, Structural)]
pub struct ScanProgress {
    pub scanned_files: u64,
    pub scanned_bytes: u64,
    pub total_bytes_estimate: Option<u64>,
}

/// A snapshot of a scan handle: whether the walk has ended, its progress and its error.
#[derive(Debug, Clone)]
pub struct StatusSnapshot {
    pub done: bool,
    pub progress: ScanProgress,
    pub error: Option<String>,
}

/// Why a scan produced no list.
#[derive(Debug, Clone, PartialEq, Eq)]
pub enum ScanError {
    /// the root does not exist
    NotFound(String),
    /// the scan was cancelled before it finished
    Interrupted,
    /// the worker pool could not be built, or the walk ended without a result
    Other(String),
}

/// The sum of the sizes of `s`.
pub open spec fn sum_sizes(s: Seq<FileEntry>) -> nat
    decreases s.len(),
{
    if s.len() == 0 {
        0
    } else {
        sum_sizes(s.drop_last()) + s.last().size as nat
    }
}

/// The number of workers a scan asked for `threads` runs with: at least one.
pub open spec fn threads_used(threads: usize) -> usize {
    if threads == 0 { 1 } else { threads }
}

/// Worker threads for a scan asked to use `threads`.
pub fn effective_threads(threads: usize) -> (r: usize)
    ensures
        r == threads_used(threads),
{
    if threads == 0 { 1 } else { threads }
}

/// A scan asked for no threads runs with the same single worker as one asked for one.
pub proof fn threads_zero_runs_as_one()
    ensures
        threads_used(0) == threads_used(1),
{
}

/// Whether the walk keeps an entry: a regular file of at least `min_size` bytes.
pub fn keep_entry(is_file: bool, size: u64, min_size: u64) -> (r: bool)
    ensures
        r == (is_file && size >= min_size),
{
    is_file && size >= min_size
}

/// Sizes do not grow along `s`.
pub open spec fn size_descending(s: Seq<FileEntry>) -> bool {
    forall|a: int, b: int| 0 <= a < b < s.len() ==> s[a].size >= s[b].size
}

/// The order of the engine's list: larger files first.
pub fn larger_first(a: &FileEntry, b: &FileEntry) -> (r: std::cmp::Ordering)
    ensures
        (r == std::cmp::Ordering::Less) <==> a.size > b.size,
        (r == std::cmp::Ordering::Equal) <==> a.size == b.size,
        (r == std::cmp::Ordering::Greater) <==> a.size < b.size,
{
    if a.size > b.size {
        std::cmp::Ordering::Less
    } else if a.size == b.size {
        std::cmp::Ordering::Equal
    } else {
        std::cmp::Ordering::Greater
    }
}

/// Relies on `slice::sort_by`: a stable sort of the entries by `larger_first`, which
/// leaves them largest first.
#[verifier::external_body]
fn sort_by_size_desc(v: &mut Vec<FileEntry>)
    ensures
        final(v)@.to_multiset() == old(v)@.to_multiset(),
        final(v)@.len() == old(v)@.len(),
        size_descending(final(v)@),
{
    v.sort_by(|a, b| larger_first(a, b));
}

/// How a walk that gathered `entries` ends: interrupted when it was cancelled, else the
/// entries, largest first.
pub fn finish_walk(entries: Vec<FileEntry>, cancelled: bool) -> (r: Result<Vec<FileEntry>, ScanError>)
    ensures
        cancelled ==> r == Err::<Vec<FileEntry>, ScanError>(ScanError::Interrupted),
        !cancelled ==> r is Ok && r->Ok_0@.to_multiset() == entries@.to_multiset()
            && size_descending(r->Ok_0@),
{
    if cancelled {
        return Err(ScanError::Interrupted);
    }
    let mut entries = entries;
    sort_by_size_desc(&mut entries);
    Ok(entries)
}

/// What collecting a finished scan yields: its stored result, or, when it left none,
/// `Interrupted` if it was cancelled and `Other` otherwise.
pub fn collect_outcome(stored: Option<Result<Vec<FileEntry>, ScanError>>, cancelled: bool) -> (r: Result<Vec<FileEntry>, ScanError>)
    ensures
        stored is Some ==> r == stored->0,
        stored is None && cancelled ==> r == Err::<Vec<FileEntry>, ScanError>(ScanError::Interrupted),
        stored is None && !cancelled ==> r is Err && r->Err_0 is Other,
{
    match stored {
        Some(result) => result,
        None => {
            if cancelled {
                Err(ScanError::Interrupted)
            } else {
                Err(ScanError::Other("scan completed without result".to_string()))
            }
        },
    }
}

impl ScanProgress {
    /// Nothing scanned yet, total unknown.
    pub fn new() -> (r: ScanProgress)
        ensures
            r.scanned_files == 0 && r.scanned_bytes == 0 && r.total_bytes_estimate is None,
    {
        ScanProgress { scanned_files: 0, scanned_bytes: 0, total_bytes_estimate: None }
    }

    /// Counts one more kept file of `size` bytes; the counters never decrease (they stop at
    /// `u64::MAX`).
    pub fn record(&mut self, size: u64)
        ensures
            final(self).scanned_files == (if old(self).scanned_files < u64::MAX { old(self).scanned_files + 1 } else { u64::MAX as int }),
            final(self).scanned_bytes == (if old(self).scanned_bytes + size <= u64::MAX { old(self).scanned_bytes + size } else { u64::MAX as int }),
            final(self).scanned_files >= old(self).scanned_files,
            final(self).scanned_bytes >= old(self).scanned_bytes,
            final(self).total_bytes_estimate == old(self).total_bytes_estimate,
    {
        self.scanned_files = self.scanned_files.saturating_add(1);
        self.scanned_bytes = self.scanned_bytes.saturating_add(size);
    }
}

} // verus!
