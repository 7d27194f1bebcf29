//! What a directory walk keeps and how it is summed up: request, entries, the bounded
//! top-N list, per-extension statistics and stale files.
use vstd::prelude::*;
use vstd::multiset::Multiset;
use crate::paths::{file_name, file_name_of};
use crate::text::{chars_of, string_of};

verus! {

/// Seconds in a day.
pub const SECS_PER_DAY: u64 = 86400;

/// Top-N size used when a request names none.
pub const DEFAULT_LIMIT: usize = 20;

/// What `glob::Pattern` compiled from `pattern` says of `path`; false when the pattern
/// does not compile.
pub uninterp spec fn glob_match(pattern: Seq<char>, path: Seq<char>) -> bool;

/// Relies on `glob::Pattern::new` and `glob::Pattern::matches_path`: whether the path
/// matches the pattern; an invalid pattern matches nothing.
#[verifier::external_body]
fn glob_matches(pattern: &str, path: &str) -> (r: bool)
    ensures
        r == glob_match(pattern@, path@),
{
    match glob::Pattern::new(pattern) {
        Ok(p) => p.matches_path(std::path::Path::new(path)),
        Err(_) => false,
    }
}

/// What `str::to_lowercase` makes of `s`.
pub uninterp spec fn lower_of(s: Seq<char>) -> Seq<char>;

/// Relies on `str::to_lowercase`: the lower-case form of `s`, a function of its characters.
#[verifier::external_body]
fn lowercase(s: &str) -> (r: String)
    ensures
        r@ == lower_of(s@),
{
    s.to_lowercase()
}

/// The lower-case form of `s`.
pub fn lowercase_text(s: &str) -> (r: String)
    ensures
        r@ == lower_of(s@),
{
    lowercase(s)
}

/// Parameters of a scan.
#[derive(Debug, Clone)]
pub struct ScanRequest {
    pub root_path: String,
    /// worker threads; the machine's default when absent
    pub threads: Option<u16>,
    /// files smaller than this are left out
    pub min_size: Option<u64>,
    /// glob patterns of paths to leave out
    pub exclude_patterns: Vec<String>,
    /// files not modified for this many days are listed as stale
    pub stale_days: Option<u32>,
    /// length of the top-N list (20 when absent)
    pub limit: Option<usize>,
}

impl ScanRequest {
    /// A request for `root_path` with every option at its default.
    pub fn new(root_path: &str) -> (r: ScanRequest)
        ensures
            r.root_path@ == root_path@,
            r.threads is None,
            r.min_size is None,
            r.exclude_patterns@.len() == 0,
            r.stale_days is None,
            r.limit is None,
    {
        ScanRequest {
            root_path: root_path.to_string(),
            threads: None,
            min_size: None,
            exclude_patterns: Vec::new(),
            stale_days: None,
            limit: None,
        }
    }
}

/// The statistics scanner; its walk runs where the file system is.
#[derive(Debug, Clone, Copy)]
pub struct Scanner;

impl Scanner {
    pub fn new() -> (r: Scanner) {
        Scanner
    }

    /// The collector a scan of `request` fills: its top-N list holds `limit` files, 20
    /// when the request names none.
    pub fn collector_for(&self, request: &ScanRequest) -> (r: ScanCollector)
        ensures
            r.wf(),
            r.limit == (match request.limit { Some(l) => l, None => DEFAULT_LIMIT }),
            r.total_files == 0 && r.total_dirs == 0 && r.total_size_bytes == 0,
            r.top_files@.len() == 0 && r.by_extension@.len() == 0 && r.stale_files@.len() == 0,
    {
        let limit = match request.limit {
            Some(l) => l,
            None => DEFAULT_LIMIT,
        };
        ScanCollector::new(limit)
    }
}

/// A file kept by a scan.
#[derive(Debug, Clone)]
pub struct FileEntry {
    pub path: String,
    pub size_bytes: u64,
    /// last modification, in seconds since the Unix epoch
    pub last_modified: Option<u64>,
    /// lower-cased extension, without the dot
    pub extension: Option<String>,
}

/// Count and total size of the files of one extension.
#[derive(Debug, Clone)]
pub struct ExtensionStat {
    pub extension: String,
    pub file_count: u64,
    pub total_size_bytes: u64,
}

/// Totals of a scan.
#[derive(Debug, Clone)]
pub struct ScanSummary {
    pub root_path: String,
    pub total_files: u64,
    pub total_dirs: u64,
    pub total_size_bytes: u64,
}

/// Everything a scan reports.
#[derive(Debug, Clone)]
pub struct ScanResult {
    pub summary: ScanSummary,
    /// the largest files, largest first, ties by path descending
    pub top_files: Vec<FileEntry>,
    /// per extension, largest total first, ties by count descending
    pub by_extension: Vec<ExtensionStat>,
    pub stale_files: Vec<FileEntry>,
}

/// What a walk does with a directory entry.
#[derive(Debug, Clone, Copy, PartialEq, Eq, Structural)]
pub enum EntryAction {
    /// walk into the directory
    Descend,
    /// leave the entry (and a directory's whole subtree) out
    Skip,
    /// count the file
    Admit,
}

/// Whether `path` matches one of `patterns`.
pub open spec fn excluded(path: Seq<char>, patterns: Seq<String>) -> bool {
    exists|i: int| 0 <= i < patterns.len() && glob_match(#[trigger] patterns[i]@, path)
}

/// Whether `path` matches one of `patterns`.
pub fn is_excluded(path: &str, patterns: &Vec<String>) -> (r: bool)
    ensures
        r == excluded(path@, patterns@),
{
    let mut i: usize = 0;
    while i < patterns.len()
        invariant
            i <= patterns@.len(),
            forall|j: int| 0 <= j < i ==> !glob_match(#[trigger] patterns@[j]@, path@),
        decreases patterns@.len() - i,
    {
        if glob_matches(patterns[i].as_str(), path) {
            return true;
        }
        i = i + 1;
    }
    false
}

/// The walk's decision for an entry: an excluded entry is skipped (a directory with its
/// subtree), another directory is walked into, and a file is admitted unless it is
/// smaller than the request's minimum size.
pub open spec fn entry_action(excl: bool, is_dir: bool, size: u64, min_size: Option<u64>) -> EntryAction {
    if excl {
        EntryAction::Skip
    } else if is_dir {
        EntryAction::Descend
    } else if min_size is Some && size < min_size->0 {
        EntryAction::Skip
    } else {
        EntryAction::Admit
    }
}

/// Decides what the walk does with the entry at `path`.
pub fn classify_entry(path: &str, is_dir: bool, size: u64, request: &ScanRequest) -> (r: EntryAction)
    ensures
        r == entry_action(excluded(path@, request.exclude_patterns@), is_dir, size, request.min_size),
{
    let excl = is_excluded(path, &request.exclude_patterns);
    if excl {
        EntryAction::Skip
    } else if is_dir {
        EntryAction::Descend
    } else {
        match request.min_size {
            Some(m) => if size < m { EntryAction::Skip } else { EntryAction::Admit },
            None => EntryAction::Admit,
        }
    }
}

/// A file is stale at `now` when its last modification precedes `now - days * 86400`.
pub open spec fn stale(now: u64, modified: Option<u64>, days: Option<u32>) -> bool {
    days is Some && modified is Some && (modified->0 as nat) + (days->0 as nat) * (SECS_PER_DAY as nat) < now as nat
}

pub fn is_stale(now: u64, modified: Option<u64>, days: Option<u32>) -> (r: bool)
    ensures
        r == stale(now, modified, days),
{
    match (days, modified) {
        (Some(d), Some(m)) => (m as u128) + (d as u128) * (SECS_PER_DAY as u128) < now as u128,
        _ => false,
    }
}

/// Index of the last `.` of `s`, or -1.
pub open spec fn last_dot(s: Seq<char>) -> int
    decreases s.len(),
{
    if s.len() == 0 {
        -1
    } else if s.last() == '.' {
        s.len() - 1
    } else {
        last_dot(s.drop_last())
    }
}

/// The extension of a file name as `Path::extension` reads it: the text after the last
/// dot, none when there is no dot, when the only dot starts the name, or for `..`.
pub open spec fn extension_text(name: Seq<char>) -> Option<Seq<char>> {
    if name == seq!['.', '.'] || last_dot(name) <= 0 {
        None
    } else {
        Some(name.skip(last_dot(name) + 1))
    }
}

/// The lower-cased extension of the file at `path`.
pub fn extension_of(path: &str) -> (r: Option<String>)
    ensures
        match extension_text(file_name(path@)) {
            Some(e) => r is Some && r->0@ == lower_of(e),
            None => r is None,
        },
{
    let name = file_name_of(path);
    let v = chars_of(name.as_str());
    if v.len() == 2 && v[0] == '.' && v[1] == '.' {
        assert(v@ =~= seq!['.', '.']);
        return None;
    }
    let mut i: usize = v.len();
    while i > 0 && v[i - 1] != '.'
        invariant
            i <= v@.len(),
            forall|j: int| i <= j < v@.len() ==> #[trigger] v@[j] != '.',
        decreases i,
    {
        i = i - 1;
    }
    proof {
        lemma_last_dot(v@, i - 1);
    }
    if i <= 1 {
        return None;
    }
    let mut ext: Vec<char> = Vec::new();
    let mut j: usize = i;
    while j < v.len()
        invariant
            i <= j <= v@.len(),
            ext@ == v@.subrange(i as int, j as int),
        decreases v@.len() - j,
    {
        ext.push(v[j]);
        assert(v@.subrange(i as int, j + 1) =~= v@.subrange(i as int, j as int).push(v@[j as int]));
        j = j + 1;
    }
    assert(ext@ =~= v@.skip(i as int));
    let e = string_of(&ext);
    Some(lowercase(e.as_str()))
}

proof fn lemma_last_dot(s: Seq<char>, k: int)
    requires
        -1 <= k < s.len(),
        k >= 0 ==> s[k] == '.',
        forall|i: int| k < i < s.len() ==> #[trigger] s[i] != '.',
    ensures
        last_dot(s) == k,
    decreases s.len(),
{
    if s.len() > 0 && s.len() - 1 != k {
        let t = s.drop_last();
        assert forall|i: int| k < i < t.len() implies #[trigger] t[i] != '.' by {
            assert(t[i] == s[i]);
        }
        if k >= 0 {
            assert(t[k] == s[k]);
        }
        lemma_last_dot(t, k);
    }
}

/// Lexicographic order on text, character by character.
pub open spec fn text_less(a: Seq<char>, b: Seq<char>) -> bool
    decreases a.len(),
{
    if a.len() == 0 {
        b.len() > 0
    } else if b.len() == 0 {
        false
    } else if a[0] != b[0] {
        a[0] < b[0]
    } else {
        text_less(a.drop_first(), b.drop_first())
    }
}

proof fn lemma_text_less_irreflexive(a: Seq<char>)
    ensures
        !text_less(a, a),
    decreases a.len(),
{
    if a.len() > 0 {
        lemma_text_less_irreflexive(a.drop_first());
    }
}

proof fn lemma_text_less_transitive(a: Seq<char>, b: Seq<char>, c: Seq<char>)
    requires
        text_less(a, b),
        text_less(b, c),
    ensures
        text_less(a, c),
    decreases a.len(),
{
    if a.len() > 0 && b.len() > 0 && c.len() > 0 && a[0] == b[0] && b[0] == c[0] {
        lemma_text_less_transitive(a.drop_first(), b.drop_first(), c.drop_first());
    }
}

/// Whether `a` sorts before `b` as text.
fn text_lt(a: &str, b: &str) -> (r: bool)
    ensures
        r == text_less(a@, b@),
{
    let x = chars_of(a);
    let y = chars_of(b);
    let mut i: usize = 0;
    assert(x@.skip(0) =~= x@);
    assert(y@.skip(0) =~= y@);
    while i < x.len() && i < y.len() && x[i] == y[i]
        invariant
            i <= x@.len(),
            i <= y@.len(),
            forall|j: int| 0 <= j < i ==> x@[j] == y@[j],
            text_less(x@, y@) == text_less(x@.skip(i as int), y@.skip(i as int)),
        decreases x@.len() - i,
    {
        proof {
            assert(x@.skip(i as int).drop_first() =~= x@.skip(i + 1));
            assert(y@.skip(i as int).drop_first() =~= y@.skip(i + 1));
            assert(x@.skip(i as int)[0] == x@[i as int]);
            assert(y@.skip(i as int)[0] == y@[i as int]);
        }
        i = i + 1;
    }
    proof {
        if i < x.len() && i < y.len() {
            assert(x@.skip(i as int)[0] == x@[i as int]);
            assert(y@.skip(i as int)[0] == y@[i as int]);
        }
    }
    if i == x.len() {
        i < y.len()
    } else if i == y.len() {
        false
    } else {
        x[i] < y[i]
    }
}

/// `x` ranks below `y` in the top-N order: smaller, or as large with a smaller path.
pub open spec fn ranks_below(x: FileEntry, y: FileEntry) -> bool {
    x.size_bytes < y.size_bytes || (x.size_bytes == y.size_bytes && text_less(x.path@, y.path@))
}

/// Largest first; equal sizes by path, descending.
pub open spec fn top_sorted(s: Seq<FileEntry>) -> bool {
    forall|a: int, b: int| 0 <= a < b < s.len() ==> !ranks_below(#[trigger] s[a], #[trigger] s[b])
}

proof fn lemma_ranks_below_transitive(x: FileEntry, y: FileEntry, z: FileEntry)
    requires
        ranks_below(x, y),
        ranks_below(y, z),
    ensures
        ranks_below(x, z),
{
    if x.size_bytes == y.size_bytes && y.size_bytes == z.size_bytes {
        lemma_text_less_transitive(x.path@, y.path@, z.path@);
    }
}

/// Extension statistics ordered by total size, then count, both descending.
pub open spec fn stats_sorted(s: Seq<ExtensionStat>) -> bool {
    forall|a: int, b: int| 0 <= a < b < s.len() ==> (#[trigger] s[a]).total_size_bytes > (#[trigger] s[b]).total_size_bytes
        || (s[a].total_size_bytes == s[b].total_size_bytes && s[a].file_count >= s[b].file_count)
}

pub open spec fn count_sum(s: Seq<ExtensionStat>) -> nat
    decreases s.len(),
{
    if s.len() == 0 {
        0
    } else {
        count_sum(s.drop_last()) + s.last().file_count as nat
    }
}

pub open spec fn size_sum(s: Seq<ExtensionStat>) -> nat
    decreases s.len(),
{
    if s.len() == 0 {
        0
    } else {
        size_sum(s.drop_last()) + s.last().total_size_bytes as nat
    }
}

proof fn lemma_sums_insert(s: Seq<ExtensionStat>, p: int, x: ExtensionStat)
    requires
        0 <= p <= s.len(),
    ensures
        count_sum(s.insert(p, x)) == count_sum(s) + x.file_count,
        size_sum(s.insert(p, x)) == size_sum(s) + x.total_size_bytes,
    decreases s.len(),
{
    if p == s.len() {
        assert(s.insert(p, x).drop_last() =~= s);
    } else {
        lemma_sums_insert(s.drop_last(), p, x);
        assert(s.insert(p, x).drop_last() =~= s.drop_last().insert(p, x));
    }
}

proof fn lemma_sums_update(s: Seq<ExtensionStat>, p: int, x: ExtensionStat)
    requires
        0 <= p < s.len(),
    ensures
        count_sum(s.update(p, x)) + s[p].file_count == count_sum(s) + x.file_count,
        size_sum(s.update(p, x)) + s[p].total_size_bytes == size_sum(s) + x.total_size_bytes,
{
    lemma_sums_insert(s.remove(p), p, x);
    lemma_sums_insert(s.remove(p), p, s[p]);
    assert(s.remove(p).insert(p, x) =~= s.update(p, x));
    assert(s.remove(p).insert(p, s[p]) =~= s);
}

/// The running state of a scan: counters and the three aggregators.
pub struct ScanCollector {
    pub total_files: u64,
    pub total_dirs: u64,
    pub total_size_bytes: u64,
    /// capacity of the top-N list
    pub limit: usize,
    /// the largest admitted files, in no particular order
    pub top_files: Vec<FileEntry>,
    /// one entry per extension
    pub by_extension: Vec<ExtensionStat>,
    pub stale_files: Vec<FileEntry>,
}

/// One of the statistics of `s` is for `key`.
pub open spec fn lists_extension(s: Seq<ExtensionStat>, key: Seq<char>) -> bool {
    exists|i: int| 0 <= i < s.len() && (#[trigger] s[i]).extension@ == key
}

pub open spec fn stat_is(s: ExtensionStat, key: Seq<char>, count: int, size: int) -> bool {
    s.extension@ == key && s.file_count == count && s.total_size_bytes == size
}

/// `after` is `before` with one more file of `size` bytes counted under `key`: the
/// statistic of `key` is updated in place, or appended when there was none; the others
/// stay as they were.
pub open spec fn stats_counted(before: Seq<ExtensionStat>, after: Seq<ExtensionStat>, key: Seq<char>, size: u64) -> bool {
    (exists|i: int| 0 <= i < before.len() && (#[trigger] before[i]).extension@ == key && after.len() == before.len()
        && stat_is(after[i], key, before[i].file_count + 1, before[i].total_size_bytes + size)
        && forall|j: int| 0 <= j < before.len() && j != i ==> after[j] == before[j])
    || ((forall|i: int| 0 <= i < before.len() ==> (#[trigger] before[i]).extension@ != key)
        && after.len() == before.len() + 1 && after.drop_last() == before && stat_is(after.last(), key, 1, size as int))
}

/// The extension key of the file at `p`: its lower-cased extension, or `"no_extension"`.
pub open spec fn path_key(p: Seq<char>) -> Seq<char> {
    match extension_text(file_name(p)) {
        Some(e) => lower_of(e),
        None => no_extension(),
    }
}

/// The lower-cased extension of the file at `p`, if it has one.
pub open spec fn path_extension(p: Seq<char>) -> Option<Seq<char>> {
    match extension_text(file_name(p)) {
        Some(e) => Some(lower_of(e)),
        None => None,
    }
}

/// `t2` is the top-N list `t` (capacity `limit`) after `e` was offered to it: files of
/// size zero never enter; a short list takes the file; a full one replaces a smallest
/// entry when the file is strictly larger, and is kept otherwise.
pub open spec fn top_offer(t: Seq<FileEntry>, limit: usize, t2: Seq<FileEntry>, e: FileEntry) -> bool {
    if e.size_bytes == 0 {
        t2 == t
    } else if t.len() < limit {
        t2 == t.push(e)
    } else {
        (exists|m: int| 0 <= m < t.len() && (forall|j: int| 0 <= j < t.len() ==> t[m].size_bytes <= #[trigger] t[j].size_bytes)
            && e.size_bytes > t[m].size_bytes && t2 == t.update(m, e))
        || ((forall|j: int| 0 <= j < t.len() ==> #[trigger] t[j].size_bytes >= e.size_bytes) && t2 == t)
    }
}

/// What a file entry holds, as plain values.
pub open spec fn entry_view(e: FileEntry) -> (Seq<char>, u64, Option<u64>, Option<Seq<char>>) {
    (e.path@, e.size_bytes, e.last_modified, ext_view(e.extension))
}

/// What an extension statistic holds, as plain values.
pub open spec fn stat_view(s: ExtensionStat) -> (Seq<char>, u64, u64) {
    (s.extension@, s.file_count, s.total_size_bytes)
}

/// Key under which a file without extension is counted.
pub open spec fn no_extension() -> Seq<char> {
    "no_extension"@
}

pub open spec fn ext_key(e: Option<String>) -> Seq<char> {
    match e {
        Some(s) => s@,
        None => no_extension(),
    }
}

impl ScanCollector {
    /// The collector's invariant: the totals are the sums of the per-extension figures,
    /// extensions are listed once, and the top-N list holds at most `limit` files, none empty.
    pub open spec fn wf(&self) -> bool {
        &&& self.total_files == count_sum(self.by_extension@)
        &&& self.total_size_bytes == size_sum(self.by_extension@)
        &&& forall|a: int, b: int| 0 <= a < b < self.by_extension@.len()
            ==> (#[trigger] self.by_extension@[a]).extension@ != (#[trigger] self.by_extension@[b]).extension@
        &&& self.top_files@.len() <= self.limit
        &&& self.top_files@.len() <= self.total_files
        &&& forall|i: int| 0 <= i < self.top_files@.len() ==> (#[trigger] self.top_files@[i]).size_bytes > 0
    }

    /// An empty collector whose top-N list holds at most `limit` files.
    pub fn new(limit: usize) -> (r: ScanCollector)
        ensures
            r.wf(),
            r.limit == limit,
            r.total_files == 0 && r.total_dirs == 0 && r.total_size_bytes == 0,
            r.top_files@.len() == 0 && r.by_extension@.len() == 0 && r.stale_files@.len() == 0,
    {
        ScanCollector {
            total_files: 0,
            total_dirs: 0,
            total_size_bytes: 0,
            limit,
            top_files: Vec::new(),
            by_extension: Vec::new(),
            stale_files: Vec::new(),
        }
    }

    /// Counts one more directory.
    pub fn add_dir(&mut self)
        requires
            old(self).wf(),
        ensures
            final(self).wf(),
            final(self).total_dirs == (if old(self).total_dirs < u64::MAX { old(self).total_dirs + 1 } else { u64::MAX as int }),
            final(self).total_files == old(self).total_files,
            final(self).total_size_bytes == old(self).total_size_bytes,
            final(self).limit == old(self).limit,
            final(self).top_files@ == old(self).top_files@,
            final(self).by_extension@ == old(self).by_extension@,
            final(self).stale_files@ == old(self).stale_files@,
    {
        self.total_dirs = self.total_dirs.saturating_add(1);
    }

    /// Adds one file of `size` bytes to the statistics of `extension` (`"no_extension"`
    /// when absent).
    fn add_file_with_extension(&mut self, extension: Option<String>, size: u64)
        requires
            old(self).wf(),
            old(self).total_files < u64::MAX,
            old(self).total_size_bytes + size <= u64::MAX,
        ensures
            final(self).wf(),
            final(self).total_files == old(self).total_files + 1,
            final(self).total_size_bytes == old(self).total_size_bytes + size,
            lists_extension(final(self).by_extension@, ext_key(extension)),
            stats_counted(old(self).by_extension@, final(self).by_extension@, ext_key(extension), size),
            final(self).total_dirs == old(self).total_dirs,
            final(self).limit == old(self).limit,
            final(self).top_files@ == old(self).top_files@,
            final(self).stale_files@ == old(self).stale_files@,
    {
        let key: String = match extension {
            Some(e) => e,
            None => "no_extension".to_string(),
        };
        let ghost s0 = self.by_extension@;
        let mut i: usize = 0;
        while i < self.by_extension.len() && !(self.by_extension[i].extension == key)
            invariant
                i <= self.by_extension@.len(),
                self.by_extension@ == s0,
                forall|j: int| 0 <= j < i ==> (#[trigger] s0[j]).extension@ != key@,
            decreases self.by_extension@.len() - i,
        {
            i = i + 1;
        }
        if i < self.by_extension.len() {
            let old_stat = &self.by_extension[i];
            proof {
                lemma_sums_update(s0, i as int, *old_stat);
                assert(s0.update(i as int, *old_stat) =~= s0);
                // each count and size is part of the totals
                lemma_sums_update(s0, i as int, ExtensionStat { extension: old_stat.extension, file_count: 0, total_size_bytes: 0 });
            }
            let stat = ExtensionStat {
                extension: key,
                file_count: old_stat.file_count + 1,
                total_size_bytes: old_stat.total_size_bytes + size,
            };
            proof {
                lemma_sums_update(s0, i as int, stat);
            }
            self.by_extension.set(i, stat);
            assert forall|a: int, b: int| 0 <= a < b < self.by_extension@.len() implies
                (#[trigger] self.by_extension@[a]).extension@ != (#[trigger] self.by_extension@[b]).extension@ by {
                assert(s0[i as int].extension@ == key@);
                if a != i {
                    assert(self.by_extension@[a] == s0[a]);
                }
                if b != i {
                    assert(self.by_extension@[b] == s0[b]);
                }
            }
            assert(self.by_extension@[i as int].extension@ == ext_key(extension));
            assert(lists_extension(self.by_extension@, ext_key(extension)));
            assert(stat_is(self.by_extension@[i as int], key@, s0[i as int].file_count + 1, s0[i as int].total_size_bytes + size));
        } else {
            let stat = ExtensionStat { extension: key, file_count: 1, total_size_bytes: size };
            proof {
                lemma_sums_insert(s0, s0.len() as int, stat);
                assert(s0.insert(s0.len() as int, stat) =~= s0.push(stat));
            }
            self.by_extension.push(stat);
            assert(self.by_extension@[s0.len() as int].extension@ == ext_key(extension));
            assert(lists_extension(self.by_extension@, ext_key(extension)));
            assert(self.by_extension@.drop_last() =~= s0);
        }
        self.total_files = self.total_files + 1;
        self.total_size_bytes = self.total_size_bytes + size;
    }
}

/// `x` holds the data of one of the entries of `s`.
pub open spec fn copied_from(x: FileEntry, s: Seq<FileEntry>) -> bool {
    exists|j: int| 0 <= j < s.len() && same_entry(x, #[trigger] s[j])
}

/// `a` and `b` hold the same file data.
pub open spec fn same_entry(a: FileEntry, b: FileEntry) -> bool {
    a.path@ == b.path@ && a.size_bytes == b.size_bytes && a.last_modified == b.last_modified
        && ext_view(a.extension) == ext_view(b.extension)
}

pub open spec fn ext_view(e: Option<String>) -> Option<Seq<char>> {
    match e {
        Some(s) => Some(s@),
        None => None,
    }
}

fn copy_ext(e: &Option<String>) -> (r: Option<String>)
    ensures
        ext_view(r) == ext_view(*e),
{
    match e {
        Some(s) => Some(s.clone()),
        None => None,
    }
}

/// A copy of `e`.
pub fn copy_entry(e: &FileEntry) -> (r: FileEntry)
    ensures
        same_entry(r, *e),
{
    FileEntry {
        path: e.path.clone(),
        size_bytes: e.size_bytes,
        last_modified: e.last_modified,
        extension: copy_ext(&e.extension),
    }
}

/// `e` sorted into the top-N order.
fn sort_entries(v: &Vec<FileEntry>) -> (r: Vec<FileEntry>)
    ensures
        top_sorted(r@),
        r@.len() == v@.len(),
        forall|i: int| 0 <= i < r@.len() ==> copied_from(#[trigger] r@[i], v@),
        r@.map_values(|e: FileEntry| entry_view(e)).to_multiset() == v@.map_values(|e: FileEntry| entry_view(e)).to_multiset(),
{
    let mut out: Vec<FileEntry> = Vec::new();
    let mut k: usize = 0;
    proof {
        lemma_no_entries(out@.map_values(|e: FileEntry| entry_view(e)));
        lemma_no_entries(v@.take(0).map_values(|e: FileEntry| entry_view(e)));
    }
    while k < v.len()
        invariant
            k <= v@.len(),
            out@.len() == k,
            top_sorted(out@),
            out@.map_values(|e: FileEntry| entry_view(e)).to_multiset()
                == v@.take(k as int).map_values(|e: FileEntry| entry_view(e)).to_multiset(),
            forall|i: int| 0 <= i < out@.len() ==> copied_from(#[trigger] out@[i], v@),
        decreases v@.len() - k,
    {
        let x = copy_entry(&v[k]);
        let mut p: usize = 0;
        while p < out.len() && !(out[p].size_bytes < x.size_bytes || (out[p].size_bytes == x.size_bytes
            && text_lt(out[p].path.as_str(), x.path.as_str())))
            invariant
                p <= out@.len(),
                forall|a: int| 0 <= a < p ==> !ranks_below(#[trigger] out@[a], x),
            decreases out@.len() - p,
        {
            p = p + 1;
        }
        let ghost o0 = out@;
        out.insert(p, x);
        proof {
            assert(out@ == o0.insert(p as int, x));
            let f = |e: FileEntry| entry_view(e);
            assert(out@.map_values(f) =~= o0.map_values(f).insert(p as int, f(x)));
            vstd::seq_lib::to_multiset_insert(o0.map_values(f), p as int, f(x));
            assert(v@.take(k + 1).map_values(f) =~= v@.take(k as int).map_values(f).push(f(v@[k as int])));
            vstd::seq_lib::to_multiset_build(v@.take(k as int).map_values(f), f(v@[k as int]));
            assert(f(x) == f(v@[k as int]));
            assert forall|a: int, b: int| 0 <= a < b < out@.len() implies !ranks_below(#[trigger] out@[a], #[trigger] out@[b]) by {
                if b < p {
                    assert(out@[a] == o0[a] && out@[b] == o0[b]);
                } else if b == p {
                    assert(out@[a] == o0[a]);
                } else if a < p {
                    assert(out@[a] == o0[a] && out@[b] == o0[b - 1]);
                } else if a == p {
                    assert(out@[b] == o0[b - 1]);
                    assert(ranks_below(o0[p as int], x));
                    if ranks_below(x, o0[b - 1]) {
                        lemma_ranks_below_transitive(o0[p as int], x, o0[b - 1]);
                        if b - 1 == p {
                            lemma_text_less_irreflexive(o0[p as int].path@);
                        }
                    }
                } else {
                    assert(out@[a] == o0[a - 1] && out@[b] == o0[b - 1]);
                }
            }
            assert forall|i: int| 0 <= i < out@.len() implies copied_from(#[trigger] out@[i], v@) by {
                if i < p {
                    assert(out@[i] == o0[i]);
                } else if i == p {
                    assert(same_entry(out@[i], v@[k as int]));
                    assert(copied_from(out@[i], v@));
                } else {
                    assert(out@[i] == o0[i - 1]);
                }
            }
        }
        k = k + 1;
    }
    assert(v@.take(v@.len() as int) =~= v@);
    out
}

proof fn lemma_no_entries<A>(s: Seq<A>)
    requires
        s.len() == 0,
    ensures
        s.to_multiset() =~= Multiset::<A>::empty(),
{
    broadcast use vstd::seq_lib::to_multiset_contains;
    assert forall|a: A| s.to_multiset().count(a) == 0 by {
        if s.to_multiset().count(a) > 0 {
            assert(s.contains(a));
        }
    }
}

impl ScanCollector {
    /// Offers a file to the top-N list: files of size zero never enter; while the list is
    /// short the file is added; when it is full the file replaces a smallest entry if it is
    /// strictly larger than it (a tie does not evict).
    fn add_file_to_top_list(&mut self, path: String, size: u64, last_modified: Option<u64>, extension: Option<String>)
        requires
            old(self).wf(),
            size > 0 ==> old(self).top_files@.len() < old(self).total_files,
        ensures
            final(self).wf(),
            top_offer(old(self).top_files@, old(self).limit, final(self).top_files@,
                FileEntry { path, size_bytes: size, last_modified, extension }),
            final(self).total_files == old(self).total_files,
            final(self).total_dirs == old(self).total_dirs,
            final(self).total_size_bytes == old(self).total_size_bytes,
            final(self).limit == old(self).limit,
            final(self).by_extension@ == old(self).by_extension@,
            final(self).stale_files@ == old(self).stale_files@,
    {
        if size == 0 {
            return;
        }
        let entry = FileEntry { path, size_bytes: size, last_modified, extension };
        if self.top_files.len() < self.limit {
            self.top_files.push(entry);
            return;
        }
        if self.top_files.len() == 0 {
            return;
        }
        let ghost t = self.top_files@;
        let mut m: usize = 0;
        let mut i: usize = 1;
        while i < self.top_files.len()
            invariant
                self.top_files@ == t,
                m < i <= t.len(),
                forall|j: int| 0 <= j < i ==> t[m as int].size_bytes <= #[trigger] t[j].size_bytes,
            decreases t.len() - i,
        {
            if self.top_files[i].size_bytes < self.top_files[m].size_bytes {
                m = i;
            }
            i = i + 1;
        }
        if size > self.top_files[m].size_bytes {
            self.top_files.set(m, entry);
        }
    }

    fn add_stale_file(&mut self, entry: FileEntry)
        requires
            old(self).wf(),
        ensures
            final(self).wf(),
            final(self).stale_files@ == old(self).stale_files@.push(entry),
            final(self).total_files == old(self).total_files,
            final(self).total_dirs == old(self).total_dirs,
            final(self).total_size_bytes == old(self).total_size_bytes,
            final(self).limit == old(self).limit,
            final(self).top_files@ == old(self).top_files@,
            final(self).by_extension@ == old(self).by_extension@,
    {
        self.stale_files.push(entry);
    }

    /// Counts an admitted file: the totals, its extension, the top-N list and, when it is
    /// stale at `now` (seconds since the epoch), the stale list. Returns false, counting
    /// nothing, when a total would pass `u64::MAX`.
    pub fn record_file(&mut self, path: String, size: u64, last_modified: Option<u64>, now: u64, stale_days: Option<u32>) -> (r: bool)
        requires
            old(self).wf(),
        ensures
            final(self).wf(),
            r == (old(self).total_files < u64::MAX && old(self).total_size_bytes + size <= u64::MAX),
            r ==> final(self).total_files == old(self).total_files + 1,
            r ==> final(self).total_size_bytes == old(self).total_size_bytes + size,
            !r ==> final(self).total_files == old(self).total_files && final(self).total_size_bytes == old(self).total_size_bytes,
            r && stale(now, last_modified, stale_days) ==> final(self).stale_files@.len() == old(self).stale_files@.len() + 1
                && final(self).stale_files@.last().path@ == path@,
            !(r && stale(now, last_modified, stale_days)) ==> final(self).stale_files@ == old(self).stale_files@,
            r ==> stats_counted(old(self).by_extension@, final(self).by_extension@, path_key(path@), size),
            r ==> exists|e: FileEntry| entry_view(e) == (path@, size, last_modified, path_extension(path@))
                && top_offer(old(self).top_files@, old(self).limit, final(self).top_files@, e),
            !r ==> final(self).top_files@ == old(self).top_files@ && final(self).by_extension@ == old(self).by_extension@,
            final(self).total_dirs == old(self).total_dirs,
            final(self).limit == old(self).limit,
    {
        if self.total_files == u64::MAX || size > u64::MAX - self.total_size_bytes {
            return false;
        }
        let extension = extension_of(path.as_str());
        self.add_file_with_extension(copy_ext(&extension), size);
        let stale_now = is_stale(now, last_modified, stale_days);
        if stale_now {
            let entry = FileEntry { path: path.clone(), size_bytes: size, last_modified, extension: copy_ext(&extension) };
            self.add_stale_file(entry);
        }
        let ghost e = FileEntry { path, size_bytes: size, last_modified, extension };
        assert(ext_key(extension) == path_key(path@));
        self.add_file_to_top_list(path, size, last_modified, extension);
        assert(entry_view(e) == (path@, size, last_modified, path_extension(path@)));
        true
    }

    /// The top-N list, largest first, equal sizes by path descending.
    pub fn top_files_to_vec(&self) -> (r: Vec<FileEntry>)
        requires
            self.wf(),
        ensures
            top_sorted(r@),
            r@.len() == self.top_files@.len(),
            r@.len() <= self.limit,
            forall|i: int| 0 <= i < r@.len() ==> (#[trigger] r@[i]).size_bytes > 0,
            forall|i: int| 0 <= i < r@.len() ==> copied_from(#[trigger] r@[i], self.top_files@),
            r@.map_values(|e: FileEntry| entry_view(e)).to_multiset()
                == self.top_files@.map_values(|e: FileEntry| entry_view(e)).to_multiset(),
    {
        let r = sort_entries(&self.top_files);
        assert forall|i: int| 0 <= i < r@.len() implies (#[trigger] r@[i]).size_bytes > 0 by {
            let j = choose|j: int| 0 <= j < self.top_files@.len() && same_entry(r@[i], #[trigger] self.top_files@[j]);
            assert(self.top_files@[j].size_bytes > 0);
        }
        r
    }

    /// Copies of the stale files, in the order they were found.
    pub fn stale_files_to_vec(&self) -> (r: Vec<FileEntry>)
        ensures
            r@.len() == self.stale_files@.len(),
            forall|i: int| 0 <= i < r@.len() ==> same_entry(#[trigger] r@[i], self.stale_files@[i]),
    {
        let mut r: Vec<FileEntry> = Vec::new();
        let mut i: usize = 0;
        while i < self.stale_files.len()
            invariant
                i <= self.stale_files@.len(),
                r@.len() == i,
                forall|j: int| 0 <= j < i ==> same_entry(#[trigger] r@[j], self.stale_files@[j]),
            decreases self.stale_files@.len() - i,
        {
            r.push(copy_entry(&self.stale_files[i]));
            i = i + 1;
        }
        r
    }

    /// The per-extension statistics, largest total first, equal totals by count descending.
    pub fn extensions_to_vec(&self) -> (r: Vec<ExtensionStat>)
        ensures
            stats_sorted(r@),
            r@.len() == self.by_extension@.len(),
            count_sum(r@) == count_sum(self.by_extension@),
            size_sum(r@) == size_sum(self.by_extension@),
            r@.map_values(|s: ExtensionStat| stat_view(s)).to_multiset()
                == self.by_extension@.map_values(|s: ExtensionStat| stat_view(s)).to_multiset(),
            forall|i: int| 0 <= i < r@.len() ==> exists|j: int| 0 <= j < self.by_extension@.len()
                && (#[trigger] r@[i]).extension@ == self.by_extension@[j].extension@
                && r@[i].file_count == self.by_extension@[j].file_count
                && r@[i].total_size_bytes == self.by_extension@[j].total_size_bytes,
    {
        let v = &self.by_extension;
        let mut out: Vec<ExtensionStat> = Vec::new();
        let mut k: usize = 0;
        proof {
            lemma_no_entries(out@.map_values(|s: ExtensionStat| stat_view(s)));
            lemma_no_entries(v@.take(0).map_values(|s: ExtensionStat| stat_view(s)));
        }
        while k < v.len()
            invariant
                k <= v@.len(),
                out@.len() == k,
                out@.map_values(|s: ExtensionStat| stat_view(s)).to_multiset()
                    == v@.take(k as int).map_values(|s: ExtensionStat| stat_view(s)).to_multiset(),
                stats_sorted(out@),
                count_sum(out@) == count_sum(v@.take(k as int)),
                size_sum(out@) == size_sum(v@.take(k as int)),
                forall|i: int| 0 <= i < out@.len() ==> exists|j: int| 0 <= j < v@.len()
                    && (#[trigger] out@[i]).extension@ == v@[j].extension@
                    && out@[i].file_count == v@[j].file_count
                    && out@[i].total_size_bytes == v@[j].total_size_bytes,
            decreases v@.len() - k,
        {
            let x = ExtensionStat {
                extension: v[k].extension.clone(),
                file_count: v[k].file_count,
                total_size_bytes: v[k].total_size_bytes,
            };
            let mut p: usize = 0;
            while p < out.len() && (out[p].total_size_bytes > x.total_size_bytes
                || (out[p].total_size_bytes == x.total_size_bytes && out[p].file_count >= x.file_count))
                invariant
                    p <= out@.len(),
                    forall|a: int| 0 <= a < p ==> (#[trigger] out@[a]).total_size_bytes > x.total_size_bytes
                        || (out@[a].total_size_bytes == x.total_size_bytes && out@[a].file_count >= x.file_count),
                decreases out@.len() - p,
            {
                p = p + 1;
            }
            let ghost o0 = out@;
            proof {
                lemma_sums_insert(o0, p as int, x);
                assert(v@.take(k + 1).drop_last() =~= v@.take(k as int));
            }
            out.insert(p, x);
            proof {
                assert(out@ == o0.insert(p as int, x));
                let f = |s: ExtensionStat| stat_view(s);
                assert(out@.map_values(f) =~= o0.map_values(f).insert(p as int, f(x)));
                vstd::seq_lib::to_multiset_insert(o0.map_values(f), p as int, f(x));
                assert(v@.take(k + 1).map_values(f) =~= v@.take(k as int).map_values(f).push(f(v@[k as int])));
                vstd::seq_lib::to_multiset_build(v@.take(k as int).map_values(f), f(v@[k as int]));
                assert(f(x) == f(v@[k as int]));
                assert forall|i: int| 0 <= i < out@.len() implies exists|j: int| 0 <= j < v@.len()
                    && (#[trigger] out@[i]).extension@ == v@[j].extension@
                    && out@[i].file_count == v@[j].file_count
                    && out@[i].total_size_bytes == v@[j].total_size_bytes by {
                    if i < p {
                        assert(out@[i] == o0[i]);
                    } else if i == p {
                        assert(out@[i] == x);
                    } else {
                        assert(out@[i] == o0[i - 1]);
                    }
                }
            }
            k = k + 1;
        }
        assert(v@.take(v@.len() as int) =~= v@);
        out
    }

    /// The totals of the scan of `root_path`.
    pub fn to_summary(&self, root_path: String) -> (r: ScanSummary)
        ensures
            r.root_path == root_path,
            r.total_files == self.total_files,
            r.total_dirs == self.total_dirs,
            r.total_size_bytes == self.total_size_bytes,
    {
        ScanSummary {
            root_path,
            total_files: self.total_files,
            total_dirs: self.total_dirs,
            total_size_bytes: self.total_size_bytes,
        }
    }

    /// The result of the scan of `root_path`: its total file count and size are the sums
    /// over its extension statistics, and its top-N list holds at most `limit` non-empty
    /// files, largest first, equal sizes by path descending.
    pub fn to_result(&self, root_path: String) -> (r: ScanResult)
        requires
            self.wf(),
        ensures
            r.summary.total_files == count_sum(r.by_extension@),
            r.summary.total_size_bytes == size_sum(r.by_extension@),
            r.summary.total_files == self.total_files,
            r.summary.total_dirs == self.total_dirs,
            r.summary.total_size_bytes == self.total_size_bytes,
            r.summary.root_path == root_path,
            top_sorted(r.top_files@),
            r.top_files@.len() <= self.limit,
            r.top_files@.len() <= r.summary.total_files,
            r.top_files@.map_values(|e: FileEntry| entry_view(e)).to_multiset()
                == self.top_files@.map_values(|e: FileEntry| entry_view(e)).to_multiset(),
            forall|i: int| 0 <= i < r.top_files@.len() ==> copied_from(#[trigger] r.top_files@[i], self.top_files@),
            r.by_extension@.map_values(|s: ExtensionStat| stat_view(s)).to_multiset()
                == self.by_extension@.map_values(|s: ExtensionStat| stat_view(s)).to_multiset(),
            forall|i: int| 0 <= i < r.top_files@.len() ==> (#[trigger] r.top_files@[i]).size_bytes > 0,
            r.by_extension@.len() == self.by_extension@.len(),
            stats_sorted(r.by_extension@),
            r.stale_files@.len() == self.stale_files@.len(),
    {
        ScanResult {
            summary: self.to_summary(root_path),
            top_files: self.top_files_to_vec(),
            by_extension: self.extensions_to_vec(),
            stale_files: self.stale_files_to_vec(),
        }
    }
}

} // verus!
