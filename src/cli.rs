//! The command line's decisions: which mode a set of options runs, and what the one-shot
//! scan prints.
use vstd::prelude::*;
use crate::engine::{FileEntry, ScanConfig};
use crate::scan::ScanRequest;
use crate::size::parse_size;

verus! {

/// The options of the command line.
#[derive(Debug, Clone)]
pub struct Args {
    pub path: String,
    /// minimum file size, as a size literal
    pub min_size: String,
    /// number of entries shown
    pub limit: usize,
    pub json: bool,
    pub tui: bool,
    pub threads: usize,
    pub service: bool,
    pub port: u16,
    pub host: String,
}

/// Entries shown when `--limit` is not given.
pub const DEFAULT_LIMIT: usize = 20;

/// What a run of the command line does.
#[derive(Debug, Clone)]
pub enum RunMode {
    /// start the service on host and port
    Service { host: String, port: u16 },
    /// browse a scan of the configuration in the terminal
    Tui(ScanConfig),
    /// scan once and print, as JSON when `json`
    OneShot { config: ScanConfig, json: bool, limit: usize },
}

/// Decides the run: `--service` wins; `--tui` refuses `--json` and a changed `--limit`;
/// otherwise a one-shot scan. The minimum size must parse.
pub fn plan_run(args: &Args) -> (r: Result<RunMode, String>)
    ensures
        args.service ==> r is Ok && r->Ok_0 is Service,
        !args.service && args.tui && args.json ==> r is Err
            && r->Err_0@ == "--json cannot be used together with --tui; TUI mode manages its own output."@,
        !args.service && args.tui && !args.json && args.limit != DEFAULT_LIMIT ==> r is Err
            && r->Err_0@ == "--limit is not supported in --tui mode; TUI will control list pagination."@,
        !args.service && (args.tui ==> !args.json && args.limit == DEFAULT_LIMIT) ==> match crate::size::size_outcome(args.min_size@) {
            crate::size::SizeOutcome::Bytes(n) => r is Ok && (match r->Ok_0 {
                RunMode::Tui(c) => args.tui && c.root@ == args.path@ && c.min_size == n && c.threads == args.threads,
                RunMode::OneShot { config, json, limit } => !args.tui && config.root@ == args.path@
                    && config.min_size == n && config.threads == args.threads && json == args.json && limit == args.limit,
                RunMode::Service { .. } => false,
            }),
            _ => r is Err,
        },
{
    if args.service {
        return Ok(RunMode::Service { host: args.host.clone(), port: args.port });
    }
    if args.tui {
        if args.json {
            return Err("--json cannot be used together with --tui; TUI mode manages its own output.".to_string());
        }
        if args.limit != DEFAULT_LIMIT {
            return Err("--limit is not supported in --tui mode; TUI will control list pagination.".to_string());
        }
    }
    let min_size = match parse_size(args.min_size.as_str()) {
        Ok(n) => n,
        Err(e) => {
            return Err(crate::text::concat_str("Error parsing --min-size: ", e.as_str()));
        },
    };
    let config = ScanConfig { root: args.path.clone(), min_size, threads: args.threads };
    if args.tui {
        Ok(RunMode::Tui(config))
    } else {
        Ok(RunMode::OneShot { config, json: args.json, limit: args.limit })
    }
}

/// The first `limit` entries (all of them when there are fewer), in order.
pub fn take_entries(entries: &Vec<FileEntry>, limit: usize) -> (r: Vec<FileEntry>)
    ensures
        r@.len() == (if limit < entries@.len() { limit as int } else { entries@.len() as int }),
        forall|i: int| 0 <= i < r@.len() ==> (#[trigger] r@[i]).path@ == entries@[i].path@ && r@[i].size == entries@[i].size,
{
    let n: usize = if limit < entries.len() { limit } else { entries.len() };
    let mut r: Vec<FileEntry> = Vec::new();
    let mut i: usize = 0;
    while i < n
        invariant
            n <= entries@.len(),
            i <= n,
            r@.len() == i,
            forall|j: int| 0 <= j < i ==> (#[trigger] r@[j]).path@ == entries@[j].path@ && r@[j].size == entries@[j].size,
        decreases n - i,
    {
        r.push(FileEntry { path: entries[i].path.clone(), size: entries[i].size });
        i = i + 1;
    }
    r
}

/// The statistics scan that command-line options ask for: `min_size`, when given, must
/// be a valid size literal; the other options are carried over.
pub fn to_scan_request(
    path: &str,
    threads: Option<u16>,
    min_size: Option<String>,
    stale_days: Option<u32>,
    limit: usize,
) -> (r: Result<ScanRequest, String>)
    ensures
        match min_size {
            Some(m) => match crate::size::size_outcome(m@) {
                crate::size::SizeOutcome::Bytes(n) => r is Ok && r->Ok_0.min_size == Some(n as u64),
                _ => r is Err,
            },
            None => r is Ok && r->Ok_0.min_size is None,
        },
        r is Ok ==> r->Ok_0.root_path@ == path@ && r->Ok_0.threads == threads && r->Ok_0.stale_days == stale_days
            && r->Ok_0.limit == Some(limit) && r->Ok_0.exclude_patterns@.len() == 0,
{
    let mut request = ScanRequest::new(path);
    request.threads = threads;
    if let Some(m) = &min_size {
        match parse_size(m.as_str()) {
            Ok(bytes) => {
                request.min_size = Some(bytes);
            },
            Err(e) => {
                return Err(crate::text::concat_str("invalid --min-size: ", e.as_str()));
            },
        }
    }
    request.stale_days = stale_days;
    request.limit = Some(limit);
    Ok(request)
}

} // verus!
