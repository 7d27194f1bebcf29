//! Surf, a disk-space analyzer: the size-literal codec, the scan engine's decisions and
//! aggregators, the directory tree of the terminal browser, the scan-task catalogue and
//! the JSON-RPC dispatcher, each with its contract.
pub mod text;
pub mod size;
pub mod paths;
pub mod engine;
pub mod tree;
pub mod scan;
pub mod tasks;
pub mod rpc;
pub mod tui;
pub mod cli;

