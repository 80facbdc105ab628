//! Mimir: the verified core of a desktop music library and player.

pub mod transport;
pub mod text;
pub mod playlist;
pub mod search;
pub mod heuristic;
pub mod sidecar;
pub mod extract;
pub mod path;
pub mod watcher;
pub mod fmt;
pub mod telemetry;
pub mod edit;
pub mod app;
pub mod catalog;
pub mod scanner;
pub mod probe;
pub mod order;
pub mod folders;
pub mod names;
pub mod audio;
pub mod migrations;
pub mod ingest;
