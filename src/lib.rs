//! Incremental build core for a note graph.
//!
//! - `digraph`: petgraph's directed graph map, behind contracts.
//! - `file_graph`, `coordinator`: the file dependency graph and the build
//!   decisions that follow filesystem events.
//! - `notes`: the note link graph, titles, owners and build reports.
//! - `engine`: both together, agreeing on the source roots.
//! - `laws`: what holds across several operations of the notes service.
//! - `ids`, `fragments`: note labels and links, and cutting a page into notes.
//! - `slots`: the per-file cache kept across builds.
//! - `session`, `package`, `config`: subscriber messages, package locations,
//!   command line and handle errors.

pub mod digraph;
pub mod file_graph;
pub mod coordinator;
pub mod notes;
pub mod engine;
pub mod laws;
pub mod ids;
pub mod fragments;
pub mod slots;
pub mod session;
pub mod package;
pub mod config;
