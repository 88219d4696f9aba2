//! The rules of the scry workspace server: files and folders with versions, their index for
//! search, the handles that they are edited through, the events that tell of changes, who may do
//! what, and how a workspace is mounted.
//!
//! Everything here computes on plain values. What reads and writes the database, the disk and the
//! network asks these modules what to do, and does it.
use vstd::prelude::*;

pub mod args;
pub mod auth;
pub mod catalog;
pub mod chunking;
pub mod commands;
pub mod commit;
pub mod committed;
pub mod connection;
pub mod content;
pub mod credits;
pub mod embedding;
pub mod events;
pub mod file_indexing;
pub mod handle_content;
pub mod handles;
pub mod index_error;
pub mod jobs;
pub mod lists;
pub mod metrics_text;
pub mod migrations;
pub mod model;
pub mod mount_attrs;
pub mod mount_fs;
pub mod mount_options;
pub mod node_indexing;
pub mod nodes;
pub mod numbers;
pub mod paths;
pub mod refs;
pub mod rpc;
pub mod search;
pub mod settings;
pub mod startup;
pub mod status;
pub mod storage;
pub mod subscription;
pub mod telemetry;
pub mod text;
pub mod text_order;
pub mod tree;
pub mod utf8_text;
pub mod workspaces;

verus! {

} // verus!
