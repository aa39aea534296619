//! CAUSEWAY: the decision core of a supervised local egress gateway.
//!
//! Everything the gateway decides lives here as verified functions on plain
//! values: configuration rules, manifest parsing, candidate ranking, route
//! debouncing, the subscription transaction and the persistent state. The
//! program around it reads files, runs adapters and moves bytes.

pub mod text;
pub mod names;
pub mod seqs;
pub mod order;
pub mod score;
pub mod paths;
pub mod node;
pub mod yaml;
pub mod manifest;
pub mod digest;
pub mod config;
pub mod validate;
pub mod siteprobe;
pub mod subscription;
pub mod state;
pub mod selection;
pub mod peek;
pub mod control;
pub mod events;
pub mod listener;
pub mod health;
pub mod recovery;
pub mod runtime;
pub mod switching;
pub mod transaction;
pub mod change;
pub mod egress;
pub mod sites;
pub mod reload;
pub mod json;
pub mod workspace;
pub mod dataplane;
pub mod probe;
pub mod supervisor;
pub mod daemon_lock;
pub mod cli;
pub mod identity;
