//! Verified core of the PigTree disk-usage analyser: observation ingestion,
//! directory-graph aggregation and queries, scan-target classification,
//! IPC framing and authentication decisions, and CLI settlement.

pub mod text;
pub mod validator;
pub mod win32;
pub mod graph;
pub mod model;
pub mod builder;
pub mod tree;
pub mod aggregate;
pub mod rollup;
pub mod order;
pub mod layout;
pub mod security;
pub mod process;
pub mod session;
pub mod cli;
pub mod scan_call;
pub mod runner;
pub mod engine_host;
pub mod frame;
pub mod laws;
pub mod messages;
