//! sabi: the verified core of a WAL-first, MVCC-based SQL database.
//!
//! The library holds the storage formats (pages, B+Tree nodes, WAL records,
//! version chains), the transaction and visibility rules, the SQL value
//! model, planner and expression evaluation, and the protocol types.
//! Everything that touches files, sockets or threads lives outside it.

pub mod error;
pub mod text;
pub mod timestamp;
pub mod tx;
pub mod tx_order;
pub mod bytes;
pub mod page;
pub mod keys;
pub mod btree;
pub mod tree;
pub mod wal;
pub mod assoc;
pub mod mvcc;
pub mod engine;
pub mod tables;
pub mod sql_error;
pub mod sql_types;
pub mod sql_ast;
pub mod sql_syntax;
pub mod sql_parse;
pub mod sql_eval;
pub mod sql_plan;
pub mod sql_exec;
pub mod sql_session;
pub mod oneshot;
pub mod protocol;
pub mod wire;
pub mod service;
pub mod client_tracker;
pub mod reactive;
pub mod deterministic;
