//! A verified core for a SQL wire-protocol proxy.
//!
//! Database clients speak to the proxy as if it were a real server; the
//! proxy pushes each query through a pipeline of stages (cache, sanitizer,
//! filter, session accumulator, type inference) and finally to a remote
//! task-execution service that returns query output as tab-separated text.
//! The stages, the result parsing, the type inference against an
//! introspected schema catalog, and the text-to-typed-value coercion are
//! verified; network transport and the binary wire encoding live outside
//! this crate.

pub mod accumulator;
pub mod ast;
pub mod cache;
pub mod data_type;
pub mod error;
pub mod executor;
pub mod filter;
pub mod laws;
pub mod mysql;
pub mod postgres;
pub mod reader;
pub mod runops;
pub mod sanitizer;
pub mod text;
pub mod value;

pub use text::lower_of;
