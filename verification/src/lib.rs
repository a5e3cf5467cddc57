//! A local harness for WebAssembly smart contracts: the registry of deployed
//! contracts and their storage partitions, the dispatcher that resolves the
//! messages and queries one contract sends to another, and the analyzer that
//! reads a contract's JSON Schema into callable message shapes.

pub mod analyzer;
pub mod bytes;
pub mod dispatcher;
pub mod engine;
pub mod json;
pub mod messages;
pub mod order;
pub mod querier;
pub mod registry;
pub mod storage;
pub mod strmap;
pub mod text;
pub mod utils;
