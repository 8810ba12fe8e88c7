//! Verified core of an EVM loader: byte buffers, the EVM stack and memory,
//! jump-destination analysis, the EOF container format and its validation, the step tracer,
//! the accounts it keeps its state in
//! and the changes an execution leaves for them.

pub mod error;
pub mod utils;
pub mod buffer;
pub mod opcode_table;
pub mod opcode;
pub mod opcode_host;
pub mod analysis;
pub mod eof;
pub mod eof_laws;
pub mod validate;
pub mod memory;
pub mod types;
pub mod uint;
pub mod stack;
pub mod account;
pub mod machine;
pub mod precompile;
pub mod tracing;
pub mod struct_logger;
pub mod block_hash;
pub mod database;
pub mod solana;
pub mod executor;
pub mod account_storage;
