//! An embeddable key-value store with a small query language and
//! permission tiers.

pub mod client;
pub mod error;
pub mod filesystem;
pub mod keys;
pub mod lexer;
pub mod memory;
pub mod messaging;
pub mod number;
pub mod parser;
pub mod permission;
pub mod runtime;
pub mod server;
pub mod storage;
pub mod table;
pub mod text;
