//! Loader and interpreter for precompiled Lua 5.1 bytecode chunks.
pub mod error;
pub mod instruction;
pub mod reader;
pub mod chunk;
pub mod table;
pub mod vm;
pub mod stream;
