//! A toy register machine: a fixed instruction set, an assembler that turns
//! mnemonic source text into bytecode, and an engine that executes it.
//!
//! Every function of this crate is verified with Verus against the contract
//! written on it.

pub mod text;
pub mod data;
pub mod bytecode;
pub mod assembler;
pub mod vm;
pub mod agreement;
pub mod repl;
