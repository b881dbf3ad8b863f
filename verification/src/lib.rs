//! An EVM decompiler whose core transformations are verified.
//!
//! The decompiler works in stages: loading and disassembly, symbolic
//! execution, loop recovery, folding of branchless paths into structured
//! code, algebraic simplification and pretty printing.

pub mod evm_core;
pub mod text;
pub mod prettify;
pub mod matcher;
pub mod stack;
pub mod loader;
pub mod sparser;
pub mod whiles;
pub mod vm;
pub mod function;
pub mod folder;
pub mod contract;
pub mod decompiler;

pub use decompiler::{Decompiler, decompile_bytecode, pretty_contract};
