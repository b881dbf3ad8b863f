//! Core types and operations for the EVM decompiler

pub mod types;
pub mod algebra;
pub mod arithmetic;
pub mod memloc;
pub mod masks;
