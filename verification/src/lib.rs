//! Core of an IR toolkit for a SPIR-V-like binary format: lowering a decoded
//! instruction stream into a module, and merging one module into another.

pub mod attrs;
pub mod collect;
pub mod context;
pub mod dialect;
pub mod ir;
pub mod lists;
pub mod literal;
pub mod lower;
pub mod merge;
pub mod module;
pub mod reach;
pub mod rewrite;
pub mod spv;
pub mod tables;
