//! Semantic core of a VHDL frontend: the implicit declarations that the
//! language attaches to each type, and cursor-driven completion.

pub mod position;
pub mod entity;
pub mod region;
pub mod standard;
pub mod completion;
