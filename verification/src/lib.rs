//! A small virtual machine for the eight-instruction tape language.

pub mod clock;
pub mod command;
pub mod engine;
pub mod error;
pub mod interpreter;
pub mod jumps;
pub mod machine;
