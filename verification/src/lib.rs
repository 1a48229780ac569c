//! Azimuth: a stack-based bytecode virtual machine. An image is loaded from
//! bytes, checked, and run on a stack of 64-bit words; a heap in generations
//! stands by.

pub mod common;
pub mod config;
pub mod engine;
pub mod loader;
pub mod memory;
