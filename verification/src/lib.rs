//! Core algorithms and data structures of healer: syscall type descriptions,
//! values, the dummy memory allocators, value generation and mutation helpers.

pub mod allocator;
pub mod config;
pub mod context;
pub mod crash;
pub mod feedback;
pub mod gen;
pub mod hashed;
pub mod hlang;
pub mod idset;
pub mod len;
pub mod lists;
pub mod mutation;
pub mod parse;
pub mod qemu;
pub mod rng;
pub mod sampler;
pub mod setup;
pub mod size;
pub mod split;
pub mod strings;
pub mod syscall;
pub mod target;
pub mod ty;
pub mod value;
pub mod vm;
