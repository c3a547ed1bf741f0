//! A small x86-64 machine runtime: register file, flags, decoder, executor,
//! page-table walker, physical memory, serial device and snapshot manifests.

pub mod arith;
pub mod boot;
pub mod decode;
pub mod demo;
pub mod devices;
pub mod execute;
pub mod flags;
pub mod history;
pub mod laws;
pub mod machine;
pub mod memory;
pub mod mmu;
pub mod registers;
pub mod snapshot;
pub mod system;
pub mod width;
