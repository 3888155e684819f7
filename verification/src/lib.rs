//! Runtime code-patching engine: an x86-64 instruction codec for prolog
//! patching, a protection-aware memory-write layer over a region model,
//! a loader for the `.mldyn` / `.mlhook` metadata sections of ELF and PE
//! images, and the hook installer that ties them together.

pub mod defs;
pub mod arch;
pub mod memory;
pub mod hook;
pub mod tramp;
pub mod ext;
pub mod loader;
pub mod maps;
pub mod protect;
pub mod ldpath;
