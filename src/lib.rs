//! Verified core of a hybrid hypervisor/emulator execution engine: guest
//! physical memory views, an x86-64 page-table walker, memory region
//! synthesis, dirty-page restore, coverage tracking, module-list walking,
//! a copy-on-write virtual disk and the exit-handling state machine.

pub mod virtmem;
pub mod physmem;
pub mod regions;
pub mod dirty;
pub mod fmt;
pub mod win32;
pub mod modlist;
pub mod coverage;
pub mod exec;
pub mod timebase;
pub mod tracker;
pub mod disk;
pub mod devstate;
pub mod laws;
pub mod context;
pub mod symbols;
