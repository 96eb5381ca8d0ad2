//! Core logic of a small x86-64 kernel: lexing for the embedded compiler,
//! the initial ram filesystem, timekeeping, physical frame and slab
//! allocation, and the pure decision logic behind interrupts, PCI
//! enumeration, system calls and the module registry.
use vstd::prelude::*;

pub mod bitmap;
pub mod descriptors;
pub mod fault;
pub mod ffi;
pub mod initramfs;
pub mod interrupts;
pub mod lexer;
pub mod modules;
pub mod pci;
pub mod phys;
pub mod syscalls;
pub mod time;
pub mod virt;

verus! {

} // verus!
