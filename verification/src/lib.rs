//! A verified model of the goOSe micro-kernel's hardware-independent logic:
//! address ranges and page alignment, the physical memory manager, the Sv39
//! page-table encodings, trap decoding and the small driver helpers.

pub mod hal_core;
pub mod kernel;
pub mod drivers;
pub mod hal_aarch64;
pub mod hal_riscv64;
