use vstd::prelude::*;

pub mod interrupts;
pub mod page_map;
pub mod sv39;

verus! {

/// The RISC-V 64 architecture.
pub struct Riscv64 {}

impl Riscv64 {
    /// The architecture.
    pub fn new() -> (r: Self) {
        Self {}
    }
}

} // verus!
