use vstd::prelude::*;

pub mod irq;
pub mod mm;

verus! {

/// The state the hardware abstraction layer reports on a kernel panic: nothing on this
/// architecture.
pub fn panic_info() {
}

/// The core id is kept in the `sscratch` register by early boot code.
pub struct Riscv64CoreInfo;

} // verus!
