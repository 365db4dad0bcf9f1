use vstd::prelude::*;

use crate::drivers::Driver;

verus! {

/// The address of the device that ends a QEMU run on RISC-V.
pub const RISCV64_BASE_ADDRESS: usize = 0x100000;

/// The device that ends a QEMU run, whose register is at `address`.
#[derive(Debug)]
pub struct QemuExit {
    address: usize,
}

impl QemuExit {
    /// The address of the device's register.
    pub closed spec fn spec_address(&self) -> usize {
        self.address
    }

    /// The device at its address on RISC-V.
    pub fn new() -> (q: Self)
        ensures
            q.spec_address() == RISCV64_BASE_ADDRESS,
    {
        Self { address: RISCV64_BASE_ADDRESS }
    }

    /// The address of the device's register.
    pub fn address(&self) -> (a: usize)
        ensures
            a == self.spec_address(),
    {
        self.address
    }
}

impl Driver for QemuExit {
    /// The device has one byte of registers.
    fn get_address_range(&self) -> (r: Option<(usize, usize)>)
        ensures
            r == Some((self.spec_address(), 1usize)),
    {
        Some((self.address, 1))
    }
}

} // verus!
