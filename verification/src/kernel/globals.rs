use vstd::prelude::*;

verus! {

/// How far the kernel is in its initialization.
#[derive(Debug, Copy, Clone, PartialEq, Eq, Structural)]
pub enum KernelState {
    EarlyInit,
    MmuEnabledInit,
}

impl KernelState {
    /// The kernel is still in early initialization.
    pub fn is_earlyinit(&self) -> (b: bool)
        ensures
            b == (*self == KernelState::EarlyInit),
    {
        matches!(self, Self::EarlyInit)
    }

    /// The kernel runs with the MMU on.
    pub fn is_mmu_enabled(&self) -> (b: bool)
        ensures
            b == (*self == KernelState::MmuEnabledInit),
    {
        matches!(self, Self::MmuEnabledInit)
    }
}

} // verus!
