use vstd::prelude::*;

use crate::kernel::arch::ArchitectureInterrupts;

verus! {

/// Drives the interrupts of the architecture.
pub struct InterruptManager<I> {
    arch_interrupts: I,
}

impl<I: ArchitectureInterrupts> InterruptManager<I> {
    /// The architecture interrupts it drives.
    pub closed spec fn arch(&self) -> I {
        self.arch_interrupts
    }

    /// A manager driving `arch_interrupts`.
    pub fn new(arch_interrupts: I) -> (m: Self)
        ensures
            m.arch() == arch_interrupts,
    {
        Self { arch_interrupts }
    }

    /// Sets the interrupts of the architecture up.
    pub fn init_interrupts(&mut self)
        ensures
            final(self).arch() == old(self).arch().after_init(),
    {
        self.arch_interrupts.init_interrupts();
    }

    /// Arms the timer to fire after `delay` ticks.
    pub fn set_timer(&mut self, delay: usize)
        ensures
            final(self).arch() == old(self).arch().after_set_timer(delay),
    {
        self.arch_interrupts.set_timer(delay);
    }
}

} // verus!
