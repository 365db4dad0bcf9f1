use vstd::prelude::*;

pub mod riscv64;

verus! {

/// Each core has its own copy of this.
pub struct PerCoreContext {
    pub coreid: u32,
}

/// The interrupt operations an architecture offers.
pub trait ArchitectureInterrupts: Sized {
    /// The state of the interrupts once they are set up from the state `self`.
    spec fn after_init(self) -> Self;

    /// The state of the interrupts once the timer is armed from the state `self` to fire after
    /// `delay` ticks.
    spec fn after_set_timer(self, delay: usize) -> Self;

    /// Sets the interrupts up.
    fn init_interrupts(&mut self)
        ensures
            *final(self) == old(self).after_init(),
    ;

    /// Arms the timer to fire after `delay` ticks.
    fn set_timer(&mut self, delay: usize)
        ensures
            *final(self) == old(self).after_set_timer(delay),
    ;
}

} // verus!
