use vstd::prelude::*;

verus! {

/// An interrupt line number.
pub type IrqLine = usize;

/// The interrupts the kernel handles.
#[derive(Debug, Copy, Clone, PartialEq, Eq, Structural)]
pub enum Interrupt {
    PhysicalTimer,
}

} // verus!
