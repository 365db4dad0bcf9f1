use vstd::prelude::*;

use crate::drivers::pl011::{spec_tx_fifo_full, PutcStep, FLAG_REGISTER_OFFSET, TX_FIFO_FULL_BIT};
use crate::drivers::Driver;
use crate::kernel::lock::Lock;

verus! {

/// The highest offset of a register of the UART.
pub const MAX_REGISTER_OFFSET: usize = 0xFFC;

/// The registers of a PL011 UART, from `base` on.
pub struct Pl011Inner {
    pub base: usize,
}

impl Pl011Inner {
    /// The UART whose registers start at `base`.
    pub fn new(base: usize) -> (p: Self)
        ensures
            p.base == base,
    {
        Self { base }
    }

    /// The address of the flag register.
    pub fn flag_register_address(&self) -> (a: usize)
        requires
            self.base + FLAG_REGISTER_OFFSET <= usize::MAX,
        ensures
            a == self.base + FLAG_REGISTER_OFFSET,
    {
        self.base + FLAG_REGISTER_OFFSET
    }

    /// The transmit FIFO is full, according to the flag register's value.
    pub fn tx_fifo_full(&self, flag_register: u32) -> (b: bool)
        ensures
            b == spec_tx_fifo_full(flag_register),
    {
        flag_register & (1 << TX_FIFO_FULL_BIT) > 0
    }

    /// The next step of printing `b`, given the value the flag register holds: wait while the
    /// transmit FIFO is full, else write `b` to the data register at the base.
    pub fn putc(&self, flag_register: u32, b: u8) -> (step: PutcStep)
        ensures
            spec_tx_fifo_full(flag_register) ==> step == PutcStep::Wait,
            !spec_tx_fifo_full(flag_register) ==> step == (PutcStep::Write {
                address: self.base,
                value: b as u32,
            }),
    {
        if self.tx_fifo_full(flag_register) {
            return PutcStep::Wait;
        }
        PutcStep::Write { address: self.base, value: b as u32 }
    }
}

/// A PL011 UART behind a lock.
pub struct Pl011 {
    inner: Lock<Pl011Inner>,
}

impl Pl011 {
    /// The address of the UART's registers.
    pub closed spec fn spec_base(&self) -> usize {
        self.inner.value().base
    }

    /// The UART whose registers start at `base`.
    pub fn new(base: usize) -> (p: Self)
        ensures
            p.spec_base() == base,
    {
        Self { inner: Lock::new(Pl011Inner::new(base)) }
    }

    /// The registers of the UART.
    pub fn inner(&self) -> (r: &Pl011Inner)
        ensures
            r.base == self.spec_base(),
    {
        self.inner.get()
    }
}

impl Driver for Pl011 {
    /// The base address and the highest register offset.
    fn get_address_range(&self) -> (r: Option<(usize, usize)>)
        ensures
            r == Some((self.spec_base(), MAX_REGISTER_OFFSET)),
    {
        Some((self.inner.get().base, MAX_REGISTER_OFFSET))
    }
}

} // verus!
