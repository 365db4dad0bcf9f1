use vstd::prelude::*;

verus! {

/// The offset of the flag register from the base of the UART.
pub const FLAG_REGISTER_OFFSET: usize = 0x18;

/// The bit of the flag register set while the transmit FIFO is full.
pub const TX_FIFO_FULL_BIT: u32 = 5;

/// One step of printing a byte: wait while the transmit FIFO is full, then write the byte to
/// the data register.
#[derive(Debug, Copy, Clone, PartialEq, Eq, Structural)]
pub enum PutcStep {
    Wait,
    Write { address: usize, value: u32 },
}

/// The transmit FIFO is full, according to the flag register's value.
pub open spec fn spec_tx_fifo_full(flag_register: u32) -> bool {
    flag_register & (1u32 << TX_FIFO_FULL_BIT) > 0
}

/// A PL011 UART whose registers start at `base`.
pub struct Pl011 {
    base: usize,
}

impl Pl011 {
    /// The address of the UART's registers.
    pub closed spec fn spec_base(&self) -> usize {
        self.base
    }

    /// The UART whose registers start at `base`.
    pub fn new(base: usize) -> (p: Self)
        ensures
            p.spec_base() == base,
    {
        Self { base }
    }

    /// The address of the flag register.
    pub fn flag_register_address(&self) -> (a: usize)
        requires
            self.spec_base() + FLAG_REGISTER_OFFSET <= usize::MAX,
        ensures
            a == self.spec_base() + FLAG_REGISTER_OFFSET,
    {
        self.base + FLAG_REGISTER_OFFSET
    }

    /// The transmit FIFO is full, according to the flag register's value.
    pub fn tx_fifo_full(&self, flag_register: u32) -> (b: bool)
        ensures
            b == spec_tx_fifo_full(flag_register),
    {
        flag_register & (1 << TX_FIFO_FULL_BIT) > 0
    }

    /// The next step of printing `b`, given the value the flag register holds: wait while the
    /// transmit FIFO is full, else write `b` to the data register at the base.
    pub fn putc(&self, flag_register: u32, b: u8) -> (step: PutcStep)
        ensures
            spec_tx_fifo_full(flag_register) ==> step == PutcStep::Wait,
            !spec_tx_fifo_full(flag_register) ==> step == (PutcStep::Write {
                address: self.spec_base(),
                value: b as u32,
            }),
    {
        if self.tx_fifo_full(flag_register) {
            return PutcStep::Wait;
        }
        PutcStep::Write { address: self.base, value: b as u32 }
    }
}

/// The transmit FIFO is full exactly when bit 5 (TXFF) of the flag register is set, whatever
/// the other bits (BUSY, the receive flags, ...) hold: printing waits on that bit alone.
pub proof fn lemma_tx_fifo_full_is_bit_5(flag_register: u32)
    ensures
        spec_tx_fifo_full(flag_register) == ((flag_register >> 5u32) & 1u32 == 1u32),
        spec_tx_fifo_full(flag_register) == spec_tx_fifo_full(flag_register & 0x20u32),
{
    assert((flag_register & (1u32 << 5u32) > 0 <==> (flag_register >> 5u32) & 1u32 == 1u32) && (
    flag_register & (1u32 << 5u32) > 0 <==> (flag_register & 0x20u32) & (1u32 << 5u32) > 0)) by (bit_vector);
}

} // verus!
