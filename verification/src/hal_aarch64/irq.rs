use vstd::prelude::*;

use crate::drivers::gicv2::{GicRegister, GicV2, RegisterWrite};

verus! {

/// The address of the distributor registers of the GIC of the board.
pub const GICD_BASE: usize = 0x800_0000;

/// The address of the CPU interface registers of the GIC of the board.
pub const GICC_BASE: usize = 0x801_0000;

/// The interrupt line of the physical timer.
pub const PHYSICAL_TIMER_LINE: u32 = 30;

/// The kind of an exception, from the entry of the vector table it was taken through.
#[derive(Debug, Copy, Clone, PartialEq, Eq, Structural)]
pub enum InterruptType {
    // Current EL with SP0
    SyncCurrentElSp0,
    IrqCurrentElSp0,
    FiqCurrentElSp0,
    SerrorCurrentElSp0,
    // Current EL with SPx
    SyncCurrentElSpx,
    IrqCurrentElSpx,
    FiqCurrentElSpx,
    SerrorCurrentElSpx,
    // Lower EL
    SyncLowerEl,
    IrqLowerEl,
    FiqLowerEl,
    SerrorLowerEl,
    // Lower EL with aarch32
    SyncLowerElAarch32,
    IrqLowerElAarch32,
    FiqLowerElAarch32,
    SerrorLowerElAarch32,
}

/// The position of the kind in the vector table: each entry takes 0x80 bytes.
pub open spec fn vector_index(t: InterruptType) -> int {
    match t {
        InterruptType::SyncCurrentElSp0 => 0,
        InterruptType::IrqCurrentElSp0 => 1,
        InterruptType::FiqCurrentElSp0 => 2,
        InterruptType::SerrorCurrentElSp0 => 3,
        InterruptType::SyncCurrentElSpx => 4,
        InterruptType::IrqCurrentElSpx => 5,
        InterruptType::FiqCurrentElSpx => 6,
        InterruptType::SerrorCurrentElSpx => 7,
        InterruptType::SyncLowerEl => 8,
        InterruptType::IrqLowerEl => 9,
        InterruptType::FiqLowerEl => 10,
        InterruptType::SerrorLowerEl => 11,
        InterruptType::SyncLowerElAarch32 => 12,
        InterruptType::IrqLowerElAarch32 => 13,
        InterruptType::FiqLowerElAarch32 => 14,
        InterruptType::SerrorLowerElAarch32 => 15,
    }
}

/// The kind of the exception taken through the vector table entry at `offset`.
pub fn aarch64_common_trap(offset: u64) -> (t: InterruptType)
    requires
        offset <= 0x7ff,
    ensures
        vector_index(t) == offset / 0x80,
{
    match offset {
        0x000..=0x07f => InterruptType::SyncCurrentElSp0,
        0x080..=0x0ff => InterruptType::IrqCurrentElSp0,
        0x100..=0x17f => InterruptType::FiqCurrentElSp0,
        0x180..=0x1ff => InterruptType::SerrorCurrentElSp0,
        0x200..=0x27f => InterruptType::SyncCurrentElSpx,
        0x280..=0x2ff => InterruptType::IrqCurrentElSpx,
        0x300..=0x37f => InterruptType::FiqCurrentElSpx,
        0x380..=0x3ff => InterruptType::SerrorCurrentElSpx,
        0x400..=0x47f => InterruptType::SyncLowerEl,
        0x480..=0x4ff => InterruptType::IrqLowerEl,
        0x500..=0x57f => InterruptType::FiqLowerEl,
        0x580..=0x5ff => InterruptType::SerrorLowerEl,
        0x600..=0x67f => InterruptType::SyncLowerElAarch32,
        0x680..=0x6ff => InterruptType::IrqLowerElAarch32,
        0x700..=0x77f => InterruptType::FiqLowerElAarch32,
        _ => InterruptType::SerrorLowerElAarch32,
    }
}

/// What the handler does for the physical timer: clear the timer, call the callback (its
/// address) if one is set, then signal the end of the interrupt on the timer line.
#[derive(Debug, Copy, Clone, PartialEq, Eq, Structural)]
pub struct TimerIrq {
    pub callback: Option<usize>,
    pub end_of_interrupt: u32,
}

/// The interrupt state of the core: its interrupt controller once set up, and the function the
/// timer calls, if one is set.
#[derive(Debug)]
pub struct Aarch64Irqs {
    pub irq_chip: Option<GicV2>,
    pub timer_callback: Option<usize>,
}

impl Aarch64Irqs {
    /// No interrupt controller and no timer callback yet.
    pub fn new() -> (irqs: Self)
        ensures
            irqs.irq_chip is None,
            irqs.timer_callback is None,
    {
        Self { irq_chip: None, timer_callback: None }
    }

    /// Records the GIC of the board as the interrupt controller; it must not have been set up
    /// before.
    pub fn init_irq_chip(&mut self)
        requires
            old(self).irq_chip is None,
        ensures
            final(self).irq_chip == Some(GicV2 { distributor_base: GICD_BASE, cpu_base: GICC_BASE }),
            final(self).timer_callback == old(self).timer_callback,
    {
        self.irq_chip = Some(GicV2::new(GICD_BASE, GICC_BASE));
    }

    /// Records the function the timer calls.
    pub fn set_timer_handler(&mut self, h: usize)
        ensures
            final(self).timer_callback == Some(h),
            final(self).irq_chip == old(self).irq_chip,
    {
        self.timer_callback = Some(h);
    }

    /// The writes to the interrupt controller that let the physical timer interrupt through,
    /// given the current value of the set-enable register of its line; the controller must be
    /// set up.
    pub fn set_timer(&self, isenabler: u32) -> (writes: Vec<RegisterWrite>)
        requires
            self.irq_chip is Some,
        ensures
            writes@ == seq![
                RegisterWrite {
                    register: GicRegister::IsEnabler((PHYSICAL_TIMER_LINE / 32) as usize),
                    value: isenabler | (1u32 << (PHYSICAL_TIMER_LINE % 32)),
                },
                RegisterWrite { register: GicRegister::IPriorityr(PHYSICAL_TIMER_LINE as usize), value: 0x80 },
            ],
    {
        let gic = match &self.irq_chip {
            Some(gic) => gic,
            None => {
                return Vec::new();
            },
        };
        gic.enable(PHYSICAL_TIMER_LINE as usize, isenabler)
    }

    /// What to do for an exception of kind `kind` when the interrupt controller reports
    /// `pending`: only an IRQ of the physical timer taken at the current level is handled.
    pub fn handler(&self, kind: InterruptType, pending: u32) -> (a: TimerIrq)
        requires
            kind == InterruptType::IrqCurrentElSp0,
            pending == PHYSICAL_TIMER_LINE,
        ensures
            a == (TimerIrq { callback: self.timer_callback, end_of_interrupt: PHYSICAL_TIMER_LINE }),
    {
        TimerIrq { callback: self.timer_callback, end_of_interrupt: pending }
    }
}

} // verus!
