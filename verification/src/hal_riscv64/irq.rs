use vstd::prelude::*;

verus! {

/// The kind of an interrupt, from its code in `scause`.
#[derive(Debug, Copy, Clone, PartialEq, Eq, Structural)]
pub enum InterruptType {
    Reserved,
    SupervisorSoftware,
    SupervisorTimer,
    SupervisorExternal,
    Platform(u64),
}

/// The kind of the interrupt with code `code`.
pub open spec fn spec_interrupt_type(code: u64) -> InterruptType {
    if code == 1 {
        InterruptType::SupervisorSoftware
    } else if code == 5 {
        InterruptType::SupervisorTimer
    } else if code == 9 {
        InterruptType::SupervisorExternal
    } else if code <= 15 {
        InterruptType::Reserved
    } else {
        InterruptType::Platform(code)
    }
}

impl InterruptType {
    /// The kind of the interrupt with code `code`.
    pub fn from(code: u64) -> (t: Self)
        ensures
            t == spec_interrupt_type(code),
    {
        match code {
            0 | 2..=4 | 6..=8 | 10..=15 => Self::Reserved,
            1 => Self::SupervisorSoftware,
            5 => Self::SupervisorTimer,
            9 => Self::SupervisorExternal,
            _ => Self::Platform(code),
        }
    }

    /// The code of the interrupt kind; reserved codes have none.
    pub fn code(self) -> (c: u64)
        requires
            self != InterruptType::Reserved,
        ensures
            spec_interrupt_type(c) == self || self is Platform && c == self->0,
            match self {
                InterruptType::Platform(code) => c == code,
                InterruptType::SupervisorSoftware => c == 1,
                InterruptType::SupervisorTimer => c == 5,
                InterruptType::SupervisorExternal => c == 9,
                InterruptType::Reserved => false,
            },
    {
        match self {
            InterruptType::Platform(code) => code,
            InterruptType::SupervisorSoftware => 1,
            InterruptType::SupervisorTimer => 5,
            InterruptType::SupervisorExternal => 9,
            InterruptType::Reserved => 0,
        }
    }
}

/// The kind of an exception, from its code in `scause`.
#[derive(Debug, Copy, Clone, PartialEq, Eq, Structural)]
pub enum ExceptionType {
    Reserved,
    Custom(u64),
    InstructionAddressMisaligned,
    InstructionAccessFault,
    IllegalInstruction,
    Breakpoint,
    LoadAddressMisaligned,
    LoadAccessFault,
    StoreAMOAddressMisaligned,
    StoreAMOAccessFault,
    EnvironmentCallUMode,
    EnvironmentCallSMode,
    InstructionPageFault,
    LoadPageFault,
    StoreAMOPageFault,
}

/// The kind of the exception with code `code`.
pub open spec fn spec_exception_type(code: u64) -> ExceptionType {
    if code >= 64 || (10 <= code <= 11) || code == 14 || (16 <= code <= 23) || (32 <= code <= 47) {
        ExceptionType::Reserved
    } else if (24 <= code <= 31) || (48 <= code <= 63) {
        ExceptionType::Custom(code)
    } else if code == 0 {
        ExceptionType::InstructionAddressMisaligned
    } else if code == 1 {
        ExceptionType::InstructionAccessFault
    } else if code == 2 {
        ExceptionType::IllegalInstruction
    } else if code == 3 {
        ExceptionType::Breakpoint
    } else if code == 4 {
        ExceptionType::LoadAddressMisaligned
    } else if code == 5 {
        ExceptionType::LoadAccessFault
    } else if code == 6 {
        ExceptionType::StoreAMOAddressMisaligned
    } else if code == 7 {
        ExceptionType::StoreAMOAccessFault
    } else if code == 8 {
        ExceptionType::EnvironmentCallUMode
    } else if code == 9 {
        ExceptionType::EnvironmentCallSMode
    } else if code == 12 {
        ExceptionType::InstructionPageFault
    } else if code == 13 {
        ExceptionType::LoadPageFault
    } else {
        ExceptionType::StoreAMOPageFault
    }
}

impl ExceptionType {
    /// The kind of the exception with code `code`.
    pub fn from(code: u64) -> (t: Self)
        ensures
            t == spec_exception_type(code),
    {
        match code {
            10..=11 | 14 | 16..=23 | 32..=47 => Self::Reserved,
            c if c >= 64 => Self::Reserved,
            24..=31 | 48..=63 => Self::Custom(code),
            0 => Self::InstructionAddressMisaligned,
            1 => Self::InstructionAccessFault,
            2 => Self::IllegalInstruction,
            3 => Self::Breakpoint,
            4 => Self::LoadAddressMisaligned,
            5 => Self::LoadAccessFault,
            6 => Self::StoreAMOAddressMisaligned,
            7 => Self::StoreAMOAccessFault,
            8 => Self::EnvironmentCallUMode,
            9 => Self::EnvironmentCallSMode,
            12 => Self::InstructionPageFault,
            13 => Self::LoadPageFault,
            _ => Self::StoreAMOPageFault,
        }
    }
}

/// A trap: an interrupt or an exception.
#[derive(Debug, Copy, Clone, PartialEq, Eq, Structural)]
pub enum TrapType {
    Interrupt(InterruptType),
    Exception(ExceptionType),
}

/// The top bit of `scause` tells an interrupt from an exception.
pub open spec fn spec_is_interrupt(cause: u64) -> bool {
    (cause >> 63u64) == 1
}

/// `scause` without its top bit: the code of the interrupt or exception.
pub open spec fn spec_trap_code(cause: u64) -> u64 {
    cause & !(1u64 << 63u64)
}

/// The trap that `scause` describes.
pub open spec fn spec_trap_type(cause: u64) -> TrapType {
    if spec_is_interrupt(cause) {
        TrapType::Interrupt(spec_interrupt_type(spec_trap_code(cause)))
    } else {
        TrapType::Exception(spec_exception_type(spec_trap_code(cause)))
    }
}

impl TrapType {
    /// The top bit of `cause` is set.
    pub fn is_interrupt(cause: u64) -> (b: bool)
        ensures
            b == spec_is_interrupt(cause),
    {
        (cause >> 63) == 1
    }

    /// The trap that `scause` describes.
    pub fn from(cause: u64) -> (t: Self)
        ensures
            t == spec_trap_type(cause),
    {
        let exception_code = cause & !(1 << 63);
        if Self::is_interrupt(cause) {
            Self::Interrupt(InterruptType::from(exception_code))
        } else {
            Self::Exception(ExceptionType::from(exception_code))
        }
    }
}

/// What the trap handler does for an interrupt.
#[derive(Debug, Copy, Clone, PartialEq, Eq, Structural)]
pub enum IrqAction {
    /// Call the timer callback, if one is set (its address), then clear the timer.
    Timer { callback: Option<usize> },
    /// Nothing to do for an external interrupt yet.
    External,
}

/// The interrupt state of the hart: the base of the interrupt controller once set up and the
/// address of the function the timer calls, if one is set.
#[derive(Debug)]
pub struct Riscv64Irqs {
    pub irq_chip: Option<usize>,
    pub timer_callback: Option<usize>,
}

/// The base address of the platform interrupt controller.
pub const PLIC_BASE: usize = 0xc000000;

impl Riscv64Irqs {
    /// No interrupt controller and no timer callback yet.
    pub fn new() -> (irqs: Self)
        ensures
            irqs.irq_chip is None,
            irqs.timer_callback is None,
    {
        Self { irq_chip: None, timer_callback: None }
    }

    /// Records the interrupt controller; it must not have been set up before.
    pub fn init_irq_chip(&mut self)
        requires
            old(self).irq_chip is None,
        ensures
            final(self).irq_chip == Some(PLIC_BASE),
            final(self).timer_callback == old(self).timer_callback,
    {
        self.irq_chip = Some(PLIC_BASE);
    }

    /// Records the function the timer calls.
    pub fn set_timer_handler(&mut self, h: usize)
        ensures
            final(self).timer_callback == Some(h),
            final(self).irq_chip == old(self).irq_chip,
    {
        self.timer_callback = Some(h);
    }

    /// What to do for the interrupt with code `exception_code`: the timer and external
    /// interrupts are handled, any other one is not.
    pub fn trap_dispatch(&self, exception_code: u64) -> (a: IrqAction)
        requires
            spec_interrupt_type(exception_code) == InterruptType::SupervisorTimer
                || spec_interrupt_type(exception_code) == InterruptType::SupervisorExternal,
        ensures
            spec_interrupt_type(exception_code) == InterruptType::SupervisorTimer ==> a
                == (IrqAction::Timer { callback: self.timer_callback }),
            spec_interrupt_type(exception_code) == InterruptType::SupervisorExternal ==> a
                == IrqAction::External,
    {
        match InterruptType::from(exception_code) {
            InterruptType::SupervisorTimer => IrqAction::Timer { callback: self.timer_callback },
            _ => IrqAction::External,
        }
    }
}

/// Dispatches a trap from its `scause`: the action for the interrupt, and 0 if the trap was
/// synchronous, 1 otherwise. Every interrupt is asynchronous, so both handled interrupts (the
/// timer and the external one) give 1.
pub fn c_trap_dispatch(irqs: &Riscv64Irqs, cause: u64) -> (r: (IrqAction, u64))
    requires
        spec_is_interrupt(cause),
        spec_interrupt_type(spec_trap_code(cause)) == InterruptType::SupervisorTimer
            || spec_interrupt_type(spec_trap_code(cause)) == InterruptType::SupervisorExternal,
    ensures
        spec_interrupt_type(spec_trap_code(cause)) == InterruptType::SupervisorTimer ==> r == (
        IrqAction::Timer { callback: irqs.timer_callback },
        1u64,
        ),
        spec_interrupt_type(spec_trap_code(cause)) == InterruptType::SupervisorExternal ==> r == (
        IrqAction::External,
        1u64,
        ),
{
    match TrapType::from(cause) {
        TrapType::Interrupt(itype) => {
            let exception_code: u64 = itype.code();
            let action = irqs.trap_dispatch(exception_code);
            (action, 1)
        },
        TrapType::Exception(_) => (IrqAction::External, 0),
    }
}

/// Decoding a trap code and encoding the kind back gives the code again, for every code that is
/// not reserved.
pub proof fn lemma_interrupt_code_round_trip(code: u64)
    requires
        spec_interrupt_type(code) != InterruptType::Reserved,
    ensures
        match spec_interrupt_type(code) {
            InterruptType::Platform(c) => c == code,
            InterruptType::SupervisorSoftware => code == 1,
            InterruptType::SupervisorTimer => code == 5,
            InterruptType::SupervisorExternal => code == 9,
            InterruptType::Reserved => false,
        },
{
}

/// Decoding `scause` follows the exception cause table of the RISC-V privileged architecture:
/// when the top bit is clear, the kind the cause decodes to is the one that the table gives to
/// the code in the lower bits (load access fault 5, store/AMO access fault 7, environment calls
/// 8 and 9, page faults 12, 13 and 15, ...), codes 24 to 31 and 48 to 63 are for custom use, and
/// every other code is reserved.
pub proof fn lemma_exception_cause_table(cause: u64)
    requires
        !spec_is_interrupt(cause),
    ensures
        ({
            let code = cause & !(1u64 << 63u64);
            match spec_trap_type(cause) {
                TrapType::Exception(kind) => match kind {
                    ExceptionType::InstructionAddressMisaligned => code == 0,
                    ExceptionType::InstructionAccessFault => code == 1,
                    ExceptionType::IllegalInstruction => code == 2,
                    ExceptionType::Breakpoint => code == 3,
                    ExceptionType::LoadAddressMisaligned => code == 4,
                    ExceptionType::LoadAccessFault => code == 5,
                    ExceptionType::StoreAMOAddressMisaligned => code == 6,
                    ExceptionType::StoreAMOAccessFault => code == 7,
                    ExceptionType::EnvironmentCallUMode => code == 8,
                    ExceptionType::EnvironmentCallSMode => code == 9,
                    ExceptionType::InstructionPageFault => code == 12,
                    ExceptionType::LoadPageFault => code == 13,
                    ExceptionType::StoreAMOPageFault => code == 15,
                    ExceptionType::Custom(c) => c == code && (24 <= code <= 31 || 48 <= code <= 63),
                    ExceptionType::Reserved => code == 10 || code == 11 || code == 14 || (16 <= code
                        <= 23) || (32 <= code <= 47) || code >= 64,
                },
                TrapType::Interrupt(_) => false,
            }
        }),
{
}

} // verus!
