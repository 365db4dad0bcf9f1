use vstd::prelude::*;

use crate::hal_riscv64::irq::{
    spec_interrupt_type, spec_is_interrupt, spec_trap_code, InterruptType, TrapType,
};

verus! {

/// What the low-level trap handler does once the trap was dispatched.
#[derive(Debug, Copy, Clone, PartialEq, Eq, Structural)]
pub struct TrapReturnValues {
    pub need_pc_increment: u64,
    pub abort_to_kernel: u64,
}

/// The handlers of the interrupt vector, by interrupt code.
#[derive(Debug, Copy, Clone, PartialEq, Eq, Structural)]
pub enum InterruptHandler {
    Undefined,
    Timer,
    Plic,
}

/// The number of entries of the interrupt vector.
pub const INTERRUPT_VECTOR_LEN: u64 = 10;

/// The handler of the interrupt vector at `code`: the timer at 5, the interrupt controller at
/// 9, none elsewhere.
pub open spec fn spec_interrupt_handler(code: u64) -> InterruptHandler {
    if code == 5 {
        InterruptHandler::Timer
    } else if code == 9 {
        InterruptHandler::Plic
    } else {
        InterruptHandler::Undefined
    }
}

/// The handler of the interrupt vector at `code`.
pub fn interrupt_vector(code: u64) -> (h: InterruptHandler)
    requires
        code < INTERRUPT_VECTOR_LEN,
    ensures
        h == spec_interrupt_handler(code),
{
    if code == 5 {
        InterruptHandler::Timer
    } else if code == 9 {
        InterruptHandler::Plic
    } else {
        InterruptHandler::Undefined
    }
}

/// The interrupts of the hart.
pub struct Interrupts {}

/// Dispatches a trap from its `scause`: the handler of the interrupt vector to call, and
/// `need_pc_increment` 0 if the trap was synchronous, 1 otherwise. Every interrupt is
/// asynchronous, so an interrupt always gives 1. Exceptions are not handled.
pub fn trap_dispatch(cause: u64, _syscall_number: usize) -> (r: (InterruptHandler, TrapReturnValues))
    requires
        spec_is_interrupt(cause),
        spec_interrupt_type(spec_trap_code(cause)) != InterruptType::Reserved,
        spec_trap_code(cause) < INTERRUPT_VECTOR_LEN,
    ensures
        r.0 == spec_interrupt_handler(spec_trap_code(cause)),
        r.1 == (TrapReturnValues {
            need_pc_increment: 1,
            abort_to_kernel: 0,
        }),
{
    match TrapType::from(cause) {
        TrapType::Interrupt(itype) => {
            let exception_code: u64 = itype.code();
            let handler = interrupt_vector(exception_code);
            (handler, TrapReturnValues { need_pc_increment: 1, abort_to_kernel: 0 })
        },
        TrapType::Exception(_) => (
            InterruptHandler::Undefined,
            TrapReturnValues { need_pc_increment: 0, abort_to_kernel: 0 },
        ),
    }
}

} // verus!
