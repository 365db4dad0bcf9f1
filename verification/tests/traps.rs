use goose::drivers::gicv2::{GicRegister, GicV2, RegisterWrite};
use goose::hal_aarch64::irq::{aarch64_common_trap, Aarch64Irqs, InterruptType as ArmInterrupt, TimerIrq};
use goose::hal_riscv64::irq::{
    c_trap_dispatch, ExceptionType, InterruptType, IrqAction, Riscv64Irqs, TrapType, PLIC_BASE,
};
use goose::kernel::arch::riscv64::interrupts::{trap_dispatch, InterruptHandler, TrapReturnValues};

const INTERRUPT_BIT: u64 = 1 << 63;

#[test]
fn interrupt_codes() {
    assert_eq!(InterruptType::from(1), InterruptType::SupervisorSoftware);
    assert_eq!(InterruptType::from(5), InterruptType::SupervisorTimer);
    assert_eq!(InterruptType::from(9), InterruptType::SupervisorExternal);
    assert_eq!(InterruptType::from(3), InterruptType::Reserved);
    assert_eq!(InterruptType::from(20), InterruptType::Platform(20));
    assert_eq!(InterruptType::SupervisorTimer.code(), 5);
    assert_eq!(InterruptType::Platform(20).code(), 20);
}

#[test]
fn exception_codes() {
    assert_eq!(ExceptionType::from(2), ExceptionType::IllegalInstruction);
    assert_eq!(ExceptionType::from(13), ExceptionType::LoadPageFault);
    assert_eq!(ExceptionType::from(15), ExceptionType::StoreAMOPageFault);
    assert_eq!(ExceptionType::from(14), ExceptionType::Reserved);
    assert_eq!(ExceptionType::from(30), ExceptionType::Custom(30));
    assert_eq!(ExceptionType::from(50), ExceptionType::Custom(50));
    assert_eq!(ExceptionType::from(40), ExceptionType::Reserved);
    assert_eq!(ExceptionType::from(70), ExceptionType::Reserved);
}

#[test]
fn trap_type_from_cause() {
    assert!(TrapType::is_interrupt(INTERRUPT_BIT | 5));
    assert!(!TrapType::is_interrupt(5));
    assert!(TrapType::from(INTERRUPT_BIT | 5) == TrapType::Interrupt(InterruptType::SupervisorTimer));
    assert!(TrapType::from(8) == TrapType::Exception(ExceptionType::EnvironmentCallUMode));
}

#[test]
fn riscv_dispatch_timer_and_external() {
    let mut irqs = Riscv64Irqs::new();
    assert_eq!(
        c_trap_dispatch(&irqs, INTERRUPT_BIT | 5),
        (IrqAction::Timer { callback: None }, 1)
    );
    irqs.set_timer_handler(0x1234);
    assert_eq!(
        c_trap_dispatch(&irqs, INTERRUPT_BIT | 5),
        (IrqAction::Timer { callback: Some(0x1234) }, 1)
    );
    assert_eq!(c_trap_dispatch(&irqs, INTERRUPT_BIT | 9), (IrqAction::External, 1));
    irqs.init_irq_chip();
    assert_eq!(irqs.irq_chip, Some(PLIC_BASE));
}

#[test]
fn kernel_trap_dispatch_vector() {
    assert_eq!(
        trap_dispatch(INTERRUPT_BIT | 5, 0),
        (InterruptHandler::Timer, TrapReturnValues { need_pc_increment: 1, abort_to_kernel: 0 })
    );
    assert_eq!(
        trap_dispatch(INTERRUPT_BIT | 9, 0),
        (InterruptHandler::Plic, TrapReturnValues { need_pc_increment: 1, abort_to_kernel: 0 })
    );
    assert_eq!(
        trap_dispatch(INTERRUPT_BIT | 1, 0),
        (InterruptHandler::Undefined, TrapReturnValues { need_pc_increment: 1, abort_to_kernel: 0 })
    );
}

#[test]
fn aarch64_vector_offsets() {
    assert_eq!(aarch64_common_trap(0x000), ArmInterrupt::SyncCurrentElSp0);
    assert_eq!(aarch64_common_trap(0x080), ArmInterrupt::IrqCurrentElSp0);
    assert_eq!(aarch64_common_trap(0x0ff), ArmInterrupt::IrqCurrentElSp0);
    assert_eq!(aarch64_common_trap(0x280), ArmInterrupt::IrqCurrentElSpx);
    assert_eq!(aarch64_common_trap(0x480), ArmInterrupt::IrqLowerEl);
    assert_eq!(aarch64_common_trap(0x7ff), ArmInterrupt::SerrorLowerElAarch32);
}

#[test]
fn aarch64_timer_irq() {
    let mut irqs = Aarch64Irqs::new();
    irqs.set_timer_handler(0x42);
    assert_eq!(
        irqs.handler(ArmInterrupt::IrqCurrentElSp0, 30),
        TimerIrq { callback: Some(0x42), end_of_interrupt: 30 }
    );
}

#[test]
fn aarch64_timer_enables_its_line() {
    let mut irqs = Aarch64Irqs::new();
    irqs.init_irq_chip();
    assert_eq!(irqs.irq_chip, Some(GicV2::new(0x800_0000, 0x801_0000)));
    let writes = irqs.set_timer(0b1);
    assert_eq!(
        writes,
        vec![
            RegisterWrite { register: GicRegister::IsEnabler(0), value: (1 << 30) | 1 },
            RegisterWrite { register: GicRegister::IPriorityr(30), value: 0x80 },
        ]
    );
}
