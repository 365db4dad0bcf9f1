use goose::kernel::process::{run, run_in_userland, Process};
use goose::drivers::Driver;
use goose::kernel::drivers::qemuexit::{QemuExit, RISCV64_BASE_ADDRESS};
use goose::hal_core::fake_once_lock::FakeOnceLock;
use goose::hal_core::reentrant_spinlock::RawReentrantSpinlock;
use goose::kernel::driver_manager::num_pages;
use goose::kernel::error::Error;
use goose::kernel::globals::KernelState;
use goose::kernel::kernel_console::{ConsoleAlreadySet, KernelConsole};
use goose::kernel::lock::Lock;
use goose::kernel::tests::{launch, timer_test_done, timer_test_tick, TestResult};

#[test]
fn kernel_state() {
    assert!(KernelState::EarlyInit.is_earlyinit());
    assert!(!KernelState::EarlyInit.is_mmu_enabled());
    assert!(KernelState::MmuEnabledInit.is_mmu_enabled());
    assert!(!KernelState::MmuEnabledInit.is_earlyinit());
}

#[test]
fn launch_aggregates_results() {
    assert_eq!(launch(&vec![]), TestResult::Success);
    assert_eq!(launch(&vec![TestResult::Success, TestResult::Success]), TestResult::Success);
    assert_eq!(launch(&vec![TestResult::Success, TestResult::Failure]), TestResult::Failure);
}

#[test]
fn fake_once_lock() {
    let mut l = FakeOnceLock::new();
    assert!(l.get().is_none());
    assert_eq!(l.set(1), Ok(()));
    assert_eq!(l.set(2), Err(2));
    assert_eq!(l.get(), Some(&1));
}

#[test]
fn reentrant_spinlock() {
    let mut l = RawReentrantSpinlock::new();
    assert!(l.try_lock(1));
    assert!(l.try_lock(1));
    assert!(!l.try_lock(2));
    l.unlock();
    assert!(l.try_lock(2));
    assert!(!l.try_lock(1));
}

#[test]
fn kernel_console_switches_to_console() {
    let mut c = KernelConsole::new(1);
    assert_eq!(*c.target(), 1);
    c.set_earlyinit_console(5);
    assert_eq!(*c.target(), 5);
    assert_eq!(c.set_console(2), Ok(()));
    assert_eq!(*c.target(), 2);
    assert_eq!(c.set_console(3), Err(ConsoleAlreadySet));
    assert_eq!(*c.target(), 2);
}

#[test]
fn lock_holds_data() {
    let l = Lock::new(7);
    assert_eq!(*l.get(), 7);
}

#[test]
fn lock_runs_the_closure_once_on_the_data() {
    let l = Lock::new(7u32);
    let mut calls = 0;
    let (l, r) = l.lock(|x| {
        calls += 1;
        (x + 1, x * 10)
    });
    assert_eq!(calls, 1);
    assert_eq!(r, 70);
    assert_eq!(*l.get(), 8);
}

#[test]
fn num_pages_of_regions() {
    assert_eq!(num_pages(Some(100), 4096), Ok(1));
    assert_eq!(num_pages(Some(8192), 4096), Ok(2));
    assert_eq!(num_pages(Some(10000), 4096), Ok(2));
    assert_eq!(num_pages(None, 4096), Err(Error::InvalidFdtNode));
}

#[test]
fn qemu_exit_register_range() {
    let q = QemuExit::new();
    assert_eq!(q.address(), RISCV64_BASE_ADDRESS);
    assert_eq!(q.get_address_range(), Some((0x100000, 1)));
}

#[test]
fn process_entry_and_stack() {
    let mut p = Process::new(0x40_0000, 0x8800_0000, 0x4000);
    assert_eq!(p.stack_top(), 0x8800_4000);
    assert_eq!(run(&mut p), 0x40_0000);
    assert_eq!(run_in_userland(&mut p), (0x40_0000, 0x8800_4000));
}

#[test]
fn timer_test_rearms_until_enough_interrupts() {
    assert_eq!(timer_test_tick(0), (1, Some(50_000)));
    assert_eq!(timer_test_tick(2), (3, Some(50_000)));
    assert_eq!(timer_test_tick(3), (4, None));
    assert!(!timer_test_done(2));
    assert!(timer_test_done(3));
}
