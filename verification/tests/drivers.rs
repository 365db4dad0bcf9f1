use goose::drivers::gicv2::{GicRegister, GicV2, RegisterWrite};
use goose::drivers::init_cell::InitCell;
use goose::drivers::pl011::{Pl011, PutcStep};
use goose::drivers::{matching_console_driver, ConsoleKind, Driver};
use goose::kernel::driver_manager::{ConsoleDevice, DriverManager};
use goose::kernel::drivers::null_uart::NullUart;
use goose::kernel::drivers::pl011::{Pl011 as KernelPl011, Pl011Inner};
use goose::kernel::gicv2::GicV2 as KernelGic;

#[test]
fn console_matching() {
    assert_eq!(matching_console_driver("arm,pl011"), Some(ConsoleKind::Pl011));
    assert_eq!(matching_console_driver("ns16550a"), Some(ConsoleKind::Ns16550));
    assert_eq!(matching_console_driver("arm,pl011x"), None);
    assert_eq!(matching_console_driver(""), None);
}

#[test]
fn pl011_putc_waits_while_fifo_full() {
    let uart = Pl011::new(0x0900_0000);
    assert_eq!(uart.flag_register_address(), 0x0900_0018);
    assert!(uart.tx_fifo_full(0x20));
    assert!(!uart.tx_fifo_full(0xdf));
    assert_eq!(uart.putc(0x20, b'a'), PutcStep::Wait);
    assert_eq!(uart.putc(0, b'a'), PutcStep::Write { address: 0x0900_0000, value: 97 });
}

#[test]
fn kernel_pl011() {
    let inner = Pl011Inner::new(0x0900_0000);
    assert_eq!(inner.putc(0x20, b'z'), PutcStep::Wait);
    assert_eq!(inner.putc(0x10, b'z'), PutcStep::Write { address: 0x0900_0000, value: 122 });
    let uart = KernelPl011::new(0x0900_0000);
    assert_eq!(uart.get_address_range(), Some((0x0900_0000, 0xFFC)));
    assert_eq!(uart.inner().base, 0x0900_0000);
    assert_eq!(NullUart::new().get_address_range(), None);
}

#[test]
fn init_cell() {
    let mut c = InitCell::new(3);
    assert_eq!(*c.get(), 3);
    c.set(4);
    assert_eq!(*c.get(), 4);
}

#[test]
fn gic_nlines_and_enable() {
    let gic = GicV2::new(0x800_0000, 0x801_0000);
    assert_eq!(gic.nlines(0), 32);
    assert_eq!(gic.nlines(2), 96);
    assert_eq!(gic.nlines(0xffff_ffe0), 32);
    assert_eq!(
        gic.enable(30, 0x1),
        vec![
            RegisterWrite { register: GicRegister::IsEnabler(0), value: 0x4000_0001 },
            RegisterWrite { register: GicRegister::IPriorityr(30), value: 0x80 },
        ]
    );
    assert_eq!(
        gic.enable(33, 0),
        vec![
            RegisterWrite { register: GicRegister::IsEnabler(1), value: 0x2 },
            RegisterWrite { register: GicRegister::IPriorityr(33), value: 0x80 },
        ]
    );
    assert_eq!(gic.disable_interrupts(0xff).value, 0xfc);
    assert_eq!(gic.enable_interrupts(0x4).value, 0x7);
}

#[test]
fn gic_init_distributor() {
    let gic = GicV2::new(0x800_0000, 0x801_0000);
    let writes = gic.init_distributor(2, 0b11);
    assert_eq!(writes.len(), 1 + 3 * 3 + 24 + 5 + 3);
    assert_eq!(writes[0], RegisterWrite { register: GicRegister::DistributorCtlr, value: 0 });
    assert_eq!(writes[1], RegisterWrite { register: GicRegister::IcEnabler(0), value: 0xffff_ffff });
    assert_eq!(writes[9], RegisterWrite { register: GicRegister::IcActiver(2), value: 0xffff_ffff });
    assert_eq!(writes[10], RegisterWrite { register: GicRegister::ITargetsr(0), value: 0x0101_0101 });
    assert_eq!(writes[34], RegisterWrite { register: GicRegister::Icfgr(1), value: 0 });
    assert_eq!(writes[41], RegisterWrite { register: GicRegister::CpuCtlr, value: 0b11 });
}

#[test]
fn kernel_gic_handlers() {
    let mut gic = KernelGic::new(0x800_0000, 0x801_0000);
    assert_eq!(gic.handle(30), None);
    let writes = gic.enable(30, 0x1000, 0);
    assert_eq!(writes.len(), 2);
    assert_eq!(gic.handle(30), Some(0x1000));
    assert!(gic.enable(5000, 0x1000, 0).is_empty());
    assert_eq!(gic.handle(5000), None);
    assert_eq!(gic.enable_interrupts(0).value, 0b11);
}

#[test]
fn find_driver_picks_the_first_supported_compatible() {
    let compatibles = vec!["snps,dw-apb-uart", "arm,pl011", "ns16550a"];
    assert_eq!(
        DriverManager::find_driver(&compatibles, Some(0x900_0000)),
        Some(ConsoleDevice { kind: ConsoleKind::Pl011, base: 0x900_0000 })
    );
    assert_eq!(DriverManager::find_driver(&compatibles, None), None);
    assert_eq!(
        DriverManager::find_driver(&vec!["ns16550a", "arm,pl011"], Some(0x1000_0000)),
        Some(ConsoleDevice { kind: ConsoleKind::Ns16550, base: 0x1000_0000 })
    );
    assert_eq!(DriverManager::find_driver(&vec!["snps,dw-apb-uart"], Some(0x900_0000)), None);
    assert_eq!(DriverManager::find_driver(&vec![], Some(0x900_0000)), None);
}
