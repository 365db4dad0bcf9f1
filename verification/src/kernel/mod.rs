pub mod arch;
pub mod device_tree;
pub mod driver_manager;
pub mod drivers;
pub mod error;
pub mod generic_main;
pub mod gicv2;
pub mod globals;
pub mod interrupt_manager;
pub mod irq;
pub mod kernel_console;
pub mod lock;
pub mod mm;
pub mod process;
pub mod tests;
