pub mod irq;
pub mod mm;
