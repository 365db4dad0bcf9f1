//! The drivers strictly necessary for the kernel.
pub mod null_uart;
pub mod pl011;
pub mod qemuexit;

pub use crate::drivers::{Console, Driver};
