use vstd::prelude::*;

use crate::drivers::{Console, Driver};

verus! {

/// A console that prints nothing: a placeholder while a real UART is not in place.
#[derive(Debug)]
pub struct NullUart;

impl NullUart {
    /// The placeholder console.
    pub fn new() -> (u: Self) {
        Self
    }
}

impl Console for NullUart {
    fn write(&self, _data: &str) {
    }
}

impl Driver for NullUart {
    fn get_address_range(&self) -> (r: Option<(usize, usize)>)
        ensures
            r is None,
    {
        None
    }
}

} // verus!
