use vstd::prelude::*;

use crate::hal_core::mm::AllocatorError;
use crate::kernel::device_tree::FdtErrorKind;

verus! {

/// Why a kernel operation failed.
#[derive(Debug, Copy, Clone, PartialEq, Eq, Structural)]
pub enum Error {
    DeviceNotFound,
    NoMatchingDriver,
    InvalidFdtNode,
    FdtError(FdtErrorKind),
    Allocator(AllocatorError),
}

} // verus!
