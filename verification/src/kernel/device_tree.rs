use vstd::prelude::*;

use crate::kernel::error::Error;

verus! {

/// The number of bytes of the header of a flattened device tree.
pub const FDT_HEADER_SIZE: usize = 40;

/// The first word of a flattened device tree.
pub const FDT_MAGIC: u32 = 0xd00d_feed;

/// Why a device tree was refused.
#[derive(Debug, Copy, Clone, PartialEq, Eq, Structural)]
pub enum FdtErrorKind {
    /// The blob does not start with the magic word.
    BadMagic,
    /// The device tree pointer is null.
    BadPtr,
    /// The blob is shorter than its header, or than the size its header gives.
    BufferTooSmall,
}

/// The big-endian 32-bit word at offset `off` of `bytes`.
pub open spec fn be_u32(bytes: Seq<u8>, off: int) -> int {
    bytes[off] * 0x100_0000 + bytes[off + 1] * 0x1_0000 + bytes[off + 2] * 0x100 + bytes[off + 3]
}

/// What reading the header of the blob gives: it is refused when it is shorter than a header,
/// when its first word is not the magic word, or when it is shorter than the total size its
/// header gives.
pub open spec fn fdt_header_check(blob: Seq<u8>) -> Result<(), FdtErrorKind> {
    if blob.len() < FDT_HEADER_SIZE {
        Err(FdtErrorKind::BufferTooSmall)
    } else if be_u32(blob, 0) != FDT_MAGIC {
        Err(FdtErrorKind::BadMagic)
    } else if blob.len() < be_u32(blob, 4) {
        Err(FdtErrorKind::BufferTooSmall)
    } else {
        Ok(())
    }
}

/// `fdt::Fdt::new`: reads the header of the blob. Its source refuses a blob shorter than the
/// ten words of the header or than the total size the header gives (`BufferTooSmall`), and one
/// whose first word is not `0xd00dfeed` (`BadMagic`), and accepts every other one.
#[verifier::external_body]
fn fdt_new(blob: &[u8]) -> (r: Result<(), FdtErrorKind>)
    ensures
        r == fdt_header_check(blob@),
{
    match fdt::Fdt::new(blob) {
        Ok(_) => Ok(()),
        Err(fdt::FdtError::BadMagic) => Err(FdtErrorKind::BadMagic),
        Err(fdt::FdtError::BadPtr) => Err(FdtErrorKind::BadPtr),
        Err(fdt::FdtError::BufferTooSmall) => Err(FdtErrorKind::BufferTooSmall),
    }
}

/// The total size of the device tree, read from its header: the second big-endian word.
fn total_size(blob: &[u8]) -> (size: usize)
    requires
        blob@.len() >= FDT_HEADER_SIZE,
    ensures
        size == be_u32(blob@, 4),
{
    let size: u32 = (blob[4] as u32) * 0x100_0000 + (blob[5] as u32) * 0x1_0000 + (blob[6] as u32) * 0x100
        + (blob[7] as u32);
    size as usize
}

/// The device tree the boot loader handed over: where it lies and how large it is, with the
/// memory regions and the reserved memory regions it describes, each as a base and a size.
pub struct DeviceTree {
    addr: usize,
    total_size: usize,
    memory: Vec<(usize, usize)>,
    reserved: Vec<(usize, usize)>,
}

/// The node is the interrupt controller of the board: it has the `interrupt-controller`
/// property and registers (the root interrupt chip of a core has none).
pub open spec fn is_board_interrupt_controller(node: (bool, bool)) -> bool {
    node.0 && node.1
}

impl DeviceTree {
    /// Among the nodes of the device tree, each given in order as (it has the
    /// `interrupt-controller` property, it has a `reg` property), the index of the interrupt
    /// controller of the board: the first one with both.
    pub fn interrupt_controller(nodes: &Vec<(bool, bool)>) -> (r: Option<usize>)
        ensures
            match r {
                Some(i) => i < nodes@.len() && is_board_interrupt_controller(nodes@[i as int]) && forall|j: int|
                    0 <= j < i ==> !is_board_interrupt_controller(#[trigger] nodes@[j]),
                None => forall|j: int| 0 <= j < nodes@.len() ==> !is_board_interrupt_controller(#[trigger] nodes@[j]),
            },
    {
        let mut i: usize = 0;
        while i < nodes.len()
            invariant
                i <= nodes@.len(),
                forall|j: int| 0 <= j < i ==> !is_board_interrupt_controller(#[trigger] nodes@[j]),
            decreases nodes@.len() - i,
        {
            let (is_intc, has_reg) = nodes[i];
            if is_intc && has_reg {
                return Some(i);
            }
            i = i + 1;
        }
        None
    }

    /// The blob lies in memory: its end is an address.
    #[verifier::type_invariant]
    spec fn fits(self) -> bool {
        self.addr + self.total_size <= usize::MAX
    }

    /// The address of the device tree.
    pub closed spec fn spec_addr(self) -> usize {
        self.addr
    }

    /// The total size of the device tree, in bytes.
    pub closed spec fn spec_total_size(self) -> usize {
        self.total_size
    }

    /// The memory regions, each as a base and a size.
    pub closed spec fn spec_memory(self) -> Seq<(usize, usize)> {
        self.memory@
    }

    /// The children of the reserved memory node, each as a base and a size.
    pub closed spec fn spec_reserved(self) -> Seq<(usize, usize)> {
        self.reserved@
    }

    /// The device tree at `device_tree_ptr`, whose bytes are `blob`, describing the memory
    /// regions `memory` and the reserved regions `reserved`. Fails when the pointer is null or
    /// when the header of the blob is refused.
    pub fn new(
        device_tree_ptr: usize,
        blob: &[u8],
        memory: Vec<(usize, usize)>,
        reserved: Vec<(usize, usize)>,
    ) -> (r: Result<Self, Error>)
        requires
            device_tree_ptr + blob@.len() <= usize::MAX,
        ensures
            device_tree_ptr == 0 ==> r == Err::<Self, Error>(Error::FdtError(FdtErrorKind::BadPtr)),
            device_tree_ptr != 0 ==> match fdt_header_check(blob@) {
                Err(e) => r == Err::<Self, Error>(Error::FdtError(e)),
                Ok(_) => r matches Ok(dt) && dt.spec_addr() == device_tree_ptr && dt.spec_total_size()
                    == be_u32(blob@, 4) && dt.spec_memory() == memory@ && dt.spec_reserved()
                    == reserved@,
            },
    {
        if device_tree_ptr == 0 {
            return Err(Error::FdtError(FdtErrorKind::BadPtr));
        }
        match fdt_new(blob) {
            Ok(()) => {},
            Err(e) => {
                return Err(Error::FdtError(e));
            },
        }
        let total_size = total_size(blob);
        Ok(Self { addr: device_tree_ptr, total_size, memory, reserved })
    }

    /// The memory the device tree occupies: its start and its end.
    pub fn memory_region(&self) -> (r: (usize, usize))
        ensures
            r.0 == self.spec_addr(),
            r.1 == self.spec_addr() + self.spec_total_size(),
    {
        proof {
            use_type_invariant(self);
        }
        (self.addr, self.addr + self.total_size)
    }

    /// The memory regions the device tree describes, each as a base and a size.
    pub fn for_all_memory_regions(&self) -> (r: &Vec<(usize, usize)>)
        ensures
            r@ == self.spec_memory(),
    {
        &self.memory
    }

    /// The regions of the reserved memory node, each as a base and a size.
    pub fn for_all_reserved_memory_regions(&self) -> (r: &Vec<(usize, usize)>)
        ensures
            r@ == self.spec_reserved(),
    {
        &self.reserved
    }
}

} // verus!
