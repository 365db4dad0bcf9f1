//! This module stores all drivers strictly necessary for the kernel.
use vstd::prelude::*;
use vstd::string::StringSliceAdditionalSpecFns;

pub mod gicv2;
pub mod init_cell;
pub mod pl011;

verus! {

/// A device with registers in memory.
pub trait Driver {
    /// The base address and the size of the device's registers, if it has any.
    fn get_address_range(&self) -> Option<(usize, usize)>;
}

/// A device that prints text.
pub trait Console: Driver {
    /// Prints `data`.
    fn write(&self, data: &str);
}

/// The console drivers the kernel knows.
#[derive(Debug, Copy, Clone, PartialEq, Eq, Structural)]
pub enum ConsoleKind {
    Pl011,
    Ns16550,
}

/// The `compatible` strings a console driver supports.
pub struct ConsoleMatcher {
    pub compatibles: Vec<&'static str>,
    pub kind: ConsoleKind,
}

/// Two strings hold the same bytes.
pub fn str_eq(a: &str, b: &str) -> (r: bool)
    ensures
        r == (a.spec_bytes() == b.spec_bytes()),
{
    let x = a.as_bytes();
    let y = b.as_bytes();
    if x.len() != y.len() {
        return false;
    }
    let mut i: usize = 0;
    while i < x.len()
        invariant
            i <= x@.len(),
            x@.len() == y@.len(),
            x@ == a.spec_bytes(),
            y@ == b.spec_bytes(),
            forall|k: int| 0 <= k < i ==> x@[k] == y@[k],
        decreases x@.len() - i,
    {
        if x[i] != y[i] {
            return false;
        }
        i = i + 1;
    }
    assert(x@ =~= y@);
    true
}

impl ConsoleMatcher {
    /// One of the driver's compatible strings is `compatible`.
    pub fn matches(&self, compatible: &str) -> (b: bool)
        ensures
            b == exists|k: int|
                0 <= k < self.compatibles@.len() && (#[trigger] self.compatibles@[k]).spec_bytes()
                    == compatible.spec_bytes(),
    {
        let mut k: usize = 0;
        while k < self.compatibles.len()
            invariant
                k <= self.compatibles@.len(),
                forall|j: int|
                    0 <= j < k ==> (#[trigger] self.compatibles@[j]).spec_bytes()
                        != compatible.spec_bytes(),
            decreases self.compatibles@.len() - k,
        {
            if str_eq(self.compatibles[k], compatible) {
                return true;
            }
            k = k + 1;
        }
        false
    }
}

/// The matcher of the PL011 UART.
pub fn pl011_matcher() -> (m: ConsoleMatcher)
    ensures
        m.kind == ConsoleKind::Pl011,
        m.compatibles@.len() == 1,
        m.compatibles@[0]@ == "arm,pl011"@,
{
    let compatibles: Vec<&'static str> = vec!["arm,pl011"];
    ConsoleMatcher { compatibles, kind: ConsoleKind::Pl011 }
}

/// The matcher of the NS16550 UART.
pub fn ns16550_matcher() -> (m: ConsoleMatcher)
    ensures
        m.kind == ConsoleKind::Ns16550,
        m.compatibles@.len() == 1,
        m.compatibles@[0]@ == "ns16550a"@,
{
    let compatibles: Vec<&'static str> = vec!["ns16550a"];
    ConsoleMatcher { compatibles, kind: ConsoleKind::Ns16550 }
}

/// The first console driver, in the order the kernel knows them (the PL011, then the NS16550),
/// that supports `compatible`.
pub fn matching_console_driver(compatible: &str) -> (r: Option<ConsoleKind>)
    ensures
        r == spec_console_kind(compatible),
{
    let matchers: Vec<ConsoleMatcher> = vec![pl011_matcher(), ns16550_matcher()];
    let mut k: usize = 0;
    while k < matchers.len()
        invariant
            k <= matchers@.len(),
            matchers@.len() == 2,
            matchers@[0].kind == ConsoleKind::Pl011,
            matchers@[0].compatibles@.len() == 1,
            matchers@[0].compatibles@[0]@ == "arm,pl011"@,
            matchers@[1].kind == ConsoleKind::Ns16550,
            matchers@[1].compatibles@.len() == 1,
            matchers@[1].compatibles@[0]@ == "ns16550a"@,
            k > 0 ==> !pl011_compatible(compatible),
            k > 1 ==> !ns16550_compatible(compatible),
        decreases matchers@.len() - k,
    {
        if matchers[k].matches(compatible) {
            return Some(matchers[k].kind);
        }
        k = k + 1;
    }
    None
}

/// `compatible` is the compatible string of the PL011 UART.
pub open spec fn pl011_compatible(compatible: &str) -> bool {
    compatible.spec_bytes() == "arm,pl011".spec_bytes()
}

/// `compatible` is the compatible string of the NS16550 UART.
pub open spec fn ns16550_compatible(compatible: &str) -> bool {
    compatible.spec_bytes() == "ns16550a".spec_bytes()
}

/// The first console driver, in the order the kernel knows them, that supports `compatible`.
pub open spec fn spec_console_kind(compatible: &str) -> Option<ConsoleKind> {
    if pl011_compatible(compatible) {
        Some(ConsoleKind::Pl011)
    } else if ns16550_compatible(compatible) {
        Some(ConsoleKind::Ns16550)
    } else {
        None
    }
}

/// The console driver picked by the first of `compatibles` that some known driver supports.
pub open spec fn first_console_kind(compatibles: Seq<&str>) -> Option<ConsoleKind>
    decreases compatibles.len(),
{
    if compatibles.len() == 0 {
        None
    } else {
        match spec_console_kind(compatibles[0]) {
            Some(kind) => Some(kind),
            None => first_console_kind(compatibles.drop_first()),
        }
    }
}

} // verus!
