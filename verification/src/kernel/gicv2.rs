use vstd::prelude::*;

use crate::drivers::gicv2::{self, RegisterWrite};
use crate::kernel::irq::IrqLine;

verus! {

/// The number of interrupt lines a GICv2 handles.
pub const MAX_INTERRUPTS: usize = 1022;

/// A GICv2 together with the handler (the address of the function to call) of each line.
pub struct GicV2 {
    handlers: Vec<Option<usize>>,
    gic: gicv2::GicV2,
}

impl GicV2 {
    /// The handler of each line.
    pub closed spec fn spec_handlers(&self) -> Seq<Option<usize>> {
        self.handlers@
    }

    /// The controller, without any handler.
    pub fn new(gicd_base: usize, gicc_base: usize) -> (g: Self)
        ensures
            g.spec_handlers() == Seq::new(MAX_INTERRUPTS as nat, |i: int| None::<usize>),
    {
        let mut handlers: Vec<Option<usize>> = Vec::new();
        let mut i: usize = 0;
        while i < MAX_INTERRUPTS
            invariant
                i <= MAX_INTERRUPTS,
                handlers@ == Seq::new(i as nat, |k: int| None::<usize>),
            decreases MAX_INTERRUPTS - i,
        {
            handlers.push(None);
            i = i + 1;
            proof {
                assert(handlers@ =~= Seq::new(i as nat, |k: int| None::<usize>));
            }
        }
        Self { handlers, gic: gicv2::GicV2::new(gicd_base, gicc_base) }
    }

    /// The distributor control register once both groups of interrupts are enabled.
    pub fn enable_interrupts(&self, ctlr: u32) -> (w: RegisterWrite)
        ensures
            w == (RegisterWrite {
                register: gicv2::GicRegister::DistributorCtlr,
                value: ctlr | gicv2::ENABLE_GROUPS,
            }),
    {
        self.gic.enable_interrupts(ctlr)
    }

    /// Records `handler` for `line` and returns the writes that enable the line, given the
    /// current value of its set-enable register; a line beyond the controller's is ignored.
    pub fn enable(&mut self, line: IrqLine, handler: usize, isenabler: u32) -> (writes: Vec<RegisterWrite>)
        requires
            old(self).spec_handlers().len() == MAX_INTERRUPTS,
        ensures
            line >= MAX_INTERRUPTS ==> writes@.len() == 0 && final(self).spec_handlers() == old(
                self,
            ).spec_handlers(),
            line < MAX_INTERRUPTS ==> final(self).spec_handlers() == old(self).spec_handlers().update(
                line as int,
                Some(handler),
            ) && writes@ == seq![
                RegisterWrite {
                    register: gicv2::GicRegister::IsEnabler(line / 32),
                    value: isenabler | (1u32 << ((line % 32) as u32)),
                },
                RegisterWrite { register: gicv2::GicRegister::IPriorityr(line), value: 0x80 },
            ],
    {
        if line >= self.handlers.len() {
            return Vec::new();
        }
        self.handlers.set(line, Some(handler));
        self.gic.enable(line, isenabler)
    }

    /// The handler to call for an interrupt on `line`, if there is one.
    pub fn handle(&self, line: IrqLine) -> (h: Option<usize>)
        ensures
            h == (if line < self.spec_handlers().len() {
                self.spec_handlers()[line as int]
            } else {
                None
            }),
    {
        if line >= self.handlers.len() {
            return None;
        }
        self.handlers[line]
    }
}

} // verus!
