use vstd::prelude::*;

verus! {

/// The saved registers of a process: where it resumes.
#[derive(Debug, Copy, Clone, PartialEq, Eq, Structural)]
pub struct Registers {
    pub pc: usize,
}

/// A process: its saved registers and its stack, `stack_len` bytes from `stack_base`.
#[derive(Debug)]
pub struct Process {
    registers: Registers,
    stack_base: usize,
    stack_len: usize,
}

impl Process {
    /// The stack lies in memory: its end is an address.
    #[verifier::type_invariant]
    spec fn stack_fits(self) -> bool {
        self.stack_base + self.stack_len <= usize::MAX
    }

    /// Where the process resumes.
    pub closed spec fn spec_pc(&self) -> usize {
        self.registers.pc
    }

    /// The start of the stack of the process.
    pub closed spec fn spec_stack_base(&self) -> usize {
        self.stack_base
    }

    /// The size of the stack of the process, in bytes.
    pub closed spec fn spec_stack_len(&self) -> usize {
        self.stack_len
    }

    /// A process that starts at `entry`, with the `stack_len` bytes from `stack_base` as its
    /// stack.
    pub fn new(entry: usize, stack_base: usize, stack_len: usize) -> (p: Self)
        requires
            stack_base + stack_len <= usize::MAX,
        ensures
            p.spec_pc() == entry,
            p.spec_stack_base() == stack_base,
            p.spec_stack_len() == stack_len,
    {
        Process { registers: Registers { pc: entry }, stack_base, stack_len }
    }

    /// The top of the stack, where a stack that grows down starts.
    pub fn stack_top(&self) -> (top: usize)
        ensures
            top == self.spec_stack_base() + self.spec_stack_len(),
    {
        proof {
            use_type_invariant(self);
        }
        self.stack_base + self.stack_len
    }
}

/// Where to jump to run the process in the kernel's mode: where it resumes.
pub fn run(process: &mut Process) -> (entry: usize)
    ensures
        entry == old(process).spec_pc(),
        final(process).spec_pc() == old(process).spec_pc(),
        final(process).spec_stack_base() == old(process).spec_stack_base(),
        final(process).spec_stack_len() == old(process).spec_stack_len(),
{
    process.registers.pc
}

/// Where to jump, and with which stack, to run the process in user mode: where it resumes, and
/// the top of its stack.
pub fn run_in_userland(process: &mut Process) -> (r: (usize, usize))
    ensures
        r == (old(process).spec_pc(), (old(process).spec_stack_base() + old(process).spec_stack_len()) as usize),
        final(process).spec_pc() == old(process).spec_pc(),
        final(process).spec_stack_base() == old(process).spec_stack_base(),
        final(process).spec_stack_len() == old(process).spec_stack_len(),
{
    let top = process.stack_top();
    (process.registers.pc, top)
}

} // verus!
