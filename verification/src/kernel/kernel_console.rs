use vstd::prelude::*;

verus! {

/// The console was already set.
#[derive(Debug, Copy, Clone, PartialEq, Eq, Structural)]
pub struct ConsoleAlreadySet;

/// The consoles the kernel prints to: the early-init one until the real one is set.
pub struct KernelConsole<C> {
    earlyinit: C,
    console: Option<C>,
}

impl<C> KernelConsole<C> {
    /// The early-init console.
    pub closed spec fn spec_earlyinit(&self) -> C {
        self.earlyinit
    }

    /// The real console, once set.
    pub closed spec fn spec_console(&self) -> Option<C> {
        self.console
    }

    /// Prints to `earlyinit` until a console is set.
    pub fn new(earlyinit: C) -> (k: Self)
        ensures
            k.spec_earlyinit() == earlyinit,
            k.spec_console() is None,
    {
        Self { earlyinit, console: None }
    }

    /// Replaces the early-init console.
    pub fn set_earlyinit_console(&mut self, new_console: C)
        ensures
            final(self).spec_earlyinit() == new_console,
            final(self).spec_console() == old(self).spec_console(),
    {
        self.earlyinit = new_console;
    }

    /// Sets the console, once.
    pub fn set_console(&mut self, new_console: C) -> (r: Result<(), ConsoleAlreadySet>)
        ensures
            old(self).spec_console() is None ==> r is Ok && final(self).spec_console() == Some(
                new_console,
            ),
            old(self).spec_console() is Some ==> r == Err::<(), ConsoleAlreadySet>(ConsoleAlreadySet)
                && final(self).spec_console() == old(self).spec_console(),
            final(self).spec_earlyinit() == old(self).spec_earlyinit(),
    {
        if self.console.is_some() {
            return Err(ConsoleAlreadySet);
        }
        self.console = Some(new_console);
        Ok(())
    }

    /// The console that text goes to: the console once set, the early-init one before.
    pub fn target(&self) -> (c: &C)
        ensures
            *c == match self.spec_console() {
                Some(console) => console,
                None => self.spec_earlyinit(),
            },
    {
        match &self.console {
            Some(console) => console,
            None => &self.earlyinit,
        }
    }
}

} // verus!
