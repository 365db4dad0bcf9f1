use vstd::prelude::*;

verus! {

/// A cell that can be set once.
pub struct FakeOnceLock<T> {
    cell: Option<T>,
}

impl<T> FakeOnceLock<T> {
    /// What the cell holds, if it was set.
    pub closed spec fn value(&self) -> Option<T> {
        self.cell
    }

    /// An empty cell.
    pub fn new() -> (l: FakeOnceLock<T>)
        ensures
            l.value() is None,
    {
        Self { cell: None }
    }

    /// What the cell holds, if it was set.
    pub fn get(&self) -> (r: Option<&T>)
        ensures
            match self.value() {
                Some(v) => r == Some(&v),
                None => r is None,
            },
    {
        match &self.cell {
            Some(v) => Some(v),
            None => None,
        }
    }

    /// Sets the cell to `value` if it is empty; hands `value` back if it was already set.
    pub fn set(&mut self, value: T) -> (r: Result<(), T>)
        ensures
            match old(self).value() {
                None => r is Ok && final(self).value() == Some(value),
                Some(_) => r == Err::<(), T>(value) && final(self).value() == old(self).value(),
            },
    {
        if self.cell.is_some() {
            return Err(value);
        }
        self.cell = Some(value);
        Ok(())
    }
}

} // verus!
