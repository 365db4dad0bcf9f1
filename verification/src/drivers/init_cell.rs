use vstd::prelude::*;

verus! {

/// A value set during early initialization and read afterwards.
pub struct InitCell<T> {
    data: T,
}

impl<T> InitCell<T> {
    /// The value the cell holds.
    pub closed spec fn value(&self) -> T {
        self.data
    }

    /// A cell holding `data`.
    pub fn new(data: T) -> (c: Self)
        ensures
            c.value() == data,
    {
        Self { data }
    }

    /// Replaces the value the cell holds.
    pub fn set(&mut self, data: T)
        ensures
            final(self).value() == data,
    {
        self.data = data;
    }

    /// The value the cell holds.
    pub fn get(&self) -> (r: &T)
        ensures
            *r == self.value(),
    {
        &self.data
    }
}

} // verus!
