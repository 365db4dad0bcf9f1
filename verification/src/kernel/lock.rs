use vstd::prelude::*;

verus! {

/// Data reached through a lock: whoever holds the lock works on the data alone.
pub struct Lock<T> {
    data: T,
}

impl<T> Lock<T> {
    /// The data behind the lock.
    pub closed spec fn value(&self) -> T {
        self.data
    }

    /// A lock around `data`.
    pub fn new(data: T) -> (l: Self)
        ensures
            l.value() == data,
    {
        Self { data }
    }

    /// Runs `f` once, on the data behind the lock: `f` gets the data and gives back the data
    /// to keep behind the lock together with its result. Returns the lock, now around the data
    /// `f` gave back, and that result.
    pub fn lock<R, F: FnOnce(T) -> (T, R)>(self, f: F) -> (r: (Self, R))
        requires
            call_requires(f, (self.value(),)),
        ensures
            call_ensures(f, (self.value(),), (r.0.value(), r.1)),
    {
        let Lock { data } = self;
        let (kept, res) = f(data);
        (Lock { data: kept }, res)
    }

    /// The data behind the lock.
    pub fn get(&self) -> (r: &T)
        ensures
            *r == self.value(),
    {
        &self.data
    }
}

} // verus!
