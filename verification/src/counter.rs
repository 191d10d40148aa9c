use vstd::prelude::*;

verus! {

/// The value a counter hands out after handing out `v`.
pub open spec fn after(v: int) -> int {
    if v == usize::MAX {
        0
    } else {
        v + 1
    }
}

/// A monotone id generator. A fresh counter hands out 0, then 1, 2, ...
#[derive(Debug, Clone)]
pub struct Counter {
    count: usize,
}

impl Counter {
    /// The number the next call of `get` hands out.
    pub closed spec fn next_value(&self) -> int {
        if self.count == usize::MAX { 0 } else { self.count + 1 }
    }

    /// Creates a counter whose first value is 0.
    pub fn new() -> (c: Self)
        ensures
            c.next_value() == 0,
    {
        Counter { count: usize::MAX }
    }

    /// Hands out the next value and advances the counter; after `usize::MAX`
    /// has been handed out the counter starts again at 0.
    pub fn get(&mut self) -> (n: usize)
        ensures
            n == old(self).next_value(),
            final(self).next_value() == after(n as int),
    {
        match self.next() {
            Some(n) => n,
            None => 0,
        }
    }

    /// The iterator step of the counter: always yields the next value.
    pub fn next(&mut self) -> (r: Option<usize>)
        ensures
            r == Some(old(self).next_value() as usize),
            final(self).next_value() == after(old(self).next_value()),
    {
        if self.count == usize::MAX {
            self.count = 0;
        } else {
            self.count = self.count + 1;
        }
        Some(self.count)
    }
}

} // verus!
