//! Small helpers: a monotone id generator.

use vstd::prelude::*;

verus! {

/// Hands out consecutive ids, starting at zero.
pub struct Incrementor {
    current: usize,
}

impl Incrementor {
    /// A generator whose first id is zero.
    pub fn new() -> (r: Self)
        ensures
            r.current_value() == 0,
    {
        Self { current: 0 }
    }

    /// The id the next call will hand out.
    pub closed spec fn current_value(&self) -> int {
        self.current as int
    }

    /// Hands out the next id, or `None` once every id is spent.
    pub fn next(&mut self) -> (r: Option<usize>)
        ensures
            old(self).current_value() < usize::MAX ==> {
                &&& (r matches Some(v) && v as int == old(self).current_value())
                &&& final(self).current_value() == old(self).current_value() + 1
            },
            old(self).current_value() == usize::MAX ==> {
                &&& r is None
                &&& final(self).current_value() == old(self).current_value()
            },
    {
        if self.current == usize::MAX {
            None
        } else {
            let num = self.current;
            self.current = self.current + 1;
            Some(num)
        }
    }
}

} // verus!
