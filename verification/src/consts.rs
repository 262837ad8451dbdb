use vstd::prelude::*;

verus! {

/// A split threshold, stated in the unit the caller thinks in.
#[derive(Clone, Copy, PartialEq, Eq, Structural, Debug)]
pub enum LogSize {
    KB(u64),
    MB(u64),
    GB(u64),
}

impl LogSize {
    /// The size in bytes.
    pub open spec fn len_spec(self) -> int {
        match self {
            LogSize::KB(n) => n * 1024,
            LogSize::MB(n) => n * 1024 * 1024,
            LogSize::GB(n) => n * 1024 * 1024 * 1024,
        }
    }

    pub fn get_len(self) -> (r: u64)
        requires
            self.len_spec() <= u64::MAX,
        ensures
            r == self.len_spec(),
    {
        match self {
            LogSize::KB(n) => n * 1024,
            LogSize::MB(n) => n * 1024 * 1024,
            LogSize::GB(n) => n * 1024 * 1024 * 1024,
        }
    }
}

} // verus!
