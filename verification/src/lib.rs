//! An asynchronous logging core: a two-stage record pipeline with filtering,
//! formatting, appender fan-out, size-based file rotation and a background
//! packer with retention.
pub mod appender;
pub mod clock;
pub mod file_split;
pub mod consts;
pub mod error;
pub mod fast_log;
pub mod filter;
pub mod queue;
pub mod wait;

use vstd::prelude::*;

verus! {

/// The five log levels, ordered from most to least severe.
#[derive(Clone, Copy, PartialEq, Eq, Structural, Debug)]
pub enum Level {
    Error,
    Warn,
    Info,
    Debug,
    Trace,
}

impl Level {
    /// The ordinal of a level: `Error` is 1, `Trace` is 5.
    pub open spec fn ordinal(self) -> int {
        match self {
            Level::Error => 1,
            Level::Warn => 2,
            Level::Info => 3,
            Level::Debug => 4,
            Level::Trace => 5,
        }
    }

    pub fn to_ordinal(self) -> (r: i32)
        ensures
            r == self.ordinal(),
    {
        match self {
            Level::Error => 1,
            Level::Warn => 2,
            Level::Info => 3,
            Level::Debug => 4,
            Level::Trace => 5,
        }
    }
}

} // verus!
