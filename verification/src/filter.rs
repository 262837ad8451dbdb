use vstd::prelude::*;

use crate::appender::FastLogRecord;

verus! {

/// A producer-side predicate over records; returning `true` rejects the
/// record before it is queued. Callers may supply their own implementation.
pub trait Filter: Send {
    fn filter(&self, record: &FastLogRecord) -> bool;
}

/// An optional filter filters like its content, and an absent one rejects
/// nothing; this is how the `init_*` entry points take their filter argument.
impl<F: Filter> Filter for Option<F> {
    fn filter(&self, record: &FastLogRecord) -> bool {
        match self {
            Some(f) => f.filter(record),
            None => false,
        }
    }
}

/// The built-in filter: it rejects nothing.
pub struct NoFilter {}

impl Filter for NoFilter {
    fn filter(&self, record: &FastLogRecord) -> bool {
        false
    }
}

} // verus!
