//! The default filtering policy.

use vstd::prelude::*;

verus! {

use crate::scanner::{ProcEvent, ProcFilter};

/// Default filter that allows all events to pass.
pub struct DefaultFilter {}

impl DefaultFilter {
    pub fn new() -> (r: Self)
        ensures
            forall|event: ProcEvent| r.filter_spec(event),
    {
        Self {  }
    }
}

impl ProcFilter for DefaultFilter {
    open spec fn filter_spec(&self, event: ProcEvent) -> bool {
        true
    }

    #[inline]
    fn filter(&self, event: ProcEvent) -> (r: bool) {
        true
    }
}

} // verus!
