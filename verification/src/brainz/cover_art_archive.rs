//! Ids of the Cover Art Archive.
use vstd::prelude::*;

verus! {

/// An image id of the Cover Art Archive.
#[derive(Debug, Clone, Copy, PartialEq, Eq, Structural)]
pub struct Id(pub u64);

impl Id {
    /// The number.
    pub fn into_inner(self) -> (r: u64)
        ensures
            r == self.0,
    {
        self.0
    }
}

impl From<u64> for Id {
    fn from(value: u64) -> (r: Self) {
        Id(value)
    }
}

impl vstd::std_specs::convert::FromSpecImpl<u64> for Id {
    open spec fn obeys_from_spec() -> bool {
        true
    }

    open spec fn from_spec(value: u64) -> Self {
        Id(value)
    }
}

impl From<Id> for u64 {
    fn from(value: Id) -> (r: Self) {
        value.into_inner()
    }
}

impl vstd::std_specs::convert::FromSpecImpl<Id> for u64 {
    open spec fn obeys_from_spec() -> bool {
        true
    }

    open spec fn from_spec(value: Id) -> Self {
        value.0
    }
}

} // verus!
