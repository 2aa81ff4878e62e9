//! Image quality, a number from 0 to 999.
use vstd::prelude::*;

verus! {

/// The lowest quality level, a very compressed image.
pub const MIN_INCLUSIVE: u16 = 0;

/// The highest quality level, a minimally compressed image.
pub const MAX_INCLUSIVE: u16 = 999;

/// A number between 0 and 999, inclusive, that inversely correlates with compression.
#[derive(Debug, Clone, Copy, PartialEq, Eq, PartialOrd, Ord, Hash)]
pub struct Quality(u16);

/// An error for a quality outside `[0, 999]`.
#[derive(Debug, Clone, Copy, PartialEq, Eq, PartialOrd, Ord, Hash, Structural)]
pub struct OutOfRangeError;

/// Whether `value` is a valid quality.
pub open spec fn in_range(value: u16) -> bool {
    MIN_INCLUSIVE <= value <= MAX_INCLUSIVE
}

impl View for Quality {
    type V = u16;

    closed spec fn view(&self) -> u16 {
        self.0
    }
}

impl Quality {
    #[verifier::type_invariant]
    spec fn inv(self) -> bool {
        in_range(self.0)
    }

    /// Whether the given value would be a valid quality.
    pub fn test(value: &u16) -> (r: bool)
        ensures
            r == in_range(*value),
    {
        MIN_INCLUSIVE <= *value && *value <= MAX_INCLUSIVE
    }

    /// The stored value.
    pub fn into_inner(self) -> (r: u16)
        ensures
            r == self@,
            in_range(r),
    {
        proof { use_type_invariant(&self); }
        self.0
    }

    /// The stored value.
    pub fn get(&self) -> (r: &u16)
        ensures
            *r == self@,
            in_range(*r),
    {
        proof { use_type_invariant(self); }
        &self.0
    }

    /// A quality of `value`, if it is in range.
    pub fn new(value: u16) -> (r: Result<Self, OutOfRangeError>)
        ensures
            in_range(value) <==> r is Ok,
            r matches Ok(q) ==> q@ == value,
    {
        if !Self::test(&value) {
            return Err(OutOfRangeError);
        }
        Ok(Quality(value))
    }
}

impl Quality {
    /// The quality in decimal.
    pub fn to_string(&self) -> (r: String)
        ensures
            r@ == crate::num::decimal(self@ as nat),
    {
        crate::num::to_decimal(*self.get() as u64)
    }
}

impl OutOfRangeError {
    /// The error's message, with the bounds.
    pub fn to_string(&self) -> (r: String)
        ensures
            r@ == "quality out of bounds: must satisfy range [0, 999]"@,
    {
        String::from_str("quality out of bounds: must satisfy range [0, 999]")
    }
}

} // verus!
