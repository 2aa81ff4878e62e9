//! Parsing of Apple's `mzstatic.com` asset URLs.
pub mod accelerator;
pub mod pool;
pub mod image;

use vstd::prelude::*;

verus! {

/// A value read from the start of some text, with the number of bytes it took.
#[derive(Debug, PartialEq, Eq, Clone, Copy)]
pub struct Read<T> {
    pub value: T,
    pub bytes: usize,
}

} // verus!
