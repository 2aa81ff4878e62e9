//! The id of an entity stored within the library file.
use vstd::prelude::*;

verus! {

/// The id of an entity stored within the library file, under the name its kind gives it.
pub type Id<T> = super::PersistentId<T>;

} // verus!
