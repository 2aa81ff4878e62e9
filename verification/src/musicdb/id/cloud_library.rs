//! The id of a library entity in the cloud.
use vstd::prelude::*;

verus! {

/// The id of a library entity in the cloud, under the name its kind gives it.
pub type Id<T> = super::CloudLibraryId<T>;

} // verus!
