//! The id of a resource in the Apple Music catalog.
use vstd::prelude::*;

verus! {

/// The id of a resource in the Apple Music catalog, under the name its kind gives it.
pub type Id<T> = super::CloudCatalogId<T>;

} // verus!
