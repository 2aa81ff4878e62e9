//! Ids of library entities: persistent ids within the file, and the cloud ids of Apple Music.
pub mod persistent;
pub mod cloud_library;
pub mod cloud_catalog;

use vstd::prelude::*;
use crate::num::{parse_result, parse_uint, ParseIntError};
use crate::text::{bytes_of, starts_with};

verus! {

/// The kinds of entity that a library holds.
#[derive(Debug, Clone, Copy, PartialEq, Eq, Structural)]
pub enum PossessorIdentity {
    Track,
    Account,
    Artist,
    Album,
    Collection,
}

impl PossessorIdentity {
    /// The bytes of the namespace that starts a cloud library id of this kind.
    pub open spec fn namespace(self) -> Seq<u8> {
        match self {
            PossessorIdentity::Track => seq![105u8],
            PossessorIdentity::Account => seq![115u8, 112],
            PossessorIdentity::Artist => seq![114u8],
            PossessorIdentity::Album => seq![108u8],
            PossessorIdentity::Collection => seq![112u8],
        }
    }

    /// The namespace that starts a cloud library id of this kind.
    pub fn into_namespace(self) -> (r: &'static str)
        ensures
            bytes_of(r) == self.namespace(),
    {
        proof {
            reveal_strlit("i");
            reveal_strlit("sp");
            reveal_strlit("r");
            reveal_strlit("l");
            reveal_strlit("p");
            crate::text::lemma_ascii_bytes("i");
            crate::text::lemma_ascii_bytes("sp");
            crate::text::lemma_ascii_bytes("r");
            crate::text::lemma_ascii_bytes("l");
            crate::text::lemma_ascii_bytes("p");
        }
        match self {
            PossessorIdentity::Track => "i",
            PossessorIdentity::Account => "sp",
            PossessorIdentity::Artist => "r",
            PossessorIdentity::Album => "l",
            PossessorIdentity::Collection => "p",
        }
    }
}

/// A type of entity that ids of the library name.
pub trait Possessor {
    /// The kind of entity.
    spec fn kind() -> PossessorIdentity;

    /// The kind of entity.
    fn identity() -> (r: PossessorIdentity)
        ensures
            r == Self::kind(),
    ;
}

/// What a track's ids name.
#[derive(Debug)]
pub struct TrackKind;

/// What an account's ids name.
#[derive(Debug)]
pub struct AccountKind;

/// What an artist's ids name.
#[derive(Debug)]
pub struct ArtistKind;

/// What an album's ids name.
#[derive(Debug)]
pub struct AlbumKind;

/// What a collection's ids name.
#[derive(Debug)]
pub struct CollectionKind;

impl Possessor for TrackKind {
    open spec fn kind() -> PossessorIdentity {
        PossessorIdentity::Track
    }

    fn identity() -> (r: PossessorIdentity) {
        PossessorIdentity::Track
    }
}

impl Possessor for AccountKind {
    open spec fn kind() -> PossessorIdentity {
        PossessorIdentity::Account
    }

    fn identity() -> (r: PossessorIdentity) {
        PossessorIdentity::Account
    }
}

impl Possessor for ArtistKind {
    open spec fn kind() -> PossessorIdentity {
        PossessorIdentity::Artist
    }

    fn identity() -> (r: PossessorIdentity) {
        PossessorIdentity::Artist
    }
}

impl Possessor for AlbumKind {
    open spec fn kind() -> PossessorIdentity {
        PossessorIdentity::Album
    }

    fn identity() -> (r: PossessorIdentity) {
        PossessorIdentity::Album
    }
}

impl Possessor for CollectionKind {
    open spec fn kind() -> PossessorIdentity {
        PossessorIdentity::Collection
    }

    fn identity() -> (r: PossessorIdentity) {
        PossessorIdentity::Collection
    }
}

/// The id of an entity stored within the library file. It never changes, and every entity
/// has one, local or from the cloud.
#[derive(Debug)]
pub struct PersistentId<T>(pub u64, pub core::marker::PhantomData<T>);

impl<T> Clone for PersistentId<T> {
    fn clone(&self) -> (r: Self)
        ensures
            r.0 == self.0,
    {
        PersistentId(self.0, core::marker::PhantomData)
    }
}

impl<T> Copy for PersistentId<T> {}

impl<T> PersistentId<T> {
    /// The id with the number `raw`.
    pub fn new(raw: u64) -> (r: Self)
        ensures
            r.0 == raw,
    {
        PersistentId(raw, core::marker::PhantomData)
    }

    /// The id written in hexadecimal.
    pub fn from_hex(value: &str) -> (r: Result<Self, ParseIntError>)
        ensures
            r matches Ok(id) ==> parse_result(bytes_of(value), 16, u64::MAX as nat) == Ok::<nat, ParseIntError>(id.0 as nat),
            r matches Err(e) ==> parse_result(bytes_of(value), 16, u64::MAX as nat) == Err::<nat, ParseIntError>(e),
    {
        let raw = parse_uint(value.as_bytes(), 16, u64::MAX)?;
        Ok(PersistentId::new(raw))
    }

    /// The number.
    pub fn get_raw(&self) -> (r: u64)
        ensures
            r == self.0,
    {
        self.0
    }

    /// Whether two ids are the same number.
    pub fn same(&self, other: &Self) -> (r: bool)
        ensures
            r == (self.0 == other.0),
    {
        self.0 == other.0
    }
}

/// A cloud library id did not start with the namespace of its kind.
#[derive(Debug, Clone, Copy, PartialEq, Eq, Structural)]
pub struct BadNamespaceError;

/// The id of a library entity in the cloud, scoped to the user: a short text that starts
/// with one or two letters (the namespace) and a full stop.
#[derive(Debug)]
pub struct CloudLibraryId<T> {
    pub value: String,
    pub kind: core::marker::PhantomData<T>,
}

impl<T: Possessor> CloudLibraryId<T> {
    /// The id written in `value`, if it starts with the namespace of `T`.
    pub fn new(value: &str) -> (r: Result<Self, BadNamespaceError>)
        ensures
            r is Ok <==> starts_with(bytes_of(value), T::kind().namespace()),
            r matches Ok(id) ==> id.value@ == value@,
    {
        let ns = T::identity().into_namespace();
        if crate::text::bytes_start_with(value.as_bytes(), ns.as_bytes()) {
            Ok(CloudLibraryId { value: String::from_str(value), kind: core::marker::PhantomData })
        } else {
            Err(BadNamespaceError)
        }
    }
}

impl<T> CloudLibraryId<T> {
    /// The id written in `value`; the caller vouches that it is a cloud library id of a `T`.
    pub fn new_unchecked(value: String) -> (r: Self)
        ensures
            r.value@ == value@,
    {
        CloudLibraryId { value, kind: core::marker::PhantomData }
    }
}

/// The id of a resource in the Apple Music catalog: a non-zero number.
#[derive(Debug)]
pub struct CloudCatalogId<T> {
    value: u32,
    kind: core::marker::PhantomData<T>,
}

impl<T> CloudCatalogId<T> {
    #[verifier::type_invariant]
    spec fn nonzero(self) -> bool {
        self.value != 0
    }

    /// The number.
    pub closed spec fn raw(self) -> u32 {
        self.value
    }

    /// The id with the number `value`, where it is not zero.
    pub fn new(value: u32) -> (r: Option<Self>)
        ensures
            r is Some <==> value != 0,
            r matches Some(id) ==> id.raw() == value,
    {
        if value == 0 {
            None
        } else {
            Some(CloudCatalogId { value, kind: core::marker::PhantomData })
        }
    }

    /// The number, never zero.
    pub fn get_raw(&self) -> (r: u32)
        ensures
            r == self.raw(),
            r != 0,
    {
        proof { use_type_invariant(self); }
        self.value
    }
}

} // verus!
