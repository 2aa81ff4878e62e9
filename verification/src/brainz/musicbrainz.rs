//! MusicBrainz ids, the entities they name, and the User-Agent a client sends.
use vstd::prelude::*;
use crate::brainz::HyphenatedUuidString;
use crate::maybe_owned_string::MaybeOwnedString;
use crate::text::{bytes_of, lemma_ascii_bytes};

verus! {

/// The kinds of thing that MusicBrainz gives ids to.
#[derive(Debug, Clone, Copy, PartialEq, Eq, Structural)]
pub enum IdSubject {
    Area,
    Artist,
    Event,
    Instrument,
    Label,
    Place,
    Recording,
    Release,
    ReleaseGroup,
    Series,
    Track,
    Work,
}

/// A type whose values MusicBrainz names by id.
pub trait IdPossessor {
    /// The kind of thing that the type is.
    fn variant() -> IdSubject;
}

/// The MusicBrainz id of a `T`.
#[derive(PartialEq, Eq, PartialOrd, Ord)]
pub struct Id<T: IdPossessor>(HyphenatedUuidString, core::marker::PhantomData<T>);

impl<T: IdPossessor> Clone for Id<T> {
    fn clone(&self) -> (r: Self)
        ensures
            r@ == self@,
    {
        Id(self.0, core::marker::PhantomData)
    }
}

impl<T: IdPossessor> Copy for Id<T> {}

impl<T: IdPossessor> View for Id<T> {
    type V = Seq<u8>;

    closed spec fn view(&self) -> Seq<u8> {
        self.0@
    }
}

impl<T: IdPossessor> Id<T> {
    /// The id's text.
    pub fn as_str(&self) -> (r: &str)
        ensures
            bytes_of(r) == self@,
    {
        self.0.as_str()
    }

    /// The UUID, without what it is the id of.
    pub fn contextless(self) -> (r: HyphenatedUuidString)
        ensures
            r@ == self@,
    {
        self.0
    }

    /// The UUID taken as the id of a `T`; the caller vouches for what it names.
    pub fn from_contextless(uuid: HyphenatedUuidString) -> (r: Id<T>)
        ensures
            r@ == uuid@,
    {
        Id(uuid, core::marker::PhantomData)
    }
}

/// What the id of an [`Artist`] names. (An artist cannot name itself in its own id's type:
/// a type may not hold itself.)
pub struct ArtistKind;

impl IdPossessor for ArtistKind {
    fn variant() -> IdSubject {
        IdSubject::Artist
    }
}

/// What the id of a [`Recording`] names.
pub struct RecordingKind;

impl IdPossessor for RecordingKind {
    fn variant() -> IdSubject {
        IdSubject::Recording
    }
}

/// A MusicBrainz artist, as far as this library reads one.
pub struct Artist {
    /// The MusicBrainz ID of the artist.
    pub id: Id<ArtistKind>,
    /// The official name of the artist.
    pub name: String,
    /// The name of the artist in a format meant for sorting.
    pub sort_name: String,
    /// The gender that the artist (if singular) identifies with; absent for groups.
    pub gender: Option<Gender>,
}

/// The type of artist.
#[derive(Debug, Clone, Copy, PartialEq, Eq, Structural)]
pub enum Type {
    /// An individual person.
    Person,
    /// A group of people that may or may not have a distinct name.
    Group,
    /// A large instrumental ensemble.
    Orchestra,
    /// A large vocal ensemble.
    Choir,
    /// A fictitious individual character.
    Character,
    /// Anything which does not fit into the above categories.
    Other,
}

/// The gender an artist identifies with.
#[derive(Debug, Clone, Copy, PartialEq, Eq, Structural)]
pub enum Gender {
    Male,
    Female,
    NonBinary,
}

/// A byte with ASCII capitals made small.
pub open spec fn ascii_lower(b: u8) -> u8 {
    if 65 <= b <= 90 {
        (b + 32) as u8
    } else {
        b
    }
}

/// Whether two byte strings are equal when ASCII case is ignored.
pub open spec fn eq_ignore_ascii_case(a: Seq<u8>, b: Seq<u8>) -> bool {
    &&& a.len() == b.len()
    &&& forall|i: int| 0 <= i < a.len() ==> #[trigger] ascii_lower(a[i]) == ascii_lower(b[i])
}

/// `str::eq_ignore_ascii_case`: equal when ASCII case is ignored.
pub fn str_eq_ignore_ascii_case(a: &str, b: &str) -> (r: bool)
    ensures
        r == eq_ignore_ascii_case(bytes_of(a), bytes_of(b)),
{
    let x = a.as_bytes();
    let y = b.as_bytes();
    if x.len() != y.len() {
        return false;
    }
    let mut i: usize = 0;
    while i < x.len()
        invariant
            x@ == bytes_of(a),
            y@ == bytes_of(b),
            x@.len() == y@.len(),
            i <= x@.len(),
            forall|j: int| 0 <= j < i ==> #[trigger] ascii_lower(x@[j]) == ascii_lower(y@[j]),
        decreases x@.len() - i,
    {
        let p = if 65 <= x[i] && x[i] <= 90 { x[i] + 32 } else { x[i] };
        let q = if 65 <= y[i] && y[i] <= 90 { y[i] + 32 } else { y[i] };
        if p != q {
            assert(ascii_lower(x@[i as int]) != ascii_lower(y@[i as int]));
            return false;
        }
        i = i + 1;
    }
    true
}

/// The gender that a text names: "male" or "female" in any case, anything else non-binary.
pub open spec fn gender_named(b: Seq<u8>) -> Gender {
    if eq_ignore_ascii_case(b, seq![109u8, 97, 108, 101]) {
        Gender::Male
    } else if eq_ignore_ascii_case(b, seq![102u8, 101, 109, 97, 108, 101]) {
        Gender::Female
    } else {
        Gender::NonBinary
    }
}

impl<'a> From<&'a str> for Gender {
    fn from(s: &'a str) -> (r: Self) {
        let male = "male";
        let female = "female";
        proof {
            reveal_strlit("male");
            reveal_strlit("female");
            lemma_ascii_bytes("male");
            lemma_ascii_bytes("female");
            assert(bytes_of(male) =~= seq![109u8, 97, 108, 101]);
            assert(bytes_of(female) =~= seq![102u8, 101, 109, 97, 108, 101]);
        }
        if str_eq_ignore_ascii_case(s, male) {
            return Gender::Male;
        }
        if str_eq_ignore_ascii_case(s, female) {
            return Gender::Female;
        }
        Gender::NonBinary
    }
}

impl<'a> vstd::std_specs::convert::FromSpecImpl<&'a str> for Gender {
    open spec fn obeys_from_spec() -> bool {
        true
    }

    open spec fn from_spec(s: &'a str) -> Self {
        gender_named(bytes_of(s))
    }
}

/// An artist as named on one credit.
/// - <https://musicbrainz.org/doc/Artist_Credits>
pub struct Individual {
    pub id: Id<ArtistKind>,
    pub name: String,
    pub sort_name: String,
}

/// One entry of an artist credit.
/// - <https://musicbrainz.org/doc/Artist_Credits>
pub struct Credited {
    pub name: Option<String>,
    pub artist: Individual,
    pub join_phrase: Option<String>,
}

/// An alternative name of an entity.
/// - <https://musicbrainz.org/doc/Aliases>
pub struct Alias {
    pub locale: Option<String>,
    pub sort_name: String,
    pub name: String,
    pub primary: bool,
    pub alias_type: Option<String>,
}

/// A MusicBrainz release.
pub struct Release;

impl IdPossessor for Release {
    fn variant() -> IdSubject {
        IdSubject::Release
    }
}

/// A MusicBrainz release group.
pub struct ReleaseGroup;

impl IdPossessor for ReleaseGroup {
    fn variant() -> IdSubject {
        IdSubject::ReleaseGroup
    }
}

/// A MusicBrainz track.
pub struct Track;

impl IdPossessor for Track {
    fn variant() -> IdSubject {
        IdSubject::Track
    }
}

/// A MusicBrainz work.
pub struct Work;

impl IdPossessor for Work {
    fn variant() -> IdSubject {
        IdSubject::Work
    }
}

/// A MusicBrainz recording.
pub struct Recording {
    pub id: Id<RecordingKind>,
    pub title: String,
    pub artist_credit: Vec<Credited>,
}

/// A user-given tag.
pub struct Tag<'a>(pub MaybeOwnedString<'a>);

/// Details about the program using a MusicBrainz service.
pub struct ProgramInfo<'a> {
    pub name: MaybeOwnedString<'a>,
    pub version: Option<MaybeOwnedString<'a>>,
    /// Contact information for placement in the User-Agent for requests.
    /// - <https://wiki.musicbrainz.org/MusicBrainz_API/Rate_Limiting#Provide_meaningful_User-Agent_strings>
    pub contact: MaybeOwnedString<'a>,
}

/// The User-Agent text for a program: its name, its version right after it where there is
/// one, then the contact in brackets after a space.
pub open spec fn user_agent(name: Seq<char>, version: Option<Seq<char>>, contact: Seq<char>) -> Seq<char> {
    let v = match version {
        Some(v) => v,
        None => Seq::empty(),
    };
    name + v + seq![' ', '('] + contact + seq![')']
}

impl<'a> ProgramInfo<'a> {
    /// The version's text, where there is one.
    pub open spec fn version_view(&self) -> Option<Seq<char>> {
        match self.version {
            Some(v) => Some(v@),
            None => None,
        }
    }

    /// The User-Agent header value for requests made on behalf of this program.
    pub fn to_user_agent(&self) -> (r: String)
        ensures
            r@ == user_agent(self.name@, self.version_view(), self.contact@),
    {
        let mut out = String::from_str(self.name.as_str());
        match &self.version {
            Some(version) => out.append(version.as_str()),
            None => {},
        }
        let open = " (";
        let close = ")";
        proof {
            reveal_strlit(" (");
            reveal_strlit(")");
        }
        out.append(open);
        out.append(self.contact.as_str());
        out.append(close);
        out
    }
}

} // verus!
