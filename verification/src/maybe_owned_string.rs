//! Text that is either borrowed or owned.
use vstd::prelude::*;
use crate::text::str_eq;

verus! {

/// A value that is either a reference to a string slice or an owned string.
#[derive(Debug)]
pub enum MaybeOwnedString<'a> {
    /// A borrowed string.
    Borrowed(&'a str),
    /// An owned string.
    Owned(String),
}

impl<'a> View for MaybeOwnedString<'a> {
    type V = Seq<char>;

    open spec fn view(&self) -> Seq<char> {
        match self {
            MaybeOwnedString::Borrowed(s) => s@,
            MaybeOwnedString::Owned(s) => s@,
        }
    }
}

impl<'a> MaybeOwnedString<'a> {
    /// The held text.
    pub fn as_str(&self) -> (r: &str)
        ensures
            r@ == self@,
    {
        match self {
            MaybeOwnedString::Borrowed(s) => s,
            MaybeOwnedString::Owned(s) => s.as_str(),
        }
    }

    /// Whether this is a string slice reference.
    pub fn is_borrowed(&self) -> (r: bool)
        ensures
            r == (self is Borrowed),
    {
        match self {
            MaybeOwnedString::Borrowed(_) => true,
            MaybeOwnedString::Owned(_) => false,
        }
    }

    /// Whether an owned string is held.
    pub fn is_owned(&self) -> (r: bool)
        ensures
            r == (self is Owned),
    {
        match self {
            MaybeOwnedString::Borrowed(_) => false,
            MaybeOwnedString::Owned(_) => true,
        }
    }

    /// Returns the held inner owned string, if this string is owned.
    pub fn into_inner_owned(self) -> (r: Option<String>)
        ensures
            self is Owned ==> (r matches Some(s) && s@ == self@),
            self is Borrowed ==> r is None,
    {
        match self {
            MaybeOwnedString::Owned(s) => Some(s),
            MaybeOwnedString::Borrowed(_) => None,
        }
    }

    /// An owned copy of the held text.
    pub fn to_owned_string(&self) -> (r: String)
        ensures
            r@ == self@,
    {
        match self {
            MaybeOwnedString::Borrowed(s) => {
                let t: &str = *s;
                t.to_owned()
            },
            MaybeOwnedString::Owned(s) => s.clone(),
        }
    }

    /// An empty borrowed string.
    pub fn empty() -> (r: Self)
        ensures
            r@ == Seq::<char>::empty(),
            r is Borrowed,
    {
        let s = "";
        proof { reveal_strlit(""); }
        MaybeOwnedString::Borrowed(s)
    }
}

impl<'a> Clone for MaybeOwnedString<'a> {
    fn clone(&self) -> (r: Self)
        ensures
            r@ == self@,
            (r is Borrowed) == (self is Borrowed),
    {
        match self {
            MaybeOwnedString::Borrowed(s) => MaybeOwnedString::Borrowed(s),
            MaybeOwnedString::Owned(s) => MaybeOwnedString::Owned(s.clone()),
        }
    }

    /// Takes the text of `source`: a borrowed text stays borrowed only where `source` is
    /// borrowed too; otherwise the text is owned.
    fn clone_from(&mut self, source: &Self)
        ensures
            final(self)@ == source@,
            (*final(self) is Borrowed) == (*old(self) is Borrowed && *source is Borrowed),
    {
        let next = match (&*self, source) {
            (MaybeOwnedString::Borrowed(_), MaybeOwnedString::Borrowed(rhs)) => MaybeOwnedString::Borrowed(*rhs),
            (_, MaybeOwnedString::Borrowed(rhs)) => MaybeOwnedString::Owned(String::from_str(rhs)),
            (_, MaybeOwnedString::Owned(rhs)) => MaybeOwnedString::Owned(String::from_str(rhs.as_str())),
        };
        *self = next;
    }
}

impl<'a> PartialEq for MaybeOwnedString<'a> {
    fn eq(&self, other: &Self) -> (r: bool) {
        str_eq(self.as_str(), other.as_str())
    }
}

impl<'a> vstd::std_specs::cmp::PartialEqSpecImpl for MaybeOwnedString<'a> {
    open spec fn obeys_eq_spec() -> bool {
        true
    }

    open spec fn eq_spec(&self, other: &Self) -> bool {
        self@ == other@
    }
}

impl<'a> Eq for MaybeOwnedString<'a> {
}

/// A string that, when deserialized, always holds its own copy of the text.
#[derive(Debug)]
pub struct MaybeOwnedStringDeserializeToOwned<'a>(pub MaybeOwnedString<'a>);

impl<'a> MaybeOwnedStringDeserializeToOwned<'a> {
    /// Wraps `inner`.
    pub fn new(inner: MaybeOwnedString<'a>) -> (r: Self)
        ensures
            r.0@ == inner@,
            (r.0 is Borrowed) == (inner is Borrowed),
    {
        MaybeOwnedStringDeserializeToOwned(inner)
    }

    /// Wraps an owned string.
    pub fn owned(inner: String) -> (r: Self)
        ensures
            r.0@ == inner@,
            r.0 is Owned,
    {
        MaybeOwnedStringDeserializeToOwned(MaybeOwnedString::Owned(inner))
    }

    /// Wraps a borrowed string.
    pub fn borrowed(inner: &'a str) -> (r: Self)
        ensures
            r.0@ == inner@,
            r.0 is Borrowed,
    {
        MaybeOwnedStringDeserializeToOwned(MaybeOwnedString::Borrowed(inner))
    }

    /// The wrapped string.
    pub fn into_inner(self) -> (r: MaybeOwnedString<'a>)
        ensures
            r@ == self.0@,
            (r is Borrowed) == (self.0 is Borrowed),
    {
        self.0
    }
}

} // verus!
