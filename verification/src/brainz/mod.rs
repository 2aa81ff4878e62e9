//! The MusicBrainz family of services, and the hyphenated UUID text that they share.
pub mod cover_art_archive;
pub mod musicbrainz;
pub mod listenbrainz;

use vstd::prelude::*;
use crate::text::{ascii_str, ascii_text, bytes_of};

verus! {

/// Whether a byte is a hexadecimal digit, in either case.
pub open spec fn is_hex(c: u8) -> bool {
    (48 <= c <= 57) || (97 <= c <= 102) || (65 <= c <= 70)
}

/// Whether 36 bytes are a hyphenated UUID: hexadecimal digits in groups of 8, 4, 4, 4 and
/// 12, separated by hyphens.
pub open spec fn is_hyphenated_uuid(b: Seq<u8>) -> bool {
    &&& b.len() == 36
    &&& forall|i: int|
        0 <= i < 36 ==> if i == 8 || i == 13 || i == 18 || i == 23 {
            #[trigger] b[i] == 45
        } else {
            is_hex(b[i])
        }
}

/// Whether `uuid::Uuid::try_parse` accepts a 36-byte string.
///
/// On 36 bytes the crate's parser checks for hyphens at indices 8, 13, 18 and 23 and for
/// hexadecimal digits (either case) everywhere else; the contract says exactly that.
#[verifier::external_body]
fn uuid_accepts(s: &str) -> (r: bool)
    requires
        bytes_of(s).len() == 36,
    ensures
        r == is_hyphenated_uuid(bytes_of(s)),
{
    uuid::Uuid::try_parse(s).is_ok()
}

/// A hyphenated UUID, kept as its 36 bytes of text.
#[derive(Debug, Clone, Copy, PartialEq, Eq, PartialOrd, Ord)]
pub struct HyphenatedUuidString([u8; 36]);

impl View for HyphenatedUuidString {
    type V = Seq<u8>;

    closed spec fn view(&self) -> Seq<u8> {
        self.0@
    }
}

impl HyphenatedUuidString {
    #[verifier::type_invariant]
    spec fn inv(self) -> bool {
        is_hyphenated_uuid(self.0@)
    }

    /// The UUID written in `slice`, if it is a hyphenated UUID.
    pub fn new(slice: &str) -> (r: Option<HyphenatedUuidString>)
        ensures
            is_hyphenated_uuid(bytes_of(slice)) <==> r is Some,
            r matches Some(u) ==> u@ == bytes_of(slice),
    {
        let b = slice.as_bytes();
        if b.len() == 36 && uuid_accepts(slice) {
            let mut bytes = [0u8; 36];
            let mut i: usize = 0;
            while i < 36
                invariant
                    b@.len() == 36,
                    i <= 36,
                    bytes@.len() == 36,
                    forall|j: int| 0 <= j < i ==> bytes@[j] == b@[j],
                decreases 36 - i,
            {
                bytes.set(i, b[i]);
                i = i + 1;
            }
            assert(bytes@ =~= b@);
            Some(HyphenatedUuidString(bytes))
        } else {
            None
        }
    }

    /// The characters of the UUID's text.
    pub open spec fn text(&self) -> Seq<char> {
        ascii_text(self@)
    }

    /// The UUID's text.
    pub fn as_str(&self) -> (r: &str)
        ensures
            bytes_of(r) == self@,
            r@ == self.text(),
    {
        proof { use_type_invariant(self); }
        let b: &[u8] = self.0.as_slice();
        proof { lemma_uuid_ascii(b@); }
        ascii_str(b)
    }
}

/// A hyphenated UUID is ASCII.
proof fn lemma_uuid_ascii(b: Seq<u8>)
    requires
        is_hyphenated_uuid(b),
    ensures
        forall|i: int| 0 <= i < b.len() ==> #[trigger] b[i] < 128,
{
    assert forall|i: int| 0 <= i < b.len() implies #[trigger] b[i] < 128 by {
        if i == 8 || i == 13 || i == 18 || i == 23 {
        } else {
        }
    }
}

} // verus!
