//! Asset pools: the storage family an asset lives in, such as `Music4`.
use vstd::prelude::*;
use vstd::utf8::decode_utf8;
use crate::text::{str_eq, bytes_of, find_from, is_digit, substr_ascii, lemma_chars_of, lemma_find_from_props, find_byte_from};
use crate::num::{ParseIntError, nonzero_u8_spec, parse_nonzero_u8};
use super::Read;

verus! {

/// Why a pool could not be read.
#[derive(Debug, Clone, Copy, PartialEq, Eq, Structural)]
pub enum ParseError {
    UnknownVariant,
    DidNotTerminate,
    BadNumber(ParseIntError),
}

/// A storage family of assets, with an optional shard number.
#[derive(Debug, Clone, Copy, PartialEq, Eq, Structural)]
pub struct Pool {
    pub variant: Variant,
    /// Never zero when present.
    pub number: Option<u8>,
}

/// The known storage families.
#[derive(Debug, Clone, Copy, PartialEq, Eq, Structural)]
pub enum Variant {
    AppStore,
    AppStoreSource,
    Podcasts,
    Features,
    VideoHLS,
    Video,
    MusicArtistImages,
    Music,
    Books,
    FuseSocial,
    CobaltPublic,
}

/// The name under which a storage family appears in URLs.
pub open spec fn variant_name(v: Variant) -> Seq<char> {
    match v {
        Variant::AppStore => "Purple"@,
        Variant::AppStoreSource => "PurpleSource"@,
        Variant::Podcasts => "Podcasts"@,
        Variant::Features => "Features"@,
        Variant::VideoHLS => "HLSVideo"@,
        Variant::Video => "Video"@,
        Variant::MusicArtistImages => "AMCArtistImages"@,
        Variant::Music => "Music"@,
        Variant::Books => "Publication"@,
        Variant::FuseSocial => "FuseSocial"@,
        Variant::CobaltPublic => "CobaltPublic"@,
    }
}

/// The storage family with the given name, if any.
pub open spec fn variant_from_name(s: Seq<char>) -> Option<Variant> {
    if s == "Purple"@ {
        Some(Variant::AppStore)
    } else if s == "PurpleSource"@ {
        Some(Variant::AppStoreSource)
    } else if s == "Podcasts"@ {
        Some(Variant::Podcasts)
    } else if s == "Features"@ {
        Some(Variant::Features)
    } else if s == "HLSVideo"@ {
        Some(Variant::VideoHLS)
    } else if s == "Video"@ {
        Some(Variant::Video)
    } else if s == "AMCArtistImages"@ {
        Some(Variant::MusicArtistImages)
    } else if s == "Music"@ {
        Some(Variant::Music)
    } else if s == "Publication"@ {
        Some(Variant::Books)
    } else if s == "FuseSocial"@ {
        Some(Variant::FuseSocial)
    } else if s == "CobaltPublic"@ {
        Some(Variant::CobaltPublic)
    } else {
        None
    }
}

impl Variant {
    /// The storage family named by `input`, if any.
    pub fn from_str(input: &str) -> (r: Option<Self>)
        ensures
            r == variant_from_name(input@),
    {
        if str_eq(input, "Purple") {
            Some(Self::AppStore)
        } else if str_eq(input, "PurpleSource") {
            Some(Self::AppStoreSource)
        } else if str_eq(input, "Podcasts") {
            Some(Self::Podcasts)
        } else if str_eq(input, "Features") {
            Some(Self::Features)
        } else if str_eq(input, "HLSVideo") {
            Some(Self::VideoHLS)
        } else if str_eq(input, "Video") {
            Some(Self::Video)
        } else if str_eq(input, "AMCArtistImages") {
            Some(Self::MusicArtistImages)
        } else if str_eq(input, "Music") {
            Some(Self::Music)
        } else if str_eq(input, "Publication") {
            Some(Self::Books)
        } else if str_eq(input, "FuseSocial") {
            Some(Self::FuseSocial)
        } else if str_eq(input, "CobaltPublic") {
            Some(Self::CobaltPublic)
        } else {
            None
        }
    }

    /// The name of this storage family.
    pub fn to_str(&self) -> (r: &'static str)
        ensures
            r@ == variant_name(*self),
    {
        match self {
            Self::AppStore => "Purple",
            Self::AppStoreSource => "PurpleSource",
            Self::Podcasts => "Podcasts",
            Self::Features => "Features",
            Self::VideoHLS => "HLSVideo",
            Self::Video => "Video",
            Self::MusicArtistImages => "AMCArtistImages",
            Self::Music => "Music",
            Self::Books => "Publication",
            Self::FuseSocial => "FuseSocial",
            Self::CobaltPublic => "CobaltPublic",
        }
    }
}

/// Reading the name of a storage family gives that storage family.
pub proof fn law_variant_name_roundtrip(v: Variant)
    ensures
        variant_from_name(variant_name(v)) == Some(v),
{
    reveal_strlit("Purple");
    reveal_strlit("PurpleSource");
    reveal_strlit("Podcasts");
    reveal_strlit("Features");
    reveal_strlit("HLSVideo");
    reveal_strlit("Video");
    reveal_strlit("AMCArtistImages");
    reveal_strlit("Music");
    reveal_strlit("Publication");
    reveal_strlit("FuseSocial");
    reveal_strlit("CobaltPublic");
    let n = variant_name(v);
    if n.len() == 12 {
        assert(n[0] == 'P' || n[0] == 'C');
    }
    if n.len() == 8 {
        assert(n[0] == 'P' || n[0] == 'F' || n[0] == 'H');
    }
    if n.len() == 5 {
        assert(n[0] == 'V' || n[0] == 'M');
    }
}

/// Storage families are written with Apple's names: `Purple` the App Store, `PurpleSource` its
/// sources, `HLSVideo` streamed video, `AMCArtistImages` artist images, `Publication` books,
/// and `Podcasts`, `Features`, `Video`, `Music`, `FuseSocial`, `CobaltPublic` as they stand;
/// each name reads as its family.
pub proof fn law_variant_names()
    ensures
        variant_name(Variant::AppStore) == seq!['P', 'u', 'r', 'p', 'l', 'e'],
        variant_name(Variant::AppStoreSource) == seq!['P', 'u', 'r', 'p', 'l', 'e', 'S', 'o', 'u', 'r', 'c', 'e'],
        variant_name(Variant::Podcasts) == seq!['P', 'o', 'd', 'c', 'a', 's', 't', 's'],
        variant_name(Variant::Features) == seq!['F', 'e', 'a', 't', 'u', 'r', 'e', 's'],
        variant_name(Variant::VideoHLS) == seq!['H', 'L', 'S', 'V', 'i', 'd', 'e', 'o'],
        variant_name(Variant::Video) == seq!['V', 'i', 'd', 'e', 'o'],
        variant_name(Variant::MusicArtistImages) == seq!['A', 'M', 'C', 'A', 'r', 't', 'i', 's', 't', 'I', 'm', 'a', 'g', 'e', 's'],
        variant_name(Variant::Music) == seq!['M', 'u', 's', 'i', 'c'],
        variant_name(Variant::Books) == seq!['P', 'u', 'b', 'l', 'i', 'c', 'a', 't', 'i', 'o', 'n'],
        variant_name(Variant::FuseSocial) == seq!['F', 'u', 's', 'e', 'S', 'o', 'c', 'i', 'a', 'l'],
        variant_name(Variant::CobaltPublic) == seq!['C', 'o', 'b', 'a', 'l', 't', 'P', 'u', 'b', 'l', 'i', 'c'],
        variant_from_name(seq!['P', 'u', 'r', 'p', 'l', 'e']) == Some(Variant::AppStore),
        variant_from_name(seq!['P', 'u', 'r', 'p', 'l', 'e', 'S', 'o', 'u', 'r', 'c', 'e']) == Some(Variant::AppStoreSource),
        variant_from_name(seq!['P', 'o', 'd', 'c', 'a', 's', 't', 's']) == Some(Variant::Podcasts),
        variant_from_name(seq!['F', 'e', 'a', 't', 'u', 'r', 'e', 's']) == Some(Variant::Features),
        variant_from_name(seq!['H', 'L', 'S', 'V', 'i', 'd', 'e', 'o']) == Some(Variant::VideoHLS),
        variant_from_name(seq!['V', 'i', 'd', 'e', 'o']) == Some(Variant::Video),
        variant_from_name(seq!['A', 'M', 'C', 'A', 'r', 't', 'i', 's', 't', 'I', 'm', 'a', 'g', 'e', 's']) == Some(Variant::MusicArtistImages),
        variant_from_name(seq!['M', 'u', 's', 'i', 'c']) == Some(Variant::Music),
        variant_from_name(seq!['P', 'u', 'b', 'l', 'i', 'c', 'a', 't', 'i', 'o', 'n']) == Some(Variant::Books),
        variant_from_name(seq!['F', 'u', 's', 'e', 'S', 'o', 'c', 'i', 'a', 'l']) == Some(Variant::FuseSocial),
        variant_from_name(seq!['C', 'o', 'b', 'a', 'l', 't', 'P', 'u', 'b', 'l', 'i', 'c']) == Some(Variant::CobaltPublic),
{
    reveal_strlit("Purple");
    reveal_strlit("PurpleSource");
    reveal_strlit("Podcasts");
    reveal_strlit("Features");
    reveal_strlit("HLSVideo");
    reveal_strlit("Video");
    reveal_strlit("AMCArtistImages");
    reveal_strlit("Music");
    reveal_strlit("Publication");
    reveal_strlit("FuseSocial");
    reveal_strlit("CobaltPublic");
    assert(seq!['P', 'u', 'r', 'p', 'l', 'e'] =~= "Purple"@);
    assert(seq!['P', 'u', 'r', 'p', 'l', 'e', 'S', 'o', 'u', 'r', 'c', 'e'] =~= "PurpleSource"@);
    assert(seq!['P', 'o', 'd', 'c', 'a', 's', 't', 's'] =~= "Podcasts"@);
    assert(seq!['F', 'e', 'a', 't', 'u', 'r', 'e', 's'] =~= "Features"@);
    assert(seq!['H', 'L', 'S', 'V', 'i', 'd', 'e', 'o'] =~= "HLSVideo"@);
    assert(seq!['V', 'i', 'd', 'e', 'o'] =~= "Video"@);
    assert(seq!['A', 'M', 'C', 'A', 'r', 't', 'i', 's', 't', 'I', 'm', 'a', 'g', 'e', 's'] =~= "AMCArtistImages"@);
    assert(seq!['M', 'u', 's', 'i', 'c'] =~= "Music"@);
    assert(seq!['P', 'u', 'b', 'l', 'i', 'c', 'a', 't', 'i', 'o', 'n'] =~= "Publication"@);
    assert(seq!['F', 'u', 's', 'e', 'S', 'o', 'c', 'i', 'a', 'l'] =~= "FuseSocial"@);
    assert(seq!['C', 'o', 'b', 'a', 'l', 't', 'P', 'u', 'b', 'l', 'i', 'c'] =~= "CobaltPublic"@);
}

/// The index of the first digit or slash in `b` at or after `i`.
pub open spec fn find_stop(b: Seq<u8>, i: int) -> Option<int>
    decreases b.len() - i,
{
    if i < 0 || i >= b.len() {
        None
    } else if is_digit(b[i]) || b[i] == 47 {
        Some(i)
    } else {
        find_stop(b, i + 1)
    }
}

/// What reading a pool from the bytes `b` gives.
pub open spec fn pool_read_spec(b: Seq<u8>) -> Result<Read<Pool>, ParseError> {
    match find_stop(b, 0) {
        None => Err(ParseError::DidNotTerminate),
        Some(stop) => if b[stop] == 47 {
            match variant_from_name(decode_utf8(b.subrange(0, stop))) {
                None => Err(ParseError::UnknownVariant),
                Some(v) => Ok(Read { value: Pool { variant: v, number: None }, bytes: (stop + 1) as usize }),
            }
        } else {
            match find_from(b, 47, stop) {
                None => Err(ParseError::DidNotTerminate),
                Some(slash) => match nonzero_u8_spec(b.subrange(stop, slash)) {
                    Err(e) => Err(ParseError::BadNumber(e)),
                    Ok(n) => match variant_from_name(decode_utf8(b.subrange(0, stop))) {
                        None => Err(ParseError::UnknownVariant),
                        Some(v) => Ok(Read { value: Pool { variant: v, number: Some(n) }, bytes: (slash + 1) as usize }),
                    },
                },
            }
        }
    }
}

proof fn lemma_find_stop_props(b: Seq<u8>, i: int)
    requires
        0 <= i,
    ensures
        find_stop(b, i) matches Some(k) ==> i <= k < b.len() && (is_digit(b[k]) || b[k] == 47),
    decreases b.len() - i,
{
    if 0 <= i < b.len() && !(is_digit(b[i]) || b[i] == 47) {
        lemma_find_stop_props(b, i + 1);
    }
}

impl Pool {
    /// Reads a pool, such as `Music4/`, from the start of `input`, including its terminating slash.
    pub fn read(input: &str) -> (r: Result<Read<Self>, ParseError>)
        ensures
            r == pool_read_spec(bytes_of(input)),
            r matches Ok(p) ==> 0 < p.bytes <= bytes_of(input).len() && bytes_of(input)[p.bytes - 1] == 47,
    {
        let b = input.as_bytes();
        let n = b.len();
        let mut stop: usize = 0;
        while stop < n && !((48 <= b[stop] && b[stop] <= 57) || b[stop] == 47)
            invariant
                stop <= n,
                n == b@.len(),
                b@ == bytes_of(input),
                find_stop(b@, 0) == find_stop(b@, stop as int),
            decreases n - stop,
        {
            stop = stop + 1;
        }
        if stop == n {
            return Err(ParseError::DidNotTerminate);
        }
        let ghost prefix = b@.subrange(0, stop as int);
        let name = substr_ascii(input, 0, stop);
        proof { lemma_chars_of(name); }
        if b[stop] == 47 {
            match Variant::from_str(name) {
                None => Err(ParseError::UnknownVariant),
                Some(v) => Ok(Read { value: Pool { variant: v, number: None }, bytes: stop + 1 }),
            }
        } else {
            match find_byte_from(b, 47, stop) {
                None => Err(ParseError::DidNotTerminate),
                Some(slash) => {
                    proof { lemma_find_from_props(b@, 47, stop as int); }
                    let digits = substr_ascii(input, stop, slash);
                    match parse_nonzero_u8(digits) {
                        Err(e) => Err(ParseError::BadNumber(e)),
                        Ok(number) => match Variant::from_str(name) {
                            None => Err(ParseError::UnknownVariant),
                            Some(v) => Ok(Read { value: Pool { variant: v, number: Some(number) }, bytes: slash + 1 }),
                        },
                    }
                },
            }
        }
    }
}

/// The text of a pool: its variant's name, then its number where it has one.
pub open spec fn pool_text(p: Pool) -> Seq<char> {
    match p.number {
        Some(n) => variant_name(p.variant) + crate::num::decimal(n as nat),
        None => variant_name(p.variant),
    }
}

impl Pool {
    /// The pool's text, such as `Music4`.
    pub fn to_string(&self) -> (r: String)
        ensures
            r@ == pool_text(*self),
    {
        let mut out = String::from_str(self.variant.to_str());
        if let Some(n) = self.number {
            crate::num::push_decimal(n as u64, &mut out);
        }
        out
    }
}

} // verus!
