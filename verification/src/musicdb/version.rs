//! Versions of the Apple Music application.
use vstd::prelude::*;
use crate::num::{decimal, parse_result, parse_uint, push_decimal, ParseIntError};
use crate::text::bytes_of;

verus! {

/// Why a version text could not be read.
#[derive(Debug, Clone, Copy, PartialEq, Eq, Structural)]
pub enum VersionParseError {
    TooManyComponents,
    ParseFailure(ParseIntError),
    NotEnoughComponents,
}

/// A version of a macOS Apple Music installation, of four components. Their exact meaning
/// is unknown; they are ordered as SemVer orders its numbers, major first.
#[derive(Debug, Clone, Copy, PartialEq, Eq, Structural)]
pub struct AppleMusicVersion {
    pub major: u8,
    pub minor: u16,
    pub patch: u16,
    pub revision: u32,
}

/// The components of a version text: the pieces between full stops, a final empty piece
/// dropped (as `split_terminator` drops it).
pub open spec fn components(b: Seq<u8>) -> Seq<Seq<u8>>
    decreases b.len(),
{
    match crate::text::find(b, 46) {
        Some(i) => if 0 <= i < b.len() {
            seq![b.take(i)] + components(b.skip(i + 1))
        } else {
            Seq::empty()
        },
        None => if b.len() == 0 {
            Seq::empty()
        } else {
            seq![b]
        },
    }
}

/// Whether `a` comes before `b`: components compared in order, major first.
pub open spec fn version_lt(a: AppleMusicVersion, b: AppleMusicVersion) -> bool {
    ||| a.major < b.major
    ||| a.major == b.major && a.minor < b.minor
    ||| a.major == b.major && a.minor == b.minor && a.patch < b.patch
    ||| a.major == b.major && a.minor == b.minor && a.patch == b.patch && a.revision < b.revision
}

/// Versions are ordered strictly and totally: none comes before itself, the order is
/// transitive, and of two different versions exactly one comes before the other.
pub proof fn law_version_order(a: AppleMusicVersion, b: AppleMusicVersion, c: AppleMusicVersion)
    ensures
        !version_lt(a, a),
        version_lt(a, b) && version_lt(b, c) ==> version_lt(a, c),
        !(version_lt(a, b) && version_lt(b, a)),
        a != b ==> version_lt(a, b) || version_lt(b, a),
{
}

/// The bound of the `i`th component.
pub open spec fn component_max(i: int) -> nat {
    if i == 0 {
        255
    } else if i == 3 {
        0xffff_ffff
    } else {
        65535
    }
}

/// The first error met in parsing the first `n` components, if any.
pub open spec fn first_error(c: Seq<Seq<u8>>, n: int) -> Result<(), VersionParseError>
    decreases n,
{
    if n <= 0 {
        Ok(())
    } else {
        match first_error(c, n - 1) {
            Err(e) => Err(e),
            Ok(_) => match parse_result(c[n - 1], 10, component_max(n - 1)) {
                Err(e) => Err(VersionParseError::ParseFailure(e)),
                Ok(_) => Ok(()),
            },
        }
    }
}

/// The number a component denotes, where it parses.
pub open spec fn component_value(c: Seq<Seq<u8>>, i: int) -> nat {
    match parse_result(c[i], 10, component_max(i)) {
        Ok(v) => v,
        Err(_) => 0,
    }
}

/// The value of a version text: four decimal components; the first error met in order
/// where a component does not parse; else too many where a fifth follows, too few where
/// there are not four.
pub open spec fn version_of(b: Seq<u8>) -> Result<AppleMusicVersion, VersionParseError> {
    let c = components(b);
    let k = if c.len() < 4 { c.len() as int } else { 4 };
    match first_error(c, k) {
        Err(e) => Err(e),
        Ok(_) => if c.len() > 4 {
            Err(VersionParseError::TooManyComponents)
        } else if c.len() < 4 {
            Err(VersionParseError::NotEnoughComponents)
        } else {
            Ok(AppleMusicVersion {
                major: component_value(c, 0) as u8,
                minor: component_value(c, 1) as u16,
                patch: component_value(c, 2) as u16,
                revision: component_value(c, 3) as u32,
            })
        },
    }
}

/// Once an error is met, later components do not change it.
proof fn lemma_first_error_stable(c: Seq<Seq<u8>>, k: int, m: int)
    requires
        0 <= k <= m,
        first_error(c, k) is Err,
    ensures
        first_error(c, m) == first_error(c, k),
    decreases m - k,
{
    if m > k {
        lemma_first_error_stable(c, k, m - 1);
    }
}

/// The pieces of `b` between full stops.
fn split_dots<'a>(b: &'a [u8]) -> (r: Vec<&'a [u8]>)
    ensures
        r@.map_values(|p: &[u8]| p@) == components(b@),
{
    let mut out: Vec<&'a [u8]> = Vec::new();
    let mut start: usize = 0;
    assert(b@.skip(0) =~= b@);
    assert(out@.map_values(|p: &[u8]| p@) =~= Seq::<Seq<u8>>::empty());
    assert(Seq::<Seq<u8>>::empty() + components(b@) =~= components(b@));
    while start < b.len()
        invariant
            start <= b@.len(),
            out@.map_values(|p: &[u8]| p@) + components(b@.skip(start as int)) == components(b@),
        decreases b@.len() - start,
    {
        let ghost rest = b@.skip(start as int);
        let ghost before = out@.map_values(|p: &[u8]| p@);
        proof {
            crate::text::lemma_find_from_shift(b@, 46, start as int);
            crate::text::lemma_find_from_props(b@, 46, start as int);
        }
        match crate::text::find_byte_from(b, 46, start) {
            Some(i) => {
                let piece = vstd::slice::slice_subrange(b, start, i);
                out.push(piece);
                proof {
                    assert(crate::text::find(rest, 46) == Some(i - start));
                    assert(rest.take(i - start) =~= piece@);
                    assert(rest.skip(i - start + 1) =~= b@.skip(i + 1));
                    assert(out@.map_values(|p: &[u8]| p@) =~= before.push(piece@));
                    assert(before.push(piece@) + components(b@.skip(i + 1)) =~= before + components(rest));
                }
                start = i + 1;
            },
            None => {
                let piece = vstd::slice::slice_subrange(b, start, b.len());
                out.push(piece);
                proof {
                    assert(rest =~= piece@);
                    assert(components(rest) == seq![rest]);
                    assert(out@.map_values(|p: &[u8]| p@) =~= before.push(piece@));
                    assert(components(b@.skip(b@.len() as int)) =~= Seq::<Seq<u8>>::empty());
                    assert(before.push(piece@) + Seq::<Seq<u8>>::empty() =~= before + components(rest));
                }
                start = b.len();
            },
        }
    }
    proof {
        assert(components(b@.skip(start as int)) =~= Seq::<Seq<u8>>::empty());
        assert(out@.map_values(|p: &[u8]| p@) + Seq::<Seq<u8>>::empty() =~= out@.map_values(|p: &[u8]| p@));
    }
    out
}

impl AppleMusicVersion {
    /// Reads a version written as four numbers separated by full stops.
    pub fn from_str(s: &str) -> (r: Result<Self, VersionParseError>)
        ensures
            r == version_of(bytes_of(s)),
    {
        let parts = split_dots(s.as_bytes());
        let ghost c = components(bytes_of(s));
        let n = parts.len();
        let k = if n < 4 { n } else { 4 };
        let mut values: [u64; 4] = [0u64; 4];
        let mut i: usize = 0;
        while i < k
            invariant
                c == components(bytes_of(s)),
                parts@.map_values(|p: &[u8]| p@) == c,
                n == c.len(),
                k == (if n < 4 { n } else { 4 }),
                i <= k,
                values@.len() == 4,
                first_error(c, i as int) == Ok::<(), VersionParseError>(()),
                forall|j: int| 0 <= j < i ==> parse_result(c[j], 10, component_max(j)) == Ok::<nat, ParseIntError>(#[trigger] values@[j] as nat),
            decreases k - i,
        {
            let max: u64 = if i == 0 { 255 } else if i == 3 { 0xffff_ffff } else { 65535 };
            assert(parts@[i as int]@ == c[i as int]);
            match parse_uint(parts[i], 10, max) {
                Ok(v) => {
                    values.set(i, v);
                },
                Err(e) => {
                    proof {
                        assert(max as nat == component_max(i as int));
                        assert(parse_result(c[i as int], 10, component_max(i as int)) == Err::<nat, ParseIntError>(e));
                        assert(first_error(c, i as int + 1) == Err::<(), VersionParseError>(VersionParseError::ParseFailure(e)));
                        lemma_first_error_stable(c, i as int + 1, k as int);
                    }
                    return Err(VersionParseError::ParseFailure(e));
                },
            }
            i = i + 1;
        }
        if n > 4 {
            return Err(VersionParseError::TooManyComponents);
        }
        if n < 4 {
            return Err(VersionParseError::NotEnoughComponents);
        }
        proof {
            crate::num::lemma_parse_result_bound(c[0], 10, 255);
            crate::num::lemma_parse_result_bound(c[1], 10, 65535);
            crate::num::lemma_parse_result_bound(c[2], 10, 65535);
            crate::num::lemma_parse_result_bound(c[3], 10, 0xffff_ffff);
            assert(values@[0] as nat == component_value(c, 0));
            assert(values@[1] as nat == component_value(c, 1));
            assert(values@[2] as nat == component_value(c, 2));
            assert(values@[3] as nat == component_value(c, 3));
        }
        Ok(AppleMusicVersion {
            major: values[0] as u8,
            minor: values[1] as u16,
            patch: values[2] as u16,
            revision: values[3] as u32,
        })
    }

    /// Whether this version comes before `other`.
    pub fn lt(&self, other: &Self) -> (r: bool)
        ensures
            r == version_lt(*self, *other),
    {
        if self.major != other.major {
            return self.major < other.major;
        }
        if self.minor != other.minor {
            return self.minor < other.minor;
        }
        if self.patch != other.patch {
            return self.patch < other.patch;
        }
        self.revision < other.revision
    }

    /// The version written as its four numbers separated by full stops.
    pub fn to_string(&self) -> (r: String)
        ensures
            r@ == decimal(self.major as nat) + seq!['.'] + decimal(self.minor as nat) + seq!['.']
                + decimal(self.patch as nat) + seq!['.'] + decimal(self.revision as nat),
    {
        let mut out = String::new();
        push_decimal(self.major as u64, &mut out);
        crate::unaligned_u16::utf16::push_char(&mut out, '.');
        push_decimal(self.minor as u64, &mut out);
        crate::unaligned_u16::utf16::push_char(&mut out, '.');
        push_decimal(self.patch as u64, &mut out);
        crate::unaligned_u16::utf16::push_char(&mut out, '.');
        push_decimal(self.revision as u64, &mut out);
        out
    }
}

} // verus!
