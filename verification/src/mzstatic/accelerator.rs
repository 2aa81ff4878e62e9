//! Reverse-proxy ("Accelerator") directives, such as `us/r1000/000/`.
use vstd::prelude::*;
use vstd::slice::slice_subrange;
use vstd::utf8::decode_utf8;
use crate::text::{
    bytes_of, digit_run, find_from, all_digits, lemma_chars_of, lemma_digit_run_props,
    lemma_find_from_props, find_byte_from, substr_ascii, count_digits, all_digit_bytes, str_eq,
};
use crate::num::{ParseIntError, parse_result, parse_uint, lemma_parse_result_bound};
use super::Read;

verus! {

/// Which directive value failed to parse.
#[derive(Debug, PartialEq, Eq, PartialOrd, Ord, Clone, Copy, Structural)]
pub enum ParseValueVariant {
    R,
    V,
}

impl ParseValueVariant {
    /// The letter that names the directive.
    pub fn to_str(&self) -> (r: &'static str)
        ensures
            r@ == (match self {
                ParseValueVariant::R => "r"@,
                ParseValueVariant::V => "v"@,
            }),
    {
        match self {
            Self::R => "r",
            Self::V => "v",
        }
    }
}

/// Why directives could not be read.
#[derive(Debug, PartialEq, Eq)]
pub enum ReadError<'a> {
    BadNumeric { inner: ParseIntError, variant: ParseValueVariant },
    UnknownRegion(UnknownRegion<'a>),
    ExpectedDelimiterAfterR,
}

/// The known proxy regions.
#[derive(Debug, PartialEq, Eq, PartialOrd, Ord, Clone, Copy, Structural)]
pub enum Region {
    /// United States
    US,
    /// European Union
    EU,
    /// Japan
    JP,
    /// Australia
    AU,
}

/// A region name that is not known.
#[derive(Debug, Clone, PartialEq, Eq, PartialOrd, Ord)]
pub struct UnknownRegion<'a> {
    pub region: &'a str,
}

/// The name of a region as it appears in URLs.
pub open spec fn region_name(r: Region) -> Seq<char> {
    match r {
        Region::US => "us"@,
        Region::EU => "eu"@,
        Region::JP => "jp"@,
        Region::AU => "au"@,
    }
}

/// The region with the given name, if any.
pub open spec fn region_from_name(s: Seq<char>) -> Option<Region> {
    if s == "us"@ {
        Some(Region::US)
    } else if s == "eu"@ {
        Some(Region::EU)
    } else if s == "jp"@ {
        Some(Region::JP)
    } else if s == "au"@ {
        Some(Region::AU)
    } else {
        None
    }
}

/// Reading the name of a region gives that region.
pub proof fn law_region_name_roundtrip(r: Region)
    ensures
        region_from_name(region_name(r)) == Some(r),
{
    reveal_strlit("us");
    reveal_strlit("eu");
    reveal_strlit("jp");
    reveal_strlit("au");
    assert("eu"@[0] != "us"@[0]);
    assert("jp"@[0] != "us"@[0] && "jp"@[0] != "eu"@[0]);
    assert("au"@[0] != "us"@[0] && "au"@[0] != "eu"@[0] && "au"@[0] != "jp"@[0]);
}

/// Regions are written with their two-letter lower-case codes, `us`, `eu`, `jp` and `au`, and
/// each code reads as its region.
pub proof fn law_region_names()
    ensures
        region_name(Region::US) == seq!['u', 's'],
        region_name(Region::EU) == seq!['e', 'u'],
        region_name(Region::JP) == seq!['j', 'p'],
        region_name(Region::AU) == seq!['a', 'u'],
        region_from_name(seq!['u', 's']) == Some(Region::US),
        region_from_name(seq!['e', 'u']) == Some(Region::EU),
        region_from_name(seq!['j', 'p']) == Some(Region::JP),
        region_from_name(seq!['a', 'u']) == Some(Region::AU),
{
    reveal_strlit("us");
    reveal_strlit("eu");
    reveal_strlit("jp");
    reveal_strlit("au");
    assert(seq!['u', 's'] =~= "us"@);
    assert(seq!['e', 'u'] =~= "eu"@);
    assert(seq!['j', 'p'] =~= "jp"@);
    assert(seq!['a', 'u'] =~= "au"@);
}

impl Region {
    /// The region named by `str`, if any.
    pub fn from_str(str: &str) -> (r: Option<Self>)
        ensures
            r == region_from_name(str@),
    {
        if str_eq(str, "us") {
            Some(Self::US)
        } else if str_eq(str, "eu") {
            Some(Self::EU)
        } else if str_eq(str, "jp") {
            Some(Self::JP)
        } else if str_eq(str, "au") {
            Some(Self::AU)
        } else {
            None
        }
    }

    /// The name of this region.
    pub fn to_str(&self) -> (r: &'static str)
        ensures
            r@ == region_name(*self),
    {
        match self {
            Self::US => "us",
            Self::EU => "eu",
            Self::JP => "jp",
            Self::AU => "au",
        }
    }

    /// The region named by `region`, or the name itself as the error.
    pub fn try_from<'a>(region: &'a str) -> (r: Result<Self, UnknownRegion<'a>>)
        ensures
            region_from_name(region@) matches Some(g) ==> r == Ok::<Region, UnknownRegion<'a>>(g),
            region_from_name(region@) is None ==> r == Err::<Region, UnknownRegion<'a>>(
                UnknownRegion { region },
            ),
    {
        match Self::from_str(region) {
            Some(g) => Ok(g),
            None => Err(UnknownRegion { region }),
        }
    }
}

/// Proxy directives: an optional region, an "r" value, and an optional numeric "v" value.
///
/// ```txt
///         ┌─ "r" value.
///        ┌┴──┐
/// .../us/r1000/000/...
///     ├┘       └┬┘
///     └─ Region └─ "v" value.
/// ```
#[derive(Debug, PartialEq, Eq, Clone, Copy)]
pub struct Directives<'a> {
    pub region: Option<Region>,
    pub r: u16,
    pub v: Option<&'a str>,
}

/// Reading an "r" directive at index `i` of `b`: `None` when `b[i]` is not `r`,
/// else the value and the index after its terminating slash, or the failure.
pub open spec fn r_step<'a>(b: Seq<u8>, i: int) -> Option<Result<(u16, int), ReadError<'a>>> {
    if !(0 <= i < b.len() && b[i] == 114) {
        None
    } else {
        let end = i + 1 + digit_run(b.subrange(i + 1, b.len() as int));
        match parse_result(b.subrange(i + 1, end), 10, 65535) {
            Err(e) => Some(Err(ReadError::BadNumeric { inner: e, variant: ParseValueVariant::R })),
            Ok(v) => if end < b.len() && b[end] == 47 {
                Some(Ok((v as u16, end + 1)))
            } else {
                Some(Err(ReadError::ExpectedDelimiterAfterR))
            },
        }
    }
}

/// Whether `r` holds the directives with `region` and "r" value `rv`, whose "v" value
/// (a run of digits closed by a slash) may follow at index `next` of `b`.
pub open spec fn found_directives<'a>(
    b: Seq<u8>,
    region: Option<Region>,
    rv: u16,
    next: int,
    r: Result<Option<Read<Directives<'a>>>, ReadError<'a>>,
) -> bool {
    &&& r matches Ok(Some(d))
    &&& d.value.region == region
    &&& d.value.r == rv
    &&& match find_from(b, 47, next) {
        Some(s) => if all_digits(b.subrange(next, s)) {
            &&& d.value.v matches Some(v)
            &&& bytes_of(v) == b.subrange(next, s)
            &&& d.bytes == s + 1
        } else {
            d.value.v is None && d.bytes == next
        },
        None => d.value.v is None && d.bytes == next,
    }
}

/// What reading directives from the bytes `b` gives.
pub open spec fn directives_read<'a>(
    b: Seq<u8>,
    r: Result<Option<Read<Directives<'a>>>, ReadError<'a>>,
) -> bool {
    match r_step::<'a>(b, 0) {
        Some(Err(e)) => r == Err::<Option<Read<Directives<'a>>>, ReadError<'a>>(e),
        Some(Ok((rv, next))) => found_directives(b, None, rv, next, r),
        None => match find_from(b, 47, 0) {
            None => r == Ok::<Option<Read<Directives<'a>>>, ReadError<'a>>(None),
            Some(slash) => match region_from_name(decode_utf8(b.subrange(0, slash))) {
                None => {
                    &&& r matches Err(ReadError::UnknownRegion(u))
                    &&& bytes_of(u.region) == b.subrange(0, slash)
                },
                Some(region) => match r_step::<'a>(b, slash + 1) {
                    None => r == Ok::<Option<Read<Directives<'a>>>, ReadError<'a>>(None),
                    Some(Err(e)) => r == Err::<Option<Read<Directives<'a>>>, ReadError<'a>>(e),
                    Some(Ok((rv, next))) => found_directives(b, Some(region), rv, next, r),
                },
            },
        },
    }
}

/// Reads an "r" directive at byte `i` of `input`.
fn read_r<'a>(input: &'a str, i: usize) -> (r: Option<Result<(u16, usize), ReadError<'a>>>)
    requires
        i <= bytes_of(input).len(),
    ensures
        r is None <==> r_step::<'a>(bytes_of(input), i as int) is None,
        r matches Some(Err(e)) ==> r_step::<'a>(bytes_of(input), i as int) == Some(
            Err::<(u16, int), ReadError<'a>>(e),
        ),
        r matches Some(Ok((v, next))) ==> r_step::<'a>(bytes_of(input), i as int) == Some(
            Ok::<(u16, int), ReadError<'a>>((v, next as int)),
        ) && 0 < next <= bytes_of(input).len() && bytes_of(input)[next - 1] == 47,
{
    let b = input.as_bytes();
    let n = b.len();
    if !(i < n && b[i] == 114) {
        return None;
    }
    let start = i + 1;
    let rest = slice_subrange(b, start, n);
    let len = count_digits(rest);
    proof { lemma_digit_run_props(rest@); }
    let end = start + len;
    let digits = slice_subrange(b, start, end);
    assert(digits@ =~= b@.subrange(start as int, end as int));
    match parse_uint(digits, 10, 65535) {
        Err(e) => Some(Err(ReadError::BadNumeric { inner: e, variant: ParseValueVariant::R })),
        Ok(v) => {
            proof { lemma_parse_result_bound(digits@, 10, 65535); }
            if end < n && b[end] == 47 {
                Some(Ok((v as u16, end + 1)))
            } else {
                Some(Err(ReadError::ExpectedDelimiterAfterR))
            }
        },
    }
}

/// Reads the optional "v" value at byte `next` and assembles the directives.
fn finish<'a>(input: &'a str, region: Option<Region>, rv: u16, next: usize) -> (r: Read<Directives<'a>>)
    requires
        0 < next <= bytes_of(input).len(),
        bytes_of(input)[next - 1] == 47,
    ensures
        found_directives(bytes_of(input), region, rv, next as int, Ok::<Option<Read<Directives<'a>>>, ReadError<'a>>(Some(r))),
        0 < r.bytes <= bytes_of(input).len(),
        bytes_of(input)[r.bytes - 1] == 47,
{
    let b = input.as_bytes();
    let n = b.len();
    match find_byte_from(b, 47, next) {
        Some(s) => {
            proof { lemma_find_from_props(b@, 47, next as int); }
            let after = slice_subrange(b, next, s);
            if all_digit_bytes(after) {
                assert(after@ =~= b@.subrange(next as int, s as int));
                if next < s {
                    assert(after@[0] == b@[next as int]);
                }
                let v = substr_ascii(input, next, s);
                Read { value: Directives { region, r: rv, v: Some(v) }, bytes: s + 1 }
            } else {
                assert(after@ =~= b@.subrange(next as int, s as int));
                Read { value: Directives { region, r: rv, v: None }, bytes: next }
            }
        },
        None => Read { value: Directives { region, r: rv, v: None }, bytes: next },
    }
}

impl<'a> Directives<'a> {
    /// Reads directives from the start of `input` (the path after any prefix, without a
    /// leading slash).
    ///
    /// `Ok(None)` means no directives are present; an unknown region is an error.
    pub fn read(input: &'a str) -> (r: Result<Option<Read<Directives<'a>>>, ReadError<'a>>)
        ensures
            directives_read(bytes_of(input), r),
            r matches Ok(Some(d)) ==> 0 < d.bytes <= bytes_of(input).len() && bytes_of(input)[d.bytes - 1] == 47,
    {
        let b = input.as_bytes();
        let n = b.len();
        match read_r(input, 0) {
            Some(Err(e)) => return Err(e),
            Some(Ok((rv, next))) => return Ok(Some(finish(input, None, rv, next))),
            None => {},
        }
        match find_byte_from(b, 47, 0) {
            None => Ok(None),
            Some(slash) => {
                proof { lemma_find_from_props(b@, 47, 0); }
                let name = substr_ascii(input, 0, slash);
                proof { lemma_chars_of(name); }
                match Region::from_str(name) {
                    None => Err(ReadError::UnknownRegion(UnknownRegion { region: name })),
                    Some(region) => match read_r(input, slash + 1) {
                        None => Ok(None),
                        Some(Err(e)) => Err(e),
                        Some(Ok((rv, next))) => Ok(Some(finish(input, Some(region), rv, next))),
                    },
                }
            },
        }
    }
}

/// The text of accelerator directives: the region and a slash where there is one, `r`, the
/// r-value and a slash, then the v-value where there is one.
pub open spec fn directives_text<'a>(d: Directives<'a>) -> Seq<char> {
    let region = match d.region {
        Some(r) => region_name(r) + seq!['/'],
        None => Seq::empty(),
    };
    let v = match d.v {
        Some(v) => v@,
        None => Seq::empty(),
    };
    region + seq!['r'] + crate::num::decimal(d.r as nat) + seq!['/'] + v
}

impl<'a> Directives<'a> {
    /// The directives' text.
    pub fn to_string(&self) -> (r: String)
        ensures
            r@ == directives_text(*self),
    {
        let mut out = String::new();
        if let Some(region) = self.region {
            out.append(region.to_str());
            crate::unaligned_u16::utf16::push_char(&mut out, '/');
        }
        crate::unaligned_u16::utf16::push_char(&mut out, 'r');
        crate::num::push_decimal(self.r as u64, &mut out);
        crate::unaligned_u16::utf16::push_char(&mut out, '/');
        if let Some(v) = self.v {
            out.append(v);
        }
        out
    }
}

impl<'a> UnknownRegion<'a> {
    /// The error's message, with the region quoted.
    pub fn to_string(&self) -> (r: String)
        ensures
            r@ == "Unknown Accelerator region \""@ + self.region@ + "\""@,
    {
        let mut out = String::from_str("Unknown Accelerator region \"");
        out.append(self.region);
        out.append("\"");
        out
    }
}

impl<'a> ReadError<'a> {
    /// The error's message.
    pub fn to_string(&self) -> (r: String)
        ensures
            r@ == match *self {
                ReadError::BadNumeric { variant, .. } => "parse-int error while reading "@ + (match variant {
                    ParseValueVariant::R => "r"@,
                    ParseValueVariant::V => "v"@,
                }) + "-value"@,
                ReadError::ExpectedDelimiterAfterR => "expected delimiter after r-value"@,
                ReadError::UnknownRegion(e) => "Unknown Accelerator region \""@ + e.region@ + "\""@,
            },
    {
        match self {
            ReadError::BadNumeric { variant, .. } => {
                let mut out = String::from_str("parse-int error while reading ");
                out.append(variant.to_str());
                out.append("-value");
                out
            },
            ReadError::ExpectedDelimiterAfterR => String::from_str("expected delimiter after r-value"),
            ReadError::UnknownRegion(e) => e.to_string(),
        }
    }
}

} // verus!
