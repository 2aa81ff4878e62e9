//! The last path component of a thumbnail URL, such as `600x600SC.FPESS03-159.jpg?l=ru-RU`.
use vstd::prelude::*;
use vstd::slice::slice_subrange;
use vstd::utf8::decode_utf8;
use crate::text::{
    bytes_of, digit_run, find_from, substr_ascii, count_digits, find_byte_from, lemma_chars_of,
    lemma_digit_run_props, lemma_find_from_props,
};
use crate::num::{ParseIntError, parse_result, parse_uint, lemma_parse_result_bound};
use crate::maybe_owned_string::MaybeOwnedString;
use super::effect::{Effect, UnknownEffectError, effect_readable, effect_value};
use super::quality::{Quality, OutOfRangeError};
use super::{ImageFormat, Dimension, image_format_from};

verus! {

/// Why the parameters of an image could not be read.
#[derive(Debug, Clone, PartialEq, Eq)]
pub enum DetailsParseError<'a> {
    QualityOutOfBounds(OutOfRangeError),
    QualityNotParsable(ParseIntError),
    UnknownEffect(UnknownEffectError, &'a str),
    BadResolution(ParseIntError, Dimension),
    UnsupportedImageFormat(&'a str),
    MissingFileExtensionDelimiter,
    MissingResolutionDelimiter,
    UnknownUrlParameter,
}

/// The parameters of an image: `{x}x{y}{effect}[-{quality}].{format}[?l={language}]`.
#[derive(Debug, PartialEq, Eq)]
pub struct Details<'a> {
    /// The file format to return.
    pub image_format: ImageFormat,
    /// An effect to apply on the image.
    pub effect: Option<Effect>,
    /// The quality of the image; higher is better.
    pub quality: Option<Quality>,
    /// The resolution of the image to return.
    pub resolution: (u16, u16),
    /// The language of any framing text.
    pub language: Option<MaybeOwnedString<'a>>,
}

/// Whether the stored quality is the parsed value.
pub open spec fn quality_is(q: Option<Quality>, v: Option<u16>) -> bool {
    match (q, v) {
        (None, None) => true,
        (Some(a), Some(b)) => a@ == b,
        _ => false,
    }
}

/// The last stage: the format text is `b[es..ee]`, the language (if any) runs from `lang` to the end.
pub open spec fn details_finish<'a>(
    b: Seq<u8>,
    es: int,
    ee: int,
    lang: Option<int>,
    res: (u16, u16),
    eff: Option<Effect>,
    q: Option<u16>,
    r: Result<Details<'a>, DetailsParseError<'a>>,
) -> bool {
    match image_format_from(decode_utf8(b.subrange(es, ee))) {
        None => {
            &&& r matches Err(DetailsParseError::UnsupportedImageFormat(s))
            &&& bytes_of(s) == b.subrange(es, ee)
        },
        Some(fmt) => {
            &&& r matches Ok(d)
            &&& d.image_format == fmt
            &&& d.effect == eff
            &&& d.resolution == res
            &&& quality_is(d.quality, q)
            &&& match lang {
                None => d.language is None,
                Some(ls) => d.language matches Some(MaybeOwnedString::Borrowed(l)) && bytes_of(l)
                    == b.subrange(ls, b.len() as int),
            }
        },
    }
}

/// The stage after the quality, starting at `p`: the format and an optional `?l=` parameter.
pub open spec fn details_params<'a>(
    b: Seq<u8>,
    p: int,
    res: (u16, u16),
    eff: Option<Effect>,
    q: Option<u16>,
    r: Result<Details<'a>, DetailsParseError<'a>>,
) -> bool {
    match find_from(b, 63, p) {
        None => details_finish(b, p, b.len() as int, None, res, eff, q, r),
        Some(pi) => if !(b[pi + 1] == 108 && b[pi + 2] == 61) || find_from(b, 38, pi + 1) is Some {
            r == Err::<Details<'a>, DetailsParseError<'a>>(DetailsParseError::UnknownUrlParameter)
        } else {
            details_finish(b, p, pi, Some(pi + 3), res, eff, q, r)
        },
    }
}

/// The end of the run of digits starting at `p`.
pub open spec fn digits_end(b: Seq<u8>, p: int) -> int {
    p + digit_run(b.subrange(p, b.len() as int))
}

/// The stage after the effect, starting at `p`: the quality digits when a `-` was seen.
pub open spec fn details_quality<'a>(
    b: Seq<u8>,
    p: int,
    has_q: bool,
    res: (u16, u16),
    eff: Option<Effect>,
    r: Result<Details<'a>, DetailsParseError<'a>>,
) -> bool {
    if has_q {
        match parse_result(b.subrange(p, digits_end(b, p)), 10, 65535) {
            Err(e) => r == Err::<Details<'a>, DetailsParseError<'a>>(
                DetailsParseError::QualityNotParsable(e),
            ),
            Ok(v) => if v > 999 {
                r == Err::<Details<'a>, DetailsParseError<'a>>(
                    DetailsParseError::QualityOutOfBounds(OutOfRangeError),
                )
            } else {
                details_params(b, digits_end(b, p) + 1, res, eff, Some(v as u16), r)
            },
        }
    } else {
        details_params(b, p, res, eff, None, r)
    }
}

/// The end of the effect text that starts at `p`: the first `-`, else the first `.`.
pub open spec fn effect_end(b: Seq<u8>, p: int, dot: int) -> int {
    match find_from(b, 45, p) {
        Some(q) => q,
        None => dot,
    }
}

/// The stage after the resolution, starting at `p`: the effect.
pub open spec fn details_effect<'a>(
    b: Seq<u8>,
    p: int,
    res: (u16, u16),
    r: Result<Details<'a>, DetailsParseError<'a>>,
) -> bool {
    match find_from(b, 46, p) {
        None => r == Err::<Details<'a>, DetailsParseError<'a>>(
            DetailsParseError::MissingFileExtensionDelimiter,
        ),
        Some(dot) => {
            let e = effect_end(b, p, dot);
            let has_q = find_from(b, 45, p) is Some;
            let eb = b.subrange(p, e);
            if eb.len() == 0 {
                details_quality(b, e + 1, has_q, res, None, r)
            } else {
                match effect_value(eb) {
                    Err(err) => {
                        &&& r matches Err(DetailsParseError::UnknownEffect(err2, s))
                        &&& err2 == err
                        &&& bytes_of(s) == eb
                    },
                    Ok(eff) => details_quality(b, e + 1, has_q, res, Some(eff), r),
                }
            }
        },
    }
}

/// The index of the `x` between the two dimensions.
pub open spec fn x_index(b: Seq<u8>) -> Option<int> {
    find_from(b, 120, 0)
}

/// What reading the parameters of an image from the bytes `b` gives.
pub open spec fn details_read<'a>(b: Seq<u8>, r: Result<Details<'a>, DetailsParseError<'a>>) -> bool {
    match x_index(b) {
        None => r == Err::<Details<'a>, DetailsParseError<'a>>(
            DetailsParseError::MissingResolutionDelimiter,
        ),
        Some(xi) => match parse_result(b.subrange(0, xi), 10, 65535) {
            Err(e) => r == Err::<Details<'a>, DetailsParseError<'a>>(
                DetailsParseError::BadResolution(e, Dimension::X),
            ),
            Ok(x) => match parse_result(b.subrange(xi + 1, digits_end(b, xi + 1)), 10, 65535) {
                Err(e) => r == Err::<Details<'a>, DetailsParseError<'a>>(
                    DetailsParseError::BadResolution(e, Dimension::Y),
                ),
                Ok(y) => details_effect(b, digits_end(b, xi + 1), (x as u16, y as u16), r),
            },
        },
    }
}

/// The stage after the quality can be read: a `?` is followed by at least two bytes.
pub open spec fn params_readable(b: Seq<u8>, p: int) -> bool {
    match find_from(b, 63, p) {
        None => true,
        Some(pi) => pi + 3 <= b.len(),
    }
}

/// The quality stage can be read: after the quality digits comes a one-byte character.
pub open spec fn quality_readable(b: Seq<u8>, p: int, has_q: bool) -> bool {
    if has_q {
        match parse_result(b.subrange(p, digits_end(b, p)), 10, 65535) {
            Err(_) => true,
            Ok(v) => v > 999 || (digits_end(b, p) < b.len() && b[digits_end(b, p)] < 128
                && params_readable(b, digits_end(b, p) + 1)),
        }
    } else {
        params_readable(b, p)
    }
}

/// The inputs on which reading the parameters of an image completes.
pub open spec fn details_readable(b: Seq<u8>) -> bool {
    match x_index(b) {
        None => true,
        Some(xi) => match (
            parse_result(b.subrange(0, xi), 10, 65535),
            parse_result(b.subrange(xi + 1, digits_end(b, xi + 1)), 10, 65535),
        ) {
            (Ok(_), Ok(_)) => {
                let p = digits_end(b, xi + 1);
                match find_from(b, 46, p) {
                    None => true,
                    Some(dot) => {
                        let e = effect_end(b, p, dot);
                        let has_q = find_from(b, 45, p) is Some;
                        let eb = b.subrange(p, e);
                        if eb.len() == 0 {
                            quality_readable(b, e + 1, has_q)
                        } else {
                            effect_readable(eb) && (effect_value(eb) is Ok ==> quality_readable(
                                b,
                                e + 1,
                                has_q,
                            ))
                        }
                    },
                }
            },
            _ => true,
        }
    }
}

/// Parses decimal digits `b[start..end]` as a `u16`.
fn parse_u16_at(b: &[u8], start: usize, end: usize) -> (r: Result<u16, ParseIntError>)
    requires
        start <= end <= b@.len(),
    ensures
        r matches Ok(v) ==> parse_result(b@.subrange(start as int, end as int), 10, 65535) == Ok::<
            nat,
            ParseIntError,
        >(v as nat),
        r matches Err(e) ==> parse_result(b@.subrange(start as int, end as int), 10, 65535) == Err::<
            nat,
            ParseIntError,
        >(e),
{
    let s = slice_subrange(b, start, end);
    assert(s@ =~= b@.subrange(start as int, end as int));
    match parse_uint(s, 10, 65535) {
        Ok(v) => {
            proof { lemma_parse_result_bound(s@, 10, 65535); }
            Ok(v as u16)
        },
        Err(e) => Err(e),
    }
}

/// The end of the run of digits in `b` starting at `p`.
fn digits_end_exec(b: &[u8], p: usize) -> (e: usize)
    requires
        p <= b@.len(),
    ensures
        e == digits_end(b@, p as int),
        p <= e <= b@.len(),
        forall|i: int| p <= i < e ==> 48 <= #[trigger] b@[i] <= 57,
        e < b@.len() ==> !(48 <= b@[e as int] <= 57),
{
    let rest = slice_subrange(b, p, b.len());
    let d = count_digits(rest);
    proof {
        lemma_digit_run_props(rest@);
        assert forall|i: int| p <= i < p + d implies 48 <= #[trigger] b@[i] <= 57 by {
            assert(rest@.subrange(0, d as int)[i - p] == b@[i]);
        }
        if p + d < b@.len() {
            assert(rest@[d as int] == b@[p + d]);
        }
    }
    p + d
}

impl<'a> Details<'a> {
    /// The parameters used for an image given only its pool and token.
    pub fn default() -> (d: Self)
        ensures
            d.image_format == ImageFormat::Png,
            d.quality is None,
            d.effect is None,
            d.resolution == (300u16, 300u16),
            d.language is None,
    {
        Details {
            image_format: ImageFormat::Png,
            quality: None,
            effect: None,
            resolution: (300, 300),
            language: None,
        }
    }

    /// Reads the parameters of an image from the last path component of its URL.
    pub fn new(url: &'a str) -> (r: Result<Self, DetailsParseError<'a>>)
        requires
            details_readable(bytes_of(url)),
        ensures
            details_read(bytes_of(url), r),
    {
        let b = url.as_bytes();
        let n = b.len();
        let xi = match find_byte_from(b, 120, 0) {
            None => return Err(DetailsParseError::MissingResolutionDelimiter),
            Some(xi) => xi,
        };
        proof { lemma_find_from_props(b@, 120, 0); }
        let ye = digits_end_exec(b, xi + 1);
        let x = match parse_u16_at(b, 0, xi) {
            Err(e) => return Err(DetailsParseError::BadResolution(e, Dimension::X)),
            Ok(x) => x,
        };
        let y = match parse_u16_at(b, xi + 1, ye) {
            Err(e) => return Err(DetailsParseError::BadResolution(e, Dimension::Y)),
            Ok(y) => y,
        };
        let p = ye;
        let dot = match find_byte_from(b, 46, p) {
            None => return Err(DetailsParseError::MissingFileExtensionDelimiter),
            Some(dot) => dot,
        };
        proof {
            lemma_find_from_props(b@, 46, p as int);
            lemma_find_from_props(b@, 45, p as int);
        }
        let dash = find_byte_from(b, 45, p);
        let e = match dash {
            Some(q) => q,
            None => dot,
        };
        let effect_text = substr_ascii(url, p, e);
        let effect = if e == p {
            None
        } else {
            match Effect::try_from(effect_text) {
                Err(err) => return Err(DetailsParseError::UnknownEffect(err, effect_text)),
                Ok(eff) => Some(eff),
            }
        };
        let mut start = e + 1;
        let quality = match dash {
            Some(_) => {
                let qe = digits_end_exec(b, start);
                let v = match parse_u16_at(b, start, qe) {
                    Err(err) => return Err(DetailsParseError::QualityNotParsable(err)),
                    Ok(v) => v,
                };
                let q = match Quality::new(v) {
                    Err(err) => return Err(DetailsParseError::QualityOutOfBounds(err)),
                    Ok(q) => q,
                };
                start = qe + 1;
                Some(q)
            },
            None => None,
        };
        proof { lemma_find_from_props(b@, 63, start as int); }
        match find_byte_from(b, 63, start) {
            Some(pi) => {
                proof { lemma_find_from_props(b@, 38, pi + 1); }
                if !(b[pi + 1] == 108 && b[pi + 2] == 61) || find_byte_from(b, 38, pi + 1).is_some() {
                    return Err(DetailsParseError::UnknownUrlParameter);
                }
                let ext = substr_ascii(url, start, pi);
                proof { lemma_chars_of(ext); }
                let language = substr_ascii(url, pi + 3, n);
                match ImageFormat::try_from(ext) {
                    Err(_) => Err(DetailsParseError::UnsupportedImageFormat(ext)),
                    Ok(image_format) => Ok(Details {
                        language: Some(MaybeOwnedString::Borrowed(language)),
                        quality,
                        resolution: (x, y),
                        image_format,
                        effect,
                    }),
                }
            },
            None => {
                let ext = substr_ascii(url, start, n);
                proof { lemma_chars_of(ext); }
                match ImageFormat::try_from(ext) {
                    Err(_) => Err(DetailsParseError::UnsupportedImageFormat(ext)),
                    Ok(image_format) => Ok(Details {
                        language: None,
                        quality,
                        resolution: (x, y),
                        image_format,
                        effect,
                    }),
                }
            },
        }
    }
}

/// The text of image parameters: the resolution as `XxY`, the effect where there is one,
/// a hyphen and the quality where there is one, a full stop and the format, then `?l=` and the
/// language where there is one.
pub open spec fn details_text<'a>(d: Details<'a>) -> Seq<char> {
    let effect = match d.effect {
        Some(e) => super::effect::effect_text(e),
        None => Seq::empty(),
    };
    let quality = match d.quality {
        Some(q) => seq!['-'] + crate::num::decimal(q@ as nat),
        None => Seq::empty(),
    };
    let language = match d.language {
        Some(l) => "?l="@ + l@,
        None => Seq::empty(),
    };
    crate::num::decimal(d.resolution.0 as nat) + seq!['x'] + crate::num::decimal(d.resolution.1 as nat) + effect
        + quality + seq!['.'] + super::image_format_name(d.image_format) + language
}

/// Reading parameters succeeds or fails by the bytes alone.
pub proof fn lemma_details_read_outcome<'a>(b: Seq<u8>, x: Result<Details<'a>, DetailsParseError<'a>>, y: Result<Details<'a>, DetailsParseError<'a>>)
    requires
        details_read(b, x),
        details_read(b, y),
    ensures
        x is Ok <==> y is Ok,
{
}

impl<'a> Details<'a> {
    /// The address `url` with the parameters of its last component replaced by what `edit`
    /// makes of them: everything up to the last slash is kept.
    pub fn edit_url<F: FnOnce(Details<'a>) -> Details<'a>>(url: &'a str, edit: F) -> (r: Result<String, DetailsParseError<'a>>)
        requires
            crate::text::rfind(bytes_of(url), 47) is Some,
            details_readable(bytes_of(url).skip(crate::text::rfind(bytes_of(url), 47)->0 + 1)),
            forall|d: Details<'a>| details_read(bytes_of(url).skip(crate::text::rfind(bytes_of(url), 47)->0 + 1), Ok(d))
                ==> call_requires(edit, (d,)),
        ensures
            ({
                let k = crate::text::rfind(bytes_of(url), 47)->0;
                let tail = bytes_of(url).skip(k + 1);
                &&& (r matches Err(e) ==> details_read(tail, Err(e)))
                &&& (r matches Ok(s) ==> exists|d: Details<'a>, e: Details<'a>| details_read(tail, Ok(d))
                    && call_ensures(edit, (d,), e) && vstd::utf8::encode_utf8(s@)
                        == bytes_of(url).take(k + 1) + vstd::utf8::encode_utf8(details_text(e)))
                &&& (r is Ok <==> exists|d: Details<'a>| #[trigger] details_read(tail, Ok(d)))
            }),
    {
        let b = url.as_bytes();
        let n = b.len();
        proof { crate::text::lemma_rfind_before_props(b@, 47, n as int); }
        let k = match crate::text::rfind_byte(b, 47) {
            Some(k) => k,
            None => { return vstd::pervasive::unreached(); },
        };
        proof {
            assert(crate::text::ascii_cut(b@, k + 1));
        }
        let head = crate::text::substr_ascii(url, 0, k + 1);
        let tail = crate::text::substr_ascii(url, k + 1, n);
        assert(bytes_of(tail) =~= b@.skip(k + 1));
        let parsed = Details::new(tail);
        let d = match parsed {
            Ok(d) => d,
            Err(err) => {
                proof {
                    assert forall|d: Details<'a>| !details_read(bytes_of(tail), Ok(d)) by {
                        if details_read(bytes_of(tail), Ok(d)) {
                            lemma_details_read_outcome(bytes_of(tail), Ok(d), parsed);
                        }
                    }
                }
                return Err(err);
            },
        };
        let e = edit(d);
        let text = e.to_string();
        let mut out = String::from_str(head);
        out.append(text.as_str());
        proof {
            crate::text::lemma_encode_utf8_concat(head@, text@);
            assert(b@.subrange(0, k + 1) =~= b@.take(k + 1));
        }
        Ok(out)
    }

    /// The parameters' text, as the last component of an image address.
    pub fn to_string(&self) -> (r: String)
        ensures
            r@ == details_text(*self),
    {
        let mut out = String::new();
        crate::num::push_decimal(self.resolution.0 as u64, &mut out);
        crate::unaligned_u16::utf16::push_char(&mut out, 'x');
        crate::num::push_decimal(self.resolution.1 as u64, &mut out);
        if let Some(e) = &self.effect {
            out.append(e.to_string().as_str());
        }
        if let Some(q) = self.quality {
            crate::unaligned_u16::utf16::push_char(&mut out, '-');
            out.append(q.to_string().as_str());
        }
        crate::unaligned_u16::utf16::push_char(&mut out, '.');
        out.append(self.image_format.to_str());
        if let Some(l) = &self.language {
            out.append("?l=");
            out.append(l.as_str());
        }
        out
    }
}

} // verus!
