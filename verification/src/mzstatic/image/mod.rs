//! Image URLs: the thumbnail parameters and the parts of an asset path.
pub mod effect;
pub mod quality;
pub mod details;

use vstd::prelude::*;
use crate::text::{substr, ascii_bytes, rfind, rfind_byte, lemma_rfind_before_props, lemma_ascii_bytes, bytes_of, str_eq, starts_with, find_from, bytes_start_with, find_byte_from, substr_ascii, lemma_chars_of, lemma_find_from_props};
use super::Read;
use super::accelerator::{Directives, ReadError, directives_read};
use super::pool::{Pool, ParseError as PoolParseError, pool_read_spec};
use crate::maybe_owned_string::MaybeOwnedString;
use details::{Details, DetailsParseError, details_read, details_readable};
use vstd::slice::slice_subrange;
use vstd::utf8::{encode_utf8, is_char_boundary};

verus! {

/// The image format to output.
///
/// Several extensions are accepted as JPEG: `jpeg`, `rgb`, `rgba`, `sgi`, `tif`, `tiff`, `ico`.
#[derive(Debug, Clone, Copy, PartialEq, Eq, PartialOrd, Ord, Hash, Structural)]
pub enum ImageFormat {
    Webp,
    Png,
    Jpg,
    /// Layer Source Representation (`lsr`).
    LayeredImage,
}

/// The format named by a file extension, if any.
pub open spec fn image_format_from(c: Seq<char>) -> Option<ImageFormat> {
    if c == "webp"@ {
        Some(ImageFormat::Webp)
    } else if c == "png"@ {
        Some(ImageFormat::Png)
    } else if c == "jpg"@ || c == "jpeg"@ || c == "rgb"@ || c == "rgba"@ || c == "sgi"@ || c
        == "tif"@ || c == "tiff"@ || c == "ico"@ {
        Some(ImageFormat::Jpg)
    } else if c == "lsr"@ {
        Some(ImageFormat::LayeredImage)
    } else {
        None
    }
}

/// The file extension written for a format.
pub open spec fn image_format_name(f: ImageFormat) -> Seq<char> {
    match f {
        ImageFormat::Webp => "webp"@,
        ImageFormat::Png => "png"@,
        ImageFormat::Jpg => "jpg"@,
        ImageFormat::LayeredImage => "lsr"@,
    }
}

impl ImageFormat {
    /// The format named by a file extension.
    pub fn try_from(value: &str) -> (r: Result<Self, ()>)
        ensures
            image_format_from(value@) matches Some(f) ==> r == Ok::<ImageFormat, ()>(f),
            image_format_from(value@) is None ==> r is Err,
    {
        if str_eq(value, "webp") {
            Ok(Self::Webp)
        } else if str_eq(value, "png") {
            Ok(Self::Png)
        } else if str_eq(value, "jpg") || str_eq(value, "jpeg") || str_eq(value, "rgb") || str_eq(
            value,
            "rgba",
        ) || str_eq(value, "sgi") || str_eq(value, "tif") || str_eq(value, "tiff") || str_eq(
            value,
            "ico",
        ) {
            Ok(Self::Jpg)
        } else if str_eq(value, "lsr") {
            Ok(Self::LayeredImage)
        } else {
            Err(())
        }
    }

    /// The file extension written for this format.
    pub fn to_str(&self) -> (r: &'static str)
        ensures
            r@ == image_format_name(*self),
    {
        match self {
            Self::Webp => "webp",
            Self::Png => "png",
            Self::Jpg => "jpg",
            Self::LayeredImage => "lsr",
        }
    }
}

/// Writing a format's extension and reading it back gives the same format.
pub proof fn law_image_format_roundtrip(f: ImageFormat)
    ensures
        image_format_from(image_format_name(f)) == Some(f),
{
    reveal_strlit("webp");
    reveal_strlit("png");
    reveal_strlit("jpg");
    reveal_strlit("lsr");
    assert("png"@[0] != "jpg"@[0]);
    assert("lsr"@[0] != "png"@[0] && "lsr"@[0] != "jpg"@[0]);
    reveal_strlit("jpeg");
    reveal_strlit("rgb");
    reveal_strlit("rgba");
    reveal_strlit("sgi");
    reveal_strlit("tif");
    reveal_strlit("tiff");
    reveal_strlit("ico");
    assert("lsr"@[0] != "rgb"@[0] && "lsr"@[0] != "sgi"@[0] && "lsr"@[0] != "tif"@[0]
        && "lsr"@[0] != "ico"@[0]);
}

/// Formats are written with their extensions, `webp`, `png`, `jpg` and `lsr` (layered image);
/// `jpeg`, `rgb`, `rgba`, `sgi`, `tif`, `tiff` and `ico` read as JPEG too.
pub proof fn law_image_format_extensions()
    ensures
        image_format_name(ImageFormat::Webp) == seq!['w', 'e', 'b', 'p'],
        image_format_name(ImageFormat::Png) == seq!['p', 'n', 'g'],
        image_format_name(ImageFormat::Jpg) == seq!['j', 'p', 'g'],
        image_format_name(ImageFormat::LayeredImage) == seq!['l', 's', 'r'],
        image_format_from(seq!['w', 'e', 'b', 'p']) == Some(ImageFormat::Webp),
        image_format_from(seq!['p', 'n', 'g']) == Some(ImageFormat::Png),
        image_format_from(seq!['j', 'p', 'g']) == Some(ImageFormat::Jpg),
        image_format_from(seq!['l', 's', 'r']) == Some(ImageFormat::LayeredImage),
        image_format_from(seq!['j', 'p', 'e', 'g']) == Some(ImageFormat::Jpg),
        image_format_from(seq!['r', 'g', 'b']) == Some(ImageFormat::Jpg),
        image_format_from(seq!['r', 'g', 'b', 'a']) == Some(ImageFormat::Jpg),
        image_format_from(seq!['s', 'g', 'i']) == Some(ImageFormat::Jpg),
        image_format_from(seq!['t', 'i', 'f']) == Some(ImageFormat::Jpg),
        image_format_from(seq!['t', 'i', 'f', 'f']) == Some(ImageFormat::Jpg),
        image_format_from(seq!['i', 'c', 'o']) == Some(ImageFormat::Jpg),
{
    reveal_strlit("webp");
    reveal_strlit("png");
    reveal_strlit("jpg");
    reveal_strlit("lsr");
    reveal_strlit("jpeg");
    reveal_strlit("rgb");
    reveal_strlit("rgba");
    reveal_strlit("sgi");
    reveal_strlit("tif");
    reveal_strlit("tiff");
    reveal_strlit("ico");
    assert(seq!['w', 'e', 'b', 'p'] =~= "webp"@);
    assert(seq!['p', 'n', 'g'] =~= "png"@);
    assert(seq!['j', 'p', 'g'] =~= "jpg"@);
    assert(seq!['l', 's', 'r'] =~= "lsr"@);
    assert(seq!['j', 'p', 'e', 'g'] =~= "jpeg"@);
    assert(seq!['r', 'g', 'b'] =~= "rgb"@);
    assert(seq!['r', 'g', 'b', 'a'] =~= "rgba"@);
    assert(seq!['s', 'g', 'i'] =~= "sgi"@);
    assert(seq!['t', 'i', 'f'] =~= "tif"@);
    assert(seq!['t', 'i', 'f', 'f'] =~= "tiff"@);
    assert(seq!['i', 'c', 'o'] =~= "ico"@);
}

/// A representation of either the horizontal or vertical axis.
#[derive(Debug, Clone, Copy, PartialEq, Eq, PartialOrd, Ord, Hash, Structural)]
pub enum Dimension {
    /// The horizontal axis.
    X,
    /// The vertical axis.
    Y,
}

impl Dimension {
    /// The axis's letter.
    pub fn to_char(&self) -> (r: char)
        ensures
            r == (match self {
                Dimension::X => 'X',
                Dimension::Y => 'Y',
            }),
    {
        match self {
            Dimension::X => 'X',
            Dimension::Y => 'Y',
        }
    }
}

/// The path written for a prefix.
pub open spec fn prefix_name(p: Prefix) -> Seq<char> {
    match p {
        Prefix::ImageThumbnail => "image/thumb"@,
        Prefix::ImagePf => "image/pf"@,
    }
}

/// The path prefix of an image URL.
#[derive(Debug, Clone, Copy, PartialEq, Eq, PartialOrd, Ord, Structural)]
pub enum Prefix {
    /// `image/thumb`: a generated thumbnail.
    ImageThumbnail,
    /// `image/pf`.
    ImagePf,
}

/// The prefix read from the start of `b`: `image/` and then `thumb/` or `pf/`.
pub open spec fn prefix_read(b: Seq<u8>) -> Option<Read<Prefix>> {
    if !starts_with(b, ascii_bytes("image/"@)) {
        None
    } else {
        match find_from(b, 47, 6) {
            None => None,
            Some(slash) => {
                let name = vstd::utf8::decode_utf8(b.subrange(6, slash));
                if name == "thumb"@ {
                    Some(Read { value: Prefix::ImageThumbnail, bytes: (slash + 1) as usize })
                } else if name == "pf"@ {
                    Some(Read { value: Prefix::ImagePf, bytes: (slash + 1) as usize })
                } else {
                    None
                }
            },
        }
    }
}

impl Prefix {
    /// Reads a prefix, such as `image/thumb/`, from the start of `input`.
    pub fn read(input: &str) -> (r: Option<Read<Prefix>>)
        ensures
            r == prefix_read(bytes_of(input)),
            r matches Some(x) ==> 0 < x.bytes <= bytes_of(input).len() && bytes_of(input)[x.bytes - 1] == 47,
    {
        let b = input.as_bytes();
        let n = b.len();
        let lit = "image/";
        proof {
            reveal_strlit("image/");
            lemma_ascii_bytes(lit);
        }
        if !bytes_start_with(b, lit.as_bytes()) {
            return None;
        }
        proof { lemma_find_from_props(b@, 47, 6); }
        match find_byte_from(b, 47, 6) {
            None => None,
            Some(slash) => {
                proof {
                    reveal_strlit("image/");
                    assert(b@.subrange(0, 6)[5] == b@[5]);
                    assert(ascii_bytes("image/"@)[5] == 47u8);
                }
                let name = substr_ascii(input, 6, slash);
                proof { lemma_chars_of(name); }
                if str_eq(name, "thumb") {
                    Some(Read { value: Self::ImageThumbnail, bytes: slash + 1 })
                } else if str_eq(name, "pf") {
                    Some(Read { value: Self::ImagePf, bytes: slash + 1 })
                } else {
                    None
                }
            },
        }
    }

    /// The path written for this prefix.
    pub fn to_str(&self) -> (r: &'static str)
        ensures
            r@ == prefix_name(*self),
    {
        match self {
            Self::ImageThumbnail => "image/thumb",
            Self::ImagePf => "image/pf",
        }
    }
}

/// Why an image URL could not be read.
#[derive(Debug)]
pub enum ParseError<'a> {
    BadImageParameters(Option<DetailsParseError<'a>>),
    BadDirectives(ReadError<'a>),
    BadPool(PoolParseError),
    BadDetails(DetailsParseError<'a>),
    BadProtocol,
    BadDomain,
    NoPool,
}

/// What names the asset's storage: a pool, or (on some old assets) a storage token.
#[derive(Debug, Clone)]
pub enum PoolOrSagaSpecifier {
    Pool(Pool),
    Saga(String),
}

impl PoolOrSagaSpecifier {
    /// Reads a pool from the start of `input`, which must hold one.
    pub fn read(input: &str) -> (r: Option<Read<Self>>)
        requires
            pool_read_spec(bytes_of(input)) is Ok,
        ensures
            r matches Some(x) && pool_read_spec(bytes_of(input)) matches Ok(p) && x.bytes == p.bytes
                && x.value == PoolOrSagaSpecifier::Pool(p.value),
    {
        match Pool::read(input) {
            Ok(v) => Some(Read { bytes: v.bytes, value: Self::Pool(v.value) }),
            Err(_) => None,
        }
    }
}

/// A parsed image URL on `mzstatic.com`.
#[derive(Debug)]
pub struct MzStaticImage<'a> {
    pub https: bool,
    pub accelerator_directives: Option<Directives<'a>>,
    pub pool: PoolOrSagaSpecifier,
    pub prefix: Option<Prefix>,
    pub asset_token: MaybeOwnedString<'a>,
    /// The subdomain, such as `is1-ssl` or `a1`.
    pub subdomain: MaybeOwnedString<'a>,
    pub parameters: Details<'a>,
}

/// Whether `http`, an optional `s` and `://` begin `b`; the flag for `s` and the index after `://`.
pub open spec fn scheme_end(b: Seq<u8>) -> Option<(bool, int)> {
    if !starts_with(b, ascii_bytes("http"@)) {
        None
    } else {
        let tls = b.len() > 4 && b[4] == 115;
        let p: int = if tls { 5 } else { 4 };
        if starts_with(b.subrange(p, b.len() as int), ascii_bytes("://"@)) {
            Some((tls, p + 3))
        } else {
            None
        }
    }
}

/// The index after the prefix, which starts at `p5`.
pub open spec fn after_prefix(b: Seq<u8>, p5: int) -> int {
    match prefix_read(b.subrange(p5, b.len() as int)) {
        Some(x) => p5 + x.bytes,
        None => p5,
    }
}

/// The directives kept, and the index after them, given what reading them at `p6` gave.
/// A first component that is not a known region is taken as no directives.
pub open spec fn kept_directives<'a>(
    p6: int,
    dr: Result<Option<Read<Directives<'a>>>, ReadError<'a>>,
) -> (Option<Directives<'a>>, int) {
    match dr {
        Ok(Some(d)) => (Some(d.value), p6 + d.bytes),
        _ => (None, p6),
    }
}

/// Whether reading directives gave an error that stops the parse.
pub open spec fn directives_failed<'a>(dr: Result<Option<Read<Directives<'a>>>, ReadError<'a>>) -> bool {
    dr is Err && !(dr matches Err(ReadError::UnknownRegion(_)))
}

/// The stage after the directives: the pool at `p7`, the asset token, and the parameters.
pub open spec fn image_rest<'a>(
    b: Seq<u8>,
    tls: bool,
    sub: (int, int),
    prefix: Option<Prefix>,
    dirs: Option<Directives<'a>>,
    p7: int,
    r: Result<MzStaticImage<'a>, ParseError<'a>>,
) -> bool {
    match pool_read_spec(b.subrange(p7, b.len() as int)) {
        Err(e) => r matches Err(ParseError::BadPool(e2)) && e2 == e,
        Ok(pr) => {
            let p8 = p7 + pr.bytes;
            match rfind(b.subrange(p8, b.len() as int), 47) {
                None => false,
                Some(k) => {
                    let ls = p8 + k;
                    exists|dres: Result<Details<'a>, DetailsParseError<'a>>|
                        #[trigger] details_read(b.subrange(ls + 1, b.len() as int), dres) && match dres {
                            Err(e) => r == Err::<MzStaticImage<'a>, ParseError<'a>>(
                                ParseError::BadDetails(e),
                            ),
                            Ok(d) => {
                                &&& r matches Ok(img)
                                &&& img.https == tls
                                &&& img.subdomain matches MaybeOwnedString::Borrowed(s)
                                &&& bytes_of(s) == b.subrange(sub.0, sub.1)
                                &&& img.prefix == prefix
                                &&& img.accelerator_directives == dirs
                                &&& img.pool == PoolOrSagaSpecifier::Pool(pr.value)
                                &&& img.asset_token matches MaybeOwnedString::Borrowed(t)
                                &&& bytes_of(t) == b.subrange(p8, ls)
                                &&& img.parameters == d
                            },
                        }
                },
            }
        },
    }
}

/// The index after `mzstatic.com/`, given the index of the dot that ends the subdomain.
pub open spec fn domain_end(sd: int) -> int {
    sd + 14
}

/// What parsing an image URL from the bytes `b` gives.
pub open spec fn image_parse<'a>(b: Seq<u8>, r: Result<MzStaticImage<'a>, ParseError<'a>>) -> bool {
    match scheme_end(b) {
        None => r == Err::<MzStaticImage<'a>, ParseError<'a>>(ParseError::BadProtocol),
        Some((tls, p3)) => match find_from(b, 46, p3) {
            None => false,
            Some(sd) => if !starts_with(b.subrange(sd + 1, b.len() as int), ascii_bytes("mzstatic.com/"@)) {
                r == Err::<MzStaticImage<'a>, ParseError<'a>>(ParseError::BadDomain)
            } else {
                let p5 = domain_end(sd);
                let pre = match prefix_read(b.subrange(p5, b.len() as int)) {
                    Some(x) => Some(x.value),
                    None => None,
                };
                let p6 = after_prefix(b, p5);
                exists|dr: Result<Option<Read<Directives<'a>>>, ReadError<'a>>|
                    #[trigger] directives_read(b.subrange(p6, b.len() as int), dr) && if directives_failed(dr) {
                        r matches Err(ParseError::BadDirectives(e)) && dr == Err::<
                            Option<Read<Directives<'a>>>,
                            ReadError<'a>,
                        >(e)
                    } else {
                        image_rest(b, tls, (p3, sd), pre, kept_directives(p6, dr).0, kept_directives(p6, dr).1, r)
                    }
            },
        },
    }
}

/// The inputs on which parsing an image URL completes: the subdomain ends in a dot, a slash
/// follows the pool, and the last component's parameters can be read.
pub open spec fn image_readable<'a>(url: &'a str) -> bool {
    let b = bytes_of(url);
    match scheme_end(b) {
        None => true,
        Some((tls, p3)) => match find_from(b, 46, p3) {
            None => false,
            Some(sd) => starts_with(b.subrange(sd + 1, b.len() as int), ascii_bytes("mzstatic.com/"@))
                ==> forall|dr: Result<Option<Read<Directives<'a>>>, ReadError<'a>>|
                #[trigger] directives_read(
                    b.subrange(after_prefix(b, domain_end(sd)), b.len() as int),
                    dr,
                ) && !directives_failed(dr) ==> {
                    let p7 = kept_directives(after_prefix(b, domain_end(sd)), dr).1;
                    pool_read_spec(b.subrange(p7, b.len() as int)) matches Ok(pr) ==> {
                        let p8 = p7 + pr.bytes;
                        rfind(b.subrange(p8, b.len() as int), 47) matches Some(k) && details_readable(
                            b.subrange(p8 + k + 1, b.len() as int),
                        )
                    }
                },
        },
    }
}

/// Slices `s` from `start` to its end, where `start` follows a slash or dot.
fn tail_after(s: &str, start: usize) -> (r: &str)
    requires
        0 < start <= bytes_of(s).len(),
        bytes_of(s)[start - 1] < 128,
    ensures
        bytes_of(r) == bytes_of(s).subrange(start as int, bytes_of(s).len() as int),
{
    substr_ascii(s, start, s.as_bytes().len())
}

impl<'a> MzStaticImage<'a> {
    /// Parses an image URL such as
    /// `https://is1-ssl.mzstatic.com/image/thumb/Music221/v4/…/artwork.jpg/520x520ac.jpg`.
    pub fn parse(url: &'a str) -> (r: Result<Self, ParseError<'a>>)
        requires
            image_readable(url),
        ensures
            image_parse(bytes_of(url), r),
    {
        let b = url.as_bytes();
        let n = b.len();
        let http = "http";
        let sep = "://";
        let domain = "mzstatic.com/";
        proof {
            reveal_strlit("http");
            reveal_strlit("://");
            reveal_strlit("mzstatic.com/");
            lemma_ascii_bytes(http);
            lemma_ascii_bytes(sep);
            lemma_ascii_bytes(domain);
        }
        if !bytes_start_with(b, http.as_bytes()) {
            return Err(ParseError::BadProtocol);
        }
        let tls = n > 4 && b[4] == 115;
        let p: usize = if tls { 5 } else { 4 };
        let after_scheme = slice_subrange(b, p, n);
        if !bytes_start_with(after_scheme, sep.as_bytes()) {
            return Err(ParseError::BadProtocol);
        }
        let p3 = p + 3;
        proof {
            assert(b@.subrange(0, 4)[3] == b@[3]);
            assert(after_scheme@.subrange(0, 3)[2] == b@[p + 2]);
            lemma_find_from_props(b@, 46, p3 as int);
        }
        let sd = match find_byte_from(b, 46, p3) {
            Some(sd) => sd,
            None => {
                assert(false);
                return Err(ParseError::BadDomain);
            },
        };
        let after_dot = slice_subrange(b, sd + 1, n);
        if !bytes_start_with(after_dot, domain.as_bytes()) {
            return Err(ParseError::BadDomain);
        }
        let p5 = sd + 14;
        proof {
            assert(after_dot@.subrange(0, 13)[12] == b@[sd + 13]);
        }
        let rest5 = tail_after(url, p5);
        let prefix_read_result = Prefix::read(rest5);
        let (prefix, p6) = match prefix_read_result {
            Some(x) => (Some(x.value), p5 + x.bytes),
            None => (None, p5),
        };
        let rest6 = substr_ascii(url, p6, n);
        let dr = Directives::read(rest6);
        let (directives, p7) = match dr {
            Err(ReadError::UnknownRegion(_)) => (None, p6),
            Err(e) => return Err(ParseError::BadDirectives(e)),
            Ok(None) => (None, p6),
            Ok(Some(d)) => (Some(d.value), p6 + d.bytes),
        };
        Self::parse_rest(url, tls, p3, sd, prefix, directives, p7)
    }

    /// An image at the default parameters, from a path of a pool and an asset token, such as
    /// `Music4/v4/…/artwork.jpg`. The token is taken from one byte past the pool's slash.
    pub fn with_pool_and_token(pool_and_token: MaybeOwnedString<'a>) -> (r: Result<Self, ParseError<'a>>)
        requires
            pool_read_spec(encode_utf8(pool_and_token@)) matches Ok(pr) ==> pr.bytes + 1 <= encode_utf8(
                pool_and_token@,
            ).len() && is_char_boundary(encode_utf8(pool_and_token@), pr.bytes + 1),
        ensures
            pool_read_spec(encode_utf8(pool_and_token@)) is Err ==> r matches Err(ParseError::NoPool),
            pool_read_spec(encode_utf8(pool_and_token@)) matches Ok(pr) ==> {
                &&& r matches Ok(img)
                &&& img.https
                &&& img.accelerator_directives is None
                &&& img.prefix is None
                &&& img.pool == PoolOrSagaSpecifier::Pool(pr.value)
                &&& img.subdomain matches MaybeOwnedString::Borrowed(sd)
                &&& sd@ == "a1"@
                &&& encode_utf8(img.asset_token@) == encode_utf8(pool_and_token@).subrange(
                    pr.bytes + 1,
                    encode_utf8(pool_and_token@).len() as int,
                )
                &&& (img.asset_token is Borrowed <==> pool_and_token is Borrowed)
                &&& img.parameters.image_format == ImageFormat::Png
                &&& img.parameters.quality is None
                &&& img.parameters.effect is None
                &&& img.parameters.resolution == (300u16, 300u16)
                &&& img.parameters.language is None
            },
    {
        let whole = pool_and_token.as_str();
        let total = whole.as_bytes().len();
        let read = Pool::read(whole);
        match read {
            Err(_) => Err(ParseError::NoPool),
            Ok(pool) => {
                let start = pool.bytes + 1;
                let token = match pool_and_token {
                    MaybeOwnedString::Borrowed(borrowed) => {
                        let n = borrowed.as_bytes().len();
                        proof {
                            crate::text::lemma_valid(borrowed);
                            vstd::utf8::is_char_boundary_start_end_of_seq(bytes_of(borrowed));
                        }
                        MaybeOwnedString::Borrowed(substr(borrowed, start, n))
                    },
                    MaybeOwnedString::Owned(owned) => {
                        let o = owned.as_str();
                        let n = o.as_bytes().len();
                        proof {
                            crate::text::lemma_valid(o);
                            vstd::utf8::is_char_boundary_start_end_of_seq(bytes_of(o));
                        }
                        let part = substr(o, start, n);
                        MaybeOwnedString::Owned(part.to_owned())
                    },
                };
                Ok(Self {
                    accelerator_directives: None,
                    pool: PoolOrSagaSpecifier::Pool(pool.value),
                    prefix: None,
                    https: true,
                    subdomain: MaybeOwnedString::Borrowed("a1"),
                    asset_token: token,
                    parameters: Details::default(),
                })
            },
        }
    }

    /// [`Self::with_pool_and_token`] where the token after the pool's slash starts with an
    /// ASCII character or the text ends after the pool; `None` otherwise, where the split after
    /// the pool might not fall between characters.
    pub fn try_with_pool_and_token(pool_and_token: MaybeOwnedString<'a>) -> (r: Option<Result<Self, ParseError<'a>>>)
        ensures
            pool_read_spec(encode_utf8(pool_and_token@)) is Err ==> r matches Some(Err(ParseError::NoPool)),
            pool_read_spec(encode_utf8(pool_and_token@)) matches Ok(pr) ==> {
                let b = encode_utf8(pool_and_token@);
                if pr.bytes + 1 <= b.len() && b[pr.bytes as int] < 128 {
                    r matches Some(Ok(img)) && img.pool == PoolOrSagaSpecifier::Pool(pr.value)
                        && encode_utf8(img.asset_token@) == b.subrange(pr.bytes + 1, b.len() as int)
                } else {
                    r is None
                }
            },
    {
        let whole = pool_and_token.as_str();
        let b = whole.as_bytes();
        proof { crate::text::lemma_valid(whole); }
        match Pool::read(whole) {
            Err(_) => Some(Self::with_pool_and_token(pool_and_token)),
            Ok(pool) => {
                if pool.bytes < b.len() && b[pool.bytes] < 128 {
                    proof { crate::text::lemma_after_ascii_boundary(whole, pool.bytes as int + 1); }
                    Some(Self::with_pool_and_token(pool_and_token))
                } else {
                    None
                }
            },
        }
    }

    /// The part of [`Self::parse`] from the pool, at `p7`, onwards.
    fn parse_rest(
        url: &'a str,
        tls: bool,
        p3: usize,
        sd: usize,
        prefix: Option<Prefix>,
        directives: Option<Directives<'a>>,
        p7: usize,
    ) -> (r: Result<Self, ParseError<'a>>)
        requires
            p3 <= sd < p7 <= bytes_of(url).len(),
            bytes_of(url)[p7 - 1] < 128,
            0 < p3,
            bytes_of(url)[p3 - 1] < 128,
            bytes_of(url)[sd as int] == 46,
            pool_read_spec(bytes_of(url).subrange(p7 as int, bytes_of(url).len() as int)) matches Ok(pr) ==> {
                let p8 = p7 + pr.bytes;
                rfind(bytes_of(url).subrange(p8, bytes_of(url).len() as int), 47) matches Some(k)
                    && details_readable(bytes_of(url).subrange(p8 + k + 1, bytes_of(url).len() as int))
            },
        ensures
            image_rest(bytes_of(url), tls, (p3 as int, sd as int), prefix, directives, p7 as int, r),
    {
        let b = url.as_bytes();
        let n = b.len();
        let subdomain = substr_ascii(url, p3, sd);
        let rest7 = substr_ascii(url, p7, n);
        let pr = match Pool::read(rest7) {
            Err(e) => return Err(ParseError::BadPool(e)),
            Ok(pr) => pr,
        };
        let p8 = p7 + pr.bytes;
        let rest8 = slice_subrange(b, p8, n);
        proof { lemma_rfind_before_props(rest8@, 47, rest8@.len() as int); }
        let k = match rfind_byte(rest8, 47) {
            Some(k) => k,
            None => {
                assert(false);
                return Err(ParseError::NoPool);
            },
        };
        let ls = p8 + k;
        assert(b@[ls as int] == rest8@[k as int]);
        let path = substr_ascii(url, p8, ls);
        let last = tail_after(url, ls + 1);
        match Details::new(last) {
            Err(e) => Err(ParseError::BadDetails(e)),
            Ok(parameters) => Ok(Self {
                https: tls,
                accelerator_directives: directives,
                asset_token: MaybeOwnedString::Borrowed(path),
                subdomain: MaybeOwnedString::Borrowed(subdomain),
                parameters,
                pool: PoolOrSagaSpecifier::Pool(pr.value),
                prefix,
            }),
        }
    }
}

/// The text of a pool or saga.
pub open spec fn pool_or_saga_text(p: PoolOrSagaSpecifier) -> Seq<char> {
    match p {
        PoolOrSagaSpecifier::Pool(pool) => super::pool::pool_text(pool),
        PoolOrSagaSpecifier::Saga(saga) => saga@,
    }
}

impl PoolOrSagaSpecifier {
    /// The pool's or saga's text.
    pub fn to_string(&self) -> (r: String)
        ensures
            r@ == pool_or_saga_text(*self),
    {
        match self {
            PoolOrSagaSpecifier::Pool(pool) => pool.to_string(),
            PoolOrSagaSpecifier::Saga(saga) => String::from_str(saga.as_str()),
        }
    }
}

/// The address of an image: the scheme, the subdomain on `mzstatic.com`, the prefix and the
/// directives each followed by a slash where present, then the pool, the asset token and the
/// parameters, separated by slashes.
pub open spec fn image_text<'a>(i: MzStaticImage<'a>) -> Seq<char> {
    let scheme = if i.https { "https://"@ } else { "http://"@ };
    let prefix = match i.prefix {
        Some(p) => prefix_name(p) + seq!['/'],
        None => Seq::empty(),
    };
    let directives = match i.accelerator_directives {
        Some(d) => super::accelerator::directives_text(d) + seq!['/'],
        None => Seq::empty(),
    };
    scheme + i.subdomain@ + ".mzstatic.com/"@ + prefix + directives + pool_or_saga_text(i.pool) + seq!['/']
        + i.asset_token@ + seq!['/'] + details::details_text(i.parameters)
}

impl<'a> MzStaticImage<'a> {
    /// The image's address.
    pub fn to_string(&self) -> (r: String)
        ensures
            r@ == image_text(*self),
    {
        let mut out = String::from_str(if self.https { "https://" } else { "http://" });
        out.append(self.subdomain.as_str());
        out.append(".mzstatic.com/");
        if let Some(p) = self.prefix {
            out.append(p.to_str());
            crate::unaligned_u16::utf16::push_char(&mut out, '/');
        }
        if let Some(d) = &self.accelerator_directives {
            out.append(d.to_string().as_str());
            crate::unaligned_u16::utf16::push_char(&mut out, '/');
        }
        out.append(self.pool.to_string().as_str());
        crate::unaligned_u16::utf16::push_char(&mut out, '/');
        out.append(self.asset_token.as_str());
        crate::unaligned_u16::utf16::push_char(&mut out, '/');
        out.append(self.parameters.to_string().as_str());
        out
    }
}

} // verus!
