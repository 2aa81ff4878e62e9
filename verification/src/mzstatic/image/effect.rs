//! Effects applied to an image, such as circle padding or playlist framing.
use vstd::prelude::*;
use vstd::slice::slice_subrange;
use vstd::utf8::{decode_utf8, is_char_boundary, is_char_boundary_start_end_of_seq};
use crate::text::{
    bytes_of, digit_run, range_run, str_eq, substr, substr_ascii, count_digits, count_range,
    lemma_chars_of, lemma_digit_run_props, lemma_range_run_props, lemma_valid,
};
use crate::num::{ParseIntError, parse_result, parse_uint, lemma_parse_result_bound, pad2, push_pad2};
use crate::unaligned_u16::utf16::push_char;
use base64::Engine;

verus! {

/// The effect text is not a known effect.
#[derive(Debug, Clone, Copy, PartialEq, Eq, PartialOrd, Ord, Hash, Structural)]
pub struct UnknownEffectError;

/// Frames drawn around featured playlists (`FP…`).
#[derive(Debug, Clone, Copy, PartialEq, Eq, PartialOrd, Ord, Hash, Structural)]
pub enum FeaturedPlaylist {
    Essentials(u8),
    EssentialsClassical(u8),
    InspiredBy(u8),
    DeepCuts(u8),
    Influences(u8),
    Live(u8),
    Chill(u8),
    Flipped(u8),
    Sing(u8),
    LoveSongs(u8),
    Sampled(u8),
    TheSongwriters(u8),
    SetList(u8),
    Undiscovered(u8),
}

/// The discriminator of a featured-playlist frame, without its prefix.
pub open spec fn playlist_name(p: FeaturedPlaylist) -> Seq<char> {
    match p {
        FeaturedPlaylist::Essentials(_) => "ESS"@,
        FeaturedPlaylist::EssentialsClassical(_) => "ESSC"@,
        FeaturedPlaylist::InspiredBy(_) => "INS"@,
        FeaturedPlaylist::DeepCuts(_) => "DC"@,
        FeaturedPlaylist::Influences(_) => "INF"@,
        FeaturedPlaylist::Live(_) => "LIVE"@,
        FeaturedPlaylist::Chill(_) => "CHL"@,
        FeaturedPlaylist::Flipped(_) => "FLIP"@,
        FeaturedPlaylist::Sing(_) => "SING"@,
        FeaturedPlaylist::LoveSongs(_) => "LS"@,
        FeaturedPlaylist::Sampled(_) => "SAMP"@,
        FeaturedPlaylist::TheSongwriters(_) => "TSW"@,
        FeaturedPlaylist::SetList(_) => "SL"@,
        FeaturedPlaylist::Undiscovered(_) => "UD"@,
    }
}

/// The variant number of a featured-playlist frame.
pub open spec fn playlist_number(p: FeaturedPlaylist) -> u8 {
    match p {
        FeaturedPlaylist::Essentials(n) => n,
        FeaturedPlaylist::EssentialsClassical(n) => n,
        FeaturedPlaylist::InspiredBy(n) => n,
        FeaturedPlaylist::DeepCuts(n) => n,
        FeaturedPlaylist::Influences(n) => n,
        FeaturedPlaylist::Live(n) => n,
        FeaturedPlaylist::Chill(n) => n,
        FeaturedPlaylist::Flipped(n) => n,
        FeaturedPlaylist::Sing(n) => n,
        FeaturedPlaylist::LoveSongs(n) => n,
        FeaturedPlaylist::Sampled(n) => n,
        FeaturedPlaylist::TheSongwriters(n) => n,
        FeaturedPlaylist::SetList(n) => n,
        FeaturedPlaylist::Undiscovered(n) => n,
    }
}

/// The featured-playlist frame with discriminator `name` and number `n`, if any.
pub open spec fn playlist_from(name: Seq<char>, n: u8) -> Option<FeaturedPlaylist> {
    if name == "ESS"@ {
        Some(FeaturedPlaylist::Essentials(n))
    } else if name == "ESSC"@ {
        Some(FeaturedPlaylist::EssentialsClassical(n))
    } else if name == "INS"@ {
        Some(FeaturedPlaylist::InspiredBy(n))
    } else if name == "DC"@ {
        Some(FeaturedPlaylist::DeepCuts(n))
    } else if name == "INF"@ {
        Some(FeaturedPlaylist::Influences(n))
    } else if name == "LIVE"@ {
        Some(FeaturedPlaylist::Live(n))
    } else if name == "CHL"@ {
        Some(FeaturedPlaylist::Chill(n))
    } else if name == "FLIP"@ {
        Some(FeaturedPlaylist::Flipped(n))
    } else if name == "SING"@ {
        Some(FeaturedPlaylist::Sing(n))
    } else if name == "LS"@ {
        Some(FeaturedPlaylist::LoveSongs(n))
    } else if name == "SAMP"@ {
        Some(FeaturedPlaylist::Sampled(n))
    } else if name == "TSW"@ {
        Some(FeaturedPlaylist::TheSongwriters(n))
    } else if name == "SL"@ {
        Some(FeaturedPlaylist::SetList(n))
    } else if name == "UD"@ {
        Some(FeaturedPlaylist::Undiscovered(n))
    } else {
        None
    }
}

impl FeaturedPlaylist {
    /// The discriminator, without the `FP` prefix.
    pub fn static_str(&self) -> (r: &'static str)
        ensures
            r@ == playlist_name(*self),
    {
        match self {
            Self::Essentials(..) => "ESS",
            Self::EssentialsClassical(..) => "ESSC",
            Self::InspiredBy(..) => "INS",
            Self::DeepCuts(..) => "DC",
            Self::Influences(..) => "INF",
            Self::Live(..) => "LIVE",
            Self::Chill(..) => "CHL",
            Self::Flipped(..) => "FLIP",
            Self::Sing(..) => "SING",
            Self::LoveSongs(..) => "LS",
            Self::Sampled(..) => "SAMP",
            Self::TheSongwriters(..) => "TSW",
            Self::SetList(..) => "SL",
            Self::Undiscovered(..) => "UD",
        }
    }

    /// The variant number.
    pub fn get_variant_number(&self) -> (r: u8)
        ensures
            r == playlist_number(*self),
    {
        match self {
            Self::Essentials(n) => *n,
            Self::EssentialsClassical(n) => *n,
            Self::InspiredBy(n) => *n,
            Self::DeepCuts(n) => *n,
            Self::Influences(n) => *n,
            Self::Live(n) => *n,
            Self::Chill(n) => *n,
            Self::Flipped(n) => *n,
            Self::Sing(n) => *n,
            Self::LoveSongs(n) => *n,
            Self::Sampled(n) => *n,
            Self::TheSongwriters(n) => *n,
            Self::SetList(n) => *n,
            Self::Undiscovered(n) => *n,
        }
    }

    /// The frame with discriminator `variant` and number `number`, if any.
    pub fn from_deconstructed(variant: &str, number: u8) -> (r: Option<Self>)
        ensures
            r == playlist_from(variant@, number),
    {
        if str_eq(variant, "ESS") {
            Some(Self::Essentials(number))
        } else if str_eq(variant, "ESSC") {
            Some(Self::EssentialsClassical(number))
        } else if str_eq(variant, "INS") {
            Some(Self::InspiredBy(number))
        } else if str_eq(variant, "DC") {
            Some(Self::DeepCuts(number))
        } else if str_eq(variant, "INF") {
            Some(Self::Influences(number))
        } else if str_eq(variant, "LIVE") {
            Some(Self::Live(number))
        } else if str_eq(variant, "CHL") {
            Some(Self::Chill(number))
        } else if str_eq(variant, "FLIP") {
            Some(Self::Flipped(number))
        } else if str_eq(variant, "SING") {
            Some(Self::Sing(number))
        } else if str_eq(variant, "LS") {
            Some(Self::LoveSongs(number))
        } else if str_eq(variant, "SAMP") {
            Some(Self::Sampled(number))
        } else if str_eq(variant, "TSW") {
            Some(Self::TheSongwriters(number))
        } else if str_eq(variant, "SL") {
            Some(Self::SetList(number))
        } else if str_eq(variant, "UD") {
            Some(Self::Undiscovered(number))
        } else {
            None
        }
    }
}

/// The featured-playlist frames carry Apple's discriminators, whatever their number: `ESS`
/// essentials, `ESSC` classical essentials, `INS` inspired by, `DC` deep cuts, `INF`
/// influences, `LIVE`, `CHL` chill, `FLIP` flipped, `SING`, `LS` love songs, `SAMP` sampled,
/// `TSW` the songwriters, `SL` set list, `UD` undiscovered; each is written with its
/// discriminator and read from it.
pub proof fn law_playlist_discriminators(n: u8)
    ensures
        playlist_name(FeaturedPlaylist::Essentials(n)) == seq!['E', 'S', 'S'],
        playlist_from(seq!['E', 'S', 'S'], n) == Some(FeaturedPlaylist::Essentials(n)),
        playlist_name(FeaturedPlaylist::EssentialsClassical(n)) == seq!['E', 'S', 'S', 'C'],
        playlist_from(seq!['E', 'S', 'S', 'C'], n) == Some(FeaturedPlaylist::EssentialsClassical(n)),
        playlist_name(FeaturedPlaylist::InspiredBy(n)) == seq!['I', 'N', 'S'],
        playlist_from(seq!['I', 'N', 'S'], n) == Some(FeaturedPlaylist::InspiredBy(n)),
        playlist_name(FeaturedPlaylist::DeepCuts(n)) == seq!['D', 'C'],
        playlist_from(seq!['D', 'C'], n) == Some(FeaturedPlaylist::DeepCuts(n)),
        playlist_name(FeaturedPlaylist::Influences(n)) == seq!['I', 'N', 'F'],
        playlist_from(seq!['I', 'N', 'F'], n) == Some(FeaturedPlaylist::Influences(n)),
        playlist_name(FeaturedPlaylist::Live(n)) == seq!['L', 'I', 'V', 'E'],
        playlist_from(seq!['L', 'I', 'V', 'E'], n) == Some(FeaturedPlaylist::Live(n)),
        playlist_name(FeaturedPlaylist::Chill(n)) == seq!['C', 'H', 'L'],
        playlist_from(seq!['C', 'H', 'L'], n) == Some(FeaturedPlaylist::Chill(n)),
        playlist_name(FeaturedPlaylist::Flipped(n)) == seq!['F', 'L', 'I', 'P'],
        playlist_from(seq!['F', 'L', 'I', 'P'], n) == Some(FeaturedPlaylist::Flipped(n)),
        playlist_name(FeaturedPlaylist::Sing(n)) == seq!['S', 'I', 'N', 'G'],
        playlist_from(seq!['S', 'I', 'N', 'G'], n) == Some(FeaturedPlaylist::Sing(n)),
        playlist_name(FeaturedPlaylist::LoveSongs(n)) == seq!['L', 'S'],
        playlist_from(seq!['L', 'S'], n) == Some(FeaturedPlaylist::LoveSongs(n)),
        playlist_name(FeaturedPlaylist::Sampled(n)) == seq!['S', 'A', 'M', 'P'],
        playlist_from(seq!['S', 'A', 'M', 'P'], n) == Some(FeaturedPlaylist::Sampled(n)),
        playlist_name(FeaturedPlaylist::TheSongwriters(n)) == seq!['T', 'S', 'W'],
        playlist_from(seq!['T', 'S', 'W'], n) == Some(FeaturedPlaylist::TheSongwriters(n)),
        playlist_name(FeaturedPlaylist::SetList(n)) == seq!['S', 'L'],
        playlist_from(seq!['S', 'L'], n) == Some(FeaturedPlaylist::SetList(n)),
        playlist_name(FeaturedPlaylist::Undiscovered(n)) == seq!['U', 'D'],
        playlist_from(seq!['U', 'D'], n) == Some(FeaturedPlaylist::Undiscovered(n)),
{
    reveal_strlit("ESS");
    reveal_strlit("ESSC");
    reveal_strlit("INS");
    reveal_strlit("DC");
    reveal_strlit("INF");
    reveal_strlit("LIVE");
    reveal_strlit("CHL");
    reveal_strlit("FLIP");
    reveal_strlit("SING");
    reveal_strlit("LS");
    reveal_strlit("SAMP");
    reveal_strlit("TSW");
    reveal_strlit("SL");
    reveal_strlit("UD");
    assert(seq!['E', 'S', 'S'] =~= "ESS"@);
    assert(seq!['E', 'S', 'S', 'C'] =~= "ESSC"@);
    assert(seq!['I', 'N', 'S'] =~= "INS"@);
    assert(seq!['D', 'C'] =~= "DC"@);
    assert(seq!['I', 'N', 'F'] =~= "INF"@);
    assert(seq!['L', 'I', 'V', 'E'] =~= "LIVE"@);
    assert(seq!['C', 'H', 'L'] =~= "CHL"@);
    assert(seq!['F', 'L', 'I', 'P'] =~= "FLIP"@);
    assert(seq!['S', 'I', 'N', 'G'] =~= "SING"@);
    assert(seq!['L', 'S'] =~= "LS"@);
    assert(seq!['S', 'A', 'M', 'P'] =~= "SAMP"@);
    assert(seq!['T', 'S', 'W'] =~= "TSW"@);
    assert(seq!['S', 'L'] =~= "SL"@);
    assert(seq!['U', 'D'] =~= "UD"@);
}

/// Deconstructing a featured-playlist frame and building it again gives the same frame.
pub proof fn law_playlist_roundtrip(p: FeaturedPlaylist)
    ensures
        playlist_from(playlist_name(p), playlist_number(p)) == Some(p),
{
    reveal_strlit("ESS");
    reveal_strlit("ESSC");
    reveal_strlit("INS");
    reveal_strlit("DC");
    reveal_strlit("INF");
    reveal_strlit("LIVE");
    reveal_strlit("CHL");
    reveal_strlit("FLIP");
    reveal_strlit("SING");
    reveal_strlit("LS");
    reveal_strlit("SAMP");
    reveal_strlit("TSW");
    reveal_strlit("SL");
    reveal_strlit("UD");
    let n = playlist_name(p);
    if n.len() == 2 {
        assert(n[0] == 'D' || n[0] == 'L' || n[0] == 'S' || n[0] == 'U');
    }
    if n.len() == 3 {
        assert(n[0] == 'E' || n[0] == 'C' || n[0] == 'T' || (n[0] == 'I' && (n[2] == 'S' || n[2]
            == 'F')));
    }
    if n.len() == 4 {
        assert(n[0] == 'E' || n[0] == 'L' || n[0] == 'F' || (n[0] == 'S' && (n[1] == 'I' || n[1]
            == 'A')));
    }
}

/// Frames drawn around featured categories (`CA…`).
#[derive(Debug, Clone, Copy, PartialEq, Eq, PartialOrd, Ord, Hash, Structural)]
pub enum FeaturedCategory {
    Essentials(u8),
    HitsOfTheYear(u8),
}

/// The discriminator of a featured-category frame, without its prefix.
pub open spec fn category_name(c: FeaturedCategory) -> Seq<char> {
    match c {
        FeaturedCategory::Essentials(_) => "ESS"@,
        FeaturedCategory::HitsOfTheYear(_) => "HGOY"@,
    }
}

/// The variant number of a featured-category frame.
pub open spec fn category_number(c: FeaturedCategory) -> u8 {
    match c {
        FeaturedCategory::Essentials(n) => n,
        FeaturedCategory::HitsOfTheYear(n) => n,
    }
}

/// The featured-category frame with discriminator `name` and number `n`, if any.
pub open spec fn category_from(name: Seq<char>, n: u8) -> Option<FeaturedCategory> {
    if name == "ESS"@ {
        Some(FeaturedCategory::Essentials(n))
    } else if name == "HGOY"@ {
        Some(FeaturedCategory::HitsOfTheYear(n))
    } else {
        None
    }
}

impl FeaturedCategory {
    /// The discriminator, without the prefix.
    pub fn static_str(&self) -> (r: &'static str)
        ensures
            r@ == category_name(*self),
    {
        match self {
            Self::Essentials(..) => "ESS",
            Self::HitsOfTheYear(..) => "HGOY",
        }
    }

    /// The variant number.
    pub fn get_variant_number(&self) -> (r: u8)
        ensures
            r == category_number(*self),
    {
        match self {
            Self::Essentials(n) => *n,
            Self::HitsOfTheYear(n) => *n,
        }
    }

    /// The frame with discriminator `variant` and number `number`, if any.
    pub fn from_deconstructed(variant: &str, number: u8) -> (r: Option<Self>)
        ensures
            r == category_from(variant@, number),
    {
        if str_eq(variant, "ESS") {
            Some(Self::Essentials(number))
        } else if str_eq(variant, "HGOY") {
            Some(Self::HitsOfTheYear(number))
        } else {
            None
        }
    }
}

/// Deconstructing a featured-category frame and building it again gives the same frame.
pub proof fn law_category_roundtrip(c: FeaturedCategory)
    ensures
        category_from(category_name(c), category_number(c)) == Some(c),
{
    reveal_strlit("ESS");
    reveal_strlit("HGOY");
    assert("HGOY"@[0] != "ESS"@[0]);
}

/// Featured-category frames carry `ESS` for essentials and `HGOY` for the hits of the year,
/// whatever their number, and each discriminator reads as its category.
pub proof fn law_category_discriminators(n: u8)
    ensures
        category_name(FeaturedCategory::Essentials(n)) == seq!['E', 'S', 'S'],
        category_name(FeaturedCategory::HitsOfTheYear(n)) == seq!['H', 'G', 'O', 'Y'],
        category_from(seq!['E', 'S', 'S'], n) == Some(FeaturedCategory::Essentials(n)),
        category_from(seq!['H', 'G', 'O', 'Y'], n) == Some(FeaturedCategory::HitsOfTheYear(n)),
{
    reveal_strlit("ESS");
    reveal_strlit("HGOY");
    assert(seq!['E', 'S', 'S'] =~= "ESS"@);
    assert(seq!['H', 'G', 'O', 'Y'] =~= "HGOY"@);
}

/// An 8-bit-per-channel colour.
#[derive(Debug, Clone, Copy, PartialEq, Eq, PartialOrd, Ord, Hash, Structural)]
pub struct Rgb {
    /// Red channel.
    pub r: u8,
    /// Green channel.
    pub g: u8,
    /// Blue channel.
    pub b: u8,
}

/// The upper-case hexadecimal digit for a value below 16.
pub open spec fn hex_digit(v: u8) -> u8 {
    if v < 10 {
        (48 + v) as u8
    } else {
        (55 + v) as u8
    }
}

fn hex_digit_exec(v: u8) -> (r: u8)
    requires
        v < 16,
    ensures
        r == hex_digit(v),
{
    if v < 10 {
        48 + v
    } else {
        55 + v
    }
}

impl Rgb {
    /// A colour from its three channels.
    pub fn new(r: u8, g: u8, b: u8) -> (c: Self)
        ensures
            c == (Rgb { r, g, b }),
    {
        Self { r, g, b }
    }

    /// The colour as six upper-case hexadecimal digits, `RRGGBB`.
    pub fn to_raw_hex_uppercase(self) -> (h: [u8; 6])
        ensures
            h@ == seq![
                hex_digit(self.r / 16),
                hex_digit(self.r % 16),
                hex_digit(self.g / 16),
                hex_digit(self.g % 16),
                hex_digit(self.b / 16),
                hex_digit(self.b % 16),
            ],
    {
        [
            hex_digit_exec(self.r / 16),
            hex_digit_exec(self.r % 16),
            hex_digit_exec(self.g / 16),
            hex_digit_exec(self.g % 16),
            hex_digit_exec(self.b / 16),
            hex_digit_exec(self.b % 16),
        ]
    }
}

/// The parameters of a generated playlist cover.
#[derive(Debug, Clone, PartialEq, Eq, PartialOrd, Ord, Hash)]
pub struct GeneratedPlaylistCoverPayload {
    background_colors: [Rgb; 4],
    text: String,
    text_color: Rgb,
}

/// The six upper-case hexadecimal digits of a colour, `RRGGBB`.
pub open spec fn rgb_text(c: Rgb) -> Seq<char> {
    seq![
        hex_digit(c.r / 16) as char,
        hex_digit(c.r % 16) as char,
        hex_digit(c.g / 16) as char,
        hex_digit(c.g % 16) as char,
        hex_digit(c.b / 16) as char,
        hex_digit(c.b % 16) as char,
    ]
}

impl Rgb {
    /// The colour as six upper-case hexadecimal digits, `RRGGBB`.
    pub fn to_upper_hex(self) -> (r: String)
        ensures
            r@ == rgb_text(self),
    {
        let digits = self.to_raw_hex_uppercase();
        let mut out = String::new();
        let mut i: usize = 0;
        while i < 6
            invariant
                i <= 6,
                digits@ == seq![
                    hex_digit(self.r / 16), hex_digit(self.r % 16), hex_digit(self.g / 16),
                    hex_digit(self.g % 16), hex_digit(self.b / 16), hex_digit(self.b % 16),
                ],
                out@ == rgb_text(self).take(i as int),
            decreases 6 - i,
        {
            push_char(&mut out, digits[i] as char);
            assert(rgb_text(self).take(i + 1) =~= rgb_text(self).take(i as int).push(digits@[i as int] as char));
            i = i + 1;
        }
        assert(rgb_text(self).take(6) =~= rgb_text(self));
        out
    }
}

/// The character of a six-bit value in the URL-safe Base64 alphabet (RFC 4648, section 5).
pub open spec fn base64_url_char(v: int) -> char {
    if v < 26 {
        (65 + v) as char
    } else if v < 52 {
        (71 + v) as char
    } else if v < 62 {
        (v - 4) as char
    } else if v == 62 {
        '-'
    } else {
        '_'
    }
}

/// Bytes in URL-safe Base64 with padding: each three bytes as four characters, a shorter
/// end padded with `=`.
pub open spec fn base64_url(b: Seq<u8>) -> Seq<char>
    decreases b.len(),
{
    if b.len() == 0 {
        Seq::empty()
    } else {
        let x0 = b[0] as int;
        let x1 = if b.len() > 1 { b[1] as int } else { 0 };
        let x2 = if b.len() > 2 { b[2] as int } else { 0 };
        let c0 = base64_url_char(x0 / 4);
        let c1 = base64_url_char((x0 % 4) * 16 + x1 / 16);
        let c2 = base64_url_char((x1 % 16) * 4 + x2 / 64);
        let c3 = base64_url_char(x2 % 64);
        if b.len() == 1 {
            seq![c0, c1, '=', '=']
        } else if b.len() == 2 {
            seq![c0, c1, c2, '=']
        } else {
            seq![c0, c1, c2, c3] + base64_url(b.skip(3))
        }
    }
}

/// `base64::Engine::encode` with the `URL_SAFE` engine, which pads: the crate's documentation
/// and source give the RFC 4648 encoding with the URL-safe alphabet, as `base64_url` states.
/// The call panics where the encoded length overflows, which the bound on the input rules out.
#[verifier::external_body]
fn base64_url_safe_encode(data: &[u8]) -> (r: String)
    requires
        data@.len() <= usize::MAX / 2,
    ensures
        r@ == base64_url(data@),
{
    base64::prelude::BASE64_URL_SAFE.encode(data)
}

/// The query that describes a generated playlist cover: the four background colours, the
/// text in URL-safe Base64, the text colour, then `vkey=1`.
pub open spec fn payload_text(colors: [Rgb; 4], text: Seq<char>, text_color: Rgb) -> Seq<char> {
    "?c1="@ + rgb_text(colors@[0]) + "&c2="@ + rgb_text(colors@[1]) + "&c3="@ + rgb_text(colors@[2])
        + "&c4="@ + rgb_text(colors@[3]) + "&t="@ + base64_url(vstd::utf8::encode_utf8(text)) + "&tc="@
        + rgb_text(text_color) + "&vkey=1"@
}

impl GeneratedPlaylistCoverPayload {
    /// A payload of four background colours, a text and its colour.
    pub fn new(background_colors: [Rgb; 4], text: String, text_color: Rgb) -> (r: Self)
        ensures
            r.colors() == background_colors,
            r.text_view() == text@,
            r.text_color_view() == text_color,
    {
        GeneratedPlaylistCoverPayload { background_colors, text, text_color }
    }

    /// The background colours.
    pub closed spec fn colors(&self) -> [Rgb; 4] {
        self.background_colors
    }

    /// The text.
    pub closed spec fn text_view(&self) -> Seq<char> {
        self.text@
    }

    /// The text's colour.
    pub closed spec fn text_color_view(&self) -> Rgb {
        self.text_color
    }

    /// The payload as the query of the cover's address.
    pub fn to_string(&self) -> (r: String)
        requires
            vstd::utf8::encode_utf8(self.text_view()).len() <= usize::MAX / 2,
        ensures
            r@ == payload_text(self.colors(), self.text_view(), self.text_color_view()),
    {
        let mut out = String::new();
        out.append("?c1=");
        out.append(self.background_colors[0].to_upper_hex().as_str());
        out.append("&c2=");
        out.append(self.background_colors[1].to_upper_hex().as_str());
        out.append("&c3=");
        out.append(self.background_colors[2].to_upper_hex().as_str());
        out.append("&c4=");
        out.append(self.background_colors[3].to_upper_hex().as_str());
        out.append("&t=");
        out.append(base64_url_safe_encode(self.text.as_str().as_bytes()).as_str());
        out.append("&tc=");
        out.append(self.text_color.to_upper_hex().as_str());
        out.append("&vkey=1");
        out
    }
}

impl FeaturedPlaylist {
    /// The frame's text: `FP`, the discriminator, then the number in two digits.
    pub fn to_string(&self) -> (r: String)
        ensures
            r@ == "FP"@ + playlist_name(*self) + pad2(playlist_number(*self) as nat),
    {
        let mut out = String::from_str("FP");
        out.append(self.static_str());
        push_pad2(self.get_variant_number(), &mut out);
        out
    }
}

impl FeaturedCategory {
    /// The frame's text: `CA`, the discriminator, then the number in two digits.
    pub fn to_string(&self) -> (r: String)
        ensures
            r@ == "CA"@ + category_name(*self) + pad2(category_number(*self) as nat),
    {
        let mut out = String::from_str("CA");
        out.append(self.static_str());
        push_pad2(self.get_variant_number(), &mut out);
        out
    }
}

/// The text of a frame.
pub open spec fn framing_text(f: Framing) -> Seq<char> {
    match f {
        Framing::FeaturedCategory(c) => "CA"@ + category_name(c) + pad2(category_number(c) as nat),
        Framing::FeaturedPlaylist(p) => "FP"@ + playlist_name(p) + pad2(playlist_number(p) as nat),
        Framing::AppleMusicWatermarkTopRight { classical } => if classical { "DNC01"@ } else { "DN01"@ },
        Framing::PDCXS { variant, .. } => "PDCXS"@ + pad2(variant as nat),
    }
}

impl Framing {
    /// The frame's text.
    pub fn to_string(&self) -> (r: String)
        ensures
            r@ == framing_text(*self),
    {
        match self {
            Framing::FeaturedCategory(c) => c.to_string(),
            Framing::FeaturedPlaylist(p) => p.to_string(),
            Framing::AppleMusicWatermarkTopRight { classical } => String::from_str(if *classical { "DNC01" } else { "DN01" }),
            Framing::PDCXS { variant, .. } => {
                let mut out = String::from_str("PDCXS");
                push_pad2(*variant, &mut out);
                out
            },
        }
    }
}

/// The text of an effect: its code, then a full stop and the frame for a frame.
pub open spec fn effect_text(e: Effect) -> Seq<char> {
    match e {
        Effect::Frame(f) => effect_code(e) + seq!['.'] + framing_text(f),
        _ => effect_code(e),
    }
}

impl Effect {
    /// The effect's text.
    pub fn to_string(&self) -> (r: String)
        ensures
            r@ == effect_text(*self),
    {
        let mut out = String::from_str(self.variant());
        if let Effect::Frame(f) = self {
            push_char(&mut out, '.');
            out.append(f.to_string().as_str());
        }
        out
    }
}

impl UnknownEffectError {
    /// The error's message.
    pub fn to_string(&self) -> (r: String)
        ensures
            r@ == "unknown effect"@,
    {
        String::from_str("unknown effect")
    }
}

/// A frame drawn around an image.
#[derive(Debug, Clone, PartialEq, Eq, PartialOrd, Ord, Hash)]
pub enum Framing {
    FeaturedPlaylist(FeaturedPlaylist),
    FeaturedCategory(FeaturedCategory),
    AppleMusicWatermarkTopRight { classical: bool },
    PDCXS { variant: u8, payload: GeneratedPlaylistCoverPayload, signature: String },
}

/// Why a frame could not be read.
#[derive(Debug, Clone, PartialEq, Eq)]
pub enum FramingParseError<'a> {
    UnknownFrame(&'a str),
    VariantParseError(ParseIntError),
}

/// The length of the run of upper-case letters that starts a frame.
pub open spec fn frame_len(b: Seq<u8>) -> int {
    range_run(b, 65, 90)
}

/// The end of the run of digits that follows the frame letters.
pub open spec fn frame_number_end(b: Seq<u8>) -> int {
    frame_len(b) + digit_run(b.subrange(frame_len(b), b.len() as int))
}

/// The frame's variant number, as parsed.
pub open spec fn frame_number(b: Seq<u8>) -> Result<nat, ParseIntError> {
    parse_result(b.subrange(frame_len(b), frame_number_end(b)), 10, 255)
}

/// The frame letters.
pub open spec fn frame_letters(b: Seq<u8>) -> Seq<u8> {
    b.subrange(0, frame_len(b))
}

/// Whether the letters begin with the two bytes `c0 c1`.
pub open spec fn has_prefix2(f: Seq<u8>, c0: u8, c1: u8) -> bool {
    f.len() >= 2 && f[0] == c0 && f[1] == c1
}

/// Reading a frame gives up (unsupported generated covers) on this input.
pub open spec fn frame_unsupported(b: Seq<u8>) -> bool {
    frame_number(b) is Ok && decode_utf8(frame_letters(b)) == "PDXCS"@
}

/// The frame read from `b`, when it is a known one.
pub open spec fn frame_value(b: Seq<u8>) -> Option<Framing> {
    match frame_number(b) {
        Err(_) => None,
        Ok(n) => {
            let f = frame_letters(b);
            if has_prefix2(f, 70, 80) {
                match playlist_from(decode_utf8(f.subrange(2, f.len() as int)), n as u8) {
                    Some(p) => Some(Framing::FeaturedPlaylist(p)),
                    None => None,
                }
            } else if has_prefix2(f, 70, 67) {
                match category_from(decode_utf8(f.subrange(2, f.len() as int)), n as u8) {
                    Some(c) => Some(Framing::FeaturedCategory(c)),
                    None => None,
                }
            } else {
                None
            }
        },
    }
}

/// The name reported for an unknown frame.
pub open spec fn frame_unknown_name(b: Seq<u8>) -> Seq<u8> {
    let f = frame_letters(b);
    if has_prefix2(f, 70, 80) || has_prefix2(f, 70, 67) {
        f.subrange(2, f.len() as int)
    } else {
        f
    }
}

impl Framing {
    /// Reads a frame such as `FPESS03`: upper-case letters, then a variant number.
    pub fn try_from<'a>(value: &'a str) -> (r: Result<Framing, FramingParseError<'a>>)
        requires
            !frame_unsupported(bytes_of(value)),
        ensures
            frame_number(bytes_of(value)) matches Err(e) ==> r == Err::<Framing, FramingParseError<'a>>(
                FramingParseError::VariantParseError(e),
            ),
            frame_number(bytes_of(value)) is Ok ==> match frame_value(bytes_of(value)) {
                Some(f) => r == Ok::<Framing, FramingParseError<'a>>(f),
                None => r matches Err(FramingParseError::UnknownFrame(s)) && bytes_of(s)
                    == frame_unknown_name(bytes_of(value)),
            },
    {
        let b = value.as_bytes();
        let n = b.len();
        let u = count_range(b, 65, 90);
        proof { lemma_range_run_props(b@, 65, 90); }
        let rest = slice_subrange(b, u, n);
        let d = count_digits(rest);
        proof { lemma_digit_run_props(rest@); }
        let digits = slice_subrange(b, u, u + d);
        assert(digits@ =~= b@.subrange(u as int, u + d));
        let number = match parse_uint(digits, 10, 255) {
            Err(e) => return Err(FramingParseError::VariantParseError(e)),
            Ok(v) => {
                proof { lemma_parse_result_bound(digits@, 10, 255); }
                v as u8
            },
        };
        let frame = substr_ascii(value, 0, u);
        proof { lemma_chars_of(frame); }
        assert(bytes_of(frame) == frame_letters(b@));
        if str_eq(frame, "PDXCS") {
            proof { lemma_chars_of("PDXCS"); }
            assert(false);
            return Err(FramingParseError::UnknownFrame(frame));
        }
        if u >= 2 && b[0] == 70 && (b[1] == 80 || b[1] == 67) {
            let sub = substr_ascii(value, 2, u);
            proof {
                lemma_chars_of(sub);
                assert(bytes_of(sub) =~= frame_letters(b@).subrange(2, u as int));
            }
            if b[1] == 80 {
                match FeaturedPlaylist::from_deconstructed(sub, number) {
                    Some(p) => Ok(Framing::FeaturedPlaylist(p)),
                    None => Err(FramingParseError::UnknownFrame(sub)),
                }
            } else {
                match FeaturedCategory::from_deconstructed(sub, number) {
                    Some(c) => Ok(Framing::FeaturedCategory(c)),
                    None => Err(FramingParseError::UnknownFrame(sub)),
                }
            }
        } else {
            Err(FramingParseError::UnknownFrame(frame))
        }
    }
}

/// An effect applied to an image.
#[derive(Debug, Clone, PartialEq, Eq, PartialOrd, Ord, Hash)]
pub enum Effect {
    /// Pad the image so that it can be shown in a circle (`ac`).
    SquareFitCircle,
    Frame(Framing),
    MusicVideo,
    BackgroundBlur,
    BackgroundFill,
}

/// The two-letter code of an effect.
pub open spec fn effect_code(e: Effect) -> Seq<char> {
    match e {
        Effect::SquareFitCircle => "ac"@,
        Effect::MusicVideo => "mv"@,
        Effect::BackgroundBlur => "bb"@,
        Effect::BackgroundFill => "bf"@,
        Effect::Frame(..) => "SC"@,
    }
}

/// The effect named by one of the four plain two-letter codes, if any.
pub open spec fn plain_effect(c: Seq<char>) -> Option<Effect> {
    if c == "ac"@ {
        Some(Effect::SquareFitCircle)
    } else if c == "mv"@ {
        Some(Effect::MusicVideo)
    } else if c == "bb"@ {
        Some(Effect::BackgroundBlur)
    } else if c == "bf"@ {
        Some(Effect::BackgroundFill)
    } else {
        None
    }
}

/// Whether `b` starts with the framing code `SC`.
pub open spec fn is_framed(b: Seq<u8>) -> bool {
    has_prefix2(b, 83, 67)
}

/// The inputs on which reading an effect completes: a plain code, `SC` + one separator
/// character + a known frame, or any other text whose third byte starts a character.
pub open spec fn effect_readable(b: Seq<u8>) -> bool {
    ||| plain_effect(decode_utf8(b)) is Some
    ||| {
        &&& is_framed(b)
        &&& b.len() >= 3
        &&& is_char_boundary(b, 3)
        &&& !frame_unsupported(b.subrange(3, b.len() as int))
        &&& frame_value(b.subrange(3, b.len() as int)) is Some
    }
    ||| (!is_framed(b) && b.len() >= 2 && is_char_boundary(b, 2))
}

/// The effect read from `b`, on readable input.
pub open spec fn effect_value(b: Seq<u8>) -> Result<Effect, UnknownEffectError> {
    match plain_effect(decode_utf8(b)) {
        Some(e) => Ok(e),
        None => if is_framed(b) {
            match frame_value(b.subrange(3, b.len() as int)) {
                Some(f) => Ok(Effect::Frame(f)),
                None => Err(UnknownEffectError),
            }
        } else {
            Err(UnknownEffectError)
        },
    }
}

/// Effects carry their two-letter codes: `ac` a square fit in a circle, `mv` a music video,
/// `bb` a blurred background, `bf` a filled one, `SC` a frame; and each of the first four
/// codes reads as its effect.
pub proof fn law_effect_codes(f: Framing)
    ensures
        effect_code(Effect::SquareFitCircle) == seq!['a', 'c'],
        effect_code(Effect::MusicVideo) == seq!['m', 'v'],
        effect_code(Effect::BackgroundBlur) == seq!['b', 'b'],
        effect_code(Effect::BackgroundFill) == seq!['b', 'f'],
        effect_code(Effect::Frame(f)) == seq!['S', 'C'],
        plain_effect(seq!['a', 'c']) == Some(Effect::SquareFitCircle),
        plain_effect(seq!['m', 'v']) == Some(Effect::MusicVideo),
        plain_effect(seq!['b', 'b']) == Some(Effect::BackgroundBlur),
        plain_effect(seq!['b', 'f']) == Some(Effect::BackgroundFill),
{
    reveal_strlit("ac");
    reveal_strlit("mv");
    reveal_strlit("bb");
    reveal_strlit("bf");
    reveal_strlit("SC");
    assert(seq!['a', 'c'] =~= "ac"@);
    assert(seq!['m', 'v'] =~= "mv"@);
    assert(seq!['b', 'b'] =~= "bb"@);
    assert(seq!['b', 'f'] =~= "bf"@);
    assert(seq!['S', 'C'] =~= "SC"@);
}

impl Effect {
    /// The two-letter code of this effect.
    pub fn variant(&self) -> (r: &'static str)
        ensures
            r@ == effect_code(*self),
    {
        match self {
            Self::SquareFitCircle => "ac",
            Self::MusicVideo => "mv",
            Self::BackgroundBlur => "bb",
            Self::BackgroundFill => "bf",
            Self::Frame(..) => "SC",
        }
    }

    /// Reads an effect: `ac`, `mv`, `bb`, `bf`, or `SC.` followed by a frame.
    pub fn try_from(value: &str) -> (r: Result<Self, UnknownEffectError>)
        requires
            effect_readable(bytes_of(value)),
        ensures
            r == effect_value(bytes_of(value)),
    {
        proof { lemma_chars_of(value); }
        if str_eq(value, "ac") {
            return Ok(Self::SquareFitCircle);
        } else if str_eq(value, "mv") {
            return Ok(Self::MusicVideo);
        } else if str_eq(value, "bb") {
            return Ok(Self::BackgroundBlur);
        } else if str_eq(value, "bf") {
            return Ok(Self::BackgroundFill);
        }
        let b = value.as_bytes();
        let n = b.len();
        if n >= 2 && b[0] == 83 && b[1] == 67 {
            proof {
                lemma_valid(value);
                is_char_boundary_start_end_of_seq(b@);
            }
            let tail = substr(value, 3, n);
            match Framing::try_from(tail) {
                Ok(f) => Ok(Self::Frame(f)),
                Err(_) => Err(UnknownEffectError),
            }
        } else {
            Err(UnknownEffectError)
        }
    }
}

} // verus!
