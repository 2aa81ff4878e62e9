//! UTF-16 text stored in unaligned bytes of a known byte order.
use vstd::prelude::*;
use vstd::utf8::{char_is_scalar, char_u32_cast, encode_scalar, encode_utf8, has_width_1_encoding, has_width_2_encoding, has_width_3_encoding, is_scalar};
use super::{UnalignedU16Slice, BadByteLength, units_of};
use super::endian::{Endianness, merge_spec, split_spec};
use crate::text::bytes_of;

verus! {

impl Endianness {
    /// The byte order that a byte order mark at the start of `bytes` gives: `FF FE` for little
    /// endian, `FE FF` for big endian.
    pub fn from_bom(bytes: &[u8]) -> (r: Option<Endianness>)
        ensures
            r == (if bytes@.len() >= 2 && bytes@[0] == 0xFF && bytes@[1] == 0xFE {
                Some(Endianness::Little)
            } else if bytes@.len() >= 2 && bytes@[0] == 0xFE && bytes@[1] == 0xFF {
                Some(Endianness::Big)
            } else {
                None
            }),
    {
        if bytes.len() >= 2 && bytes[0] == 0xFF && bytes[1] == 0xFE {
            Some(Endianness::Little)
        } else if bytes.len() >= 2 && bytes[0] == 0xFE && bytes[1] == 0xFF {
            Some(Endianness::Big)
        } else {
            None
        }
    }
}

broadcast use vstd::utf8::group_utf8_lib;

/// Whether `u` is a leading (high) surrogate.
pub open spec fn is_high(u: u16) -> bool {
    0xD800 <= u <= 0xDBFF
}

/// Whether `u` is a trailing (low) surrogate.
pub open spec fn is_low(u: u16) -> bool {
    0xDC00 <= u <= 0xDFFF
}

/// The scalar encoded by a surrogate pair.
pub open spec fn pair_value(h: u16, l: u16) -> u32 {
    ((h - 0xD800) * 0x400 + (l - 0xDC00) + 0x10000) as u32
}

/// The scalars encoded by `units`, or the first unpaired surrogate met reading left to right.
pub open spec fn decode_utf16(units: Seq<u16>) -> Result<Seq<u32>, u16>
    decreases units.len(),
{
    if units.len() == 0 {
        Ok(Seq::empty())
    } else if is_high(units[0]) {
        if units.len() >= 2 && is_low(units[1]) {
            match decode_utf16(units.subrange(2, units.len() as int)) {
                Ok(rest) => Ok(seq![pair_value(units[0], units[1])] + rest),
                Err(u) => Err(u),
            }
        } else {
            Err(units[0])
        }
    } else if is_low(units[0]) {
        Err(units[0])
    } else {
        match decode_utf16(units.drop_first()) {
            Ok(rest) => Ok(seq![units[0] as u32] + rest),
            Err(u) => Err(u),
        }
    }
}

/// The UTF-16 units of one scalar.
pub open spec fn encode_scalar_utf16(c: u32) -> Seq<u16> {
    if c < 0x10000 {
        seq![c as u16]
    } else {
        seq![
            ((c - 0x10000) / 0x400 + 0xD800) as u16,
            ((c - 0x10000) % 0x400 + 0xDC00) as u16,
        ]
    }
}

/// The UTF-16 units of a sequence of scalars.
pub open spec fn encode_utf16(cs: Seq<u32>) -> Seq<u16>
    decreases cs.len(),
{
    if cs.len() == 0 {
        Seq::empty()
    } else {
        encode_scalar_utf16(cs[0]) + encode_utf16(cs.drop_first())
    }
}

/// The bytes of `units` written in the given byte order.
pub open spec fn bytes_of_units(units: Seq<u16>, e: Endianness) -> Seq<u8>
    decreases units.len(),
{
    if units.len() == 0 {
        Seq::empty()
    } else {
        seq![split_spec(e, units[0]).0, split_spec(e, units[0]).1] + bytes_of_units(
            units.drop_first(),
            e,
        )
    }
}

/// The scalar values of a character sequence.
pub open spec fn str_scalars(s: Seq<char>) -> Seq<u32> {
    s.map_values(|c: char| c as u32)
}

/// Whether every value is a Unicode scalar.
pub open spec fn all_scalars(cs: Seq<u32>) -> bool {
    forall|i: int| 0 <= i < cs.len() ==> is_scalar(#[trigger] cs[i])
}

/// The number of bytes the UTF-8 encoding of a scalar takes.
pub open spec fn utf8_width(c: u32) -> nat {
    if c < 0x80 {
        1
    } else if c < 0x800 {
        2
    } else if c < 0x10000 {
        3
    } else {
        4
    }
}

/// The number of bytes the UTF-8 encoding of some scalars takes.
pub open spec fn utf8_len(cs: Seq<u32>) -> nat
    decreases cs.len(),
{
    if cs.len() == 0 {
        0
    } else {
        utf8_width(cs[0]) + utf8_len(cs.drop_first())
    }
}

/// The index `k` bytes after `i`, clamped to `len`.
pub open spec fn step(i: int, k: int, len: int) -> int {
    if i + k <= len {
        i + k
    } else {
        len
    }
}

/// The UTF-16 byte size predicted from UTF-8 bytes by their leading bytes, reading from `i`.
pub open spec fn predict_from(bytes: Seq<u8>, i: int) -> nat
    decreases bytes.len() - i,
{
    if i < 0 || i >= bytes.len() {
        0
    } else if bytes[i] <= 0x7F {
        2 + predict_from(bytes, i + 1)
    } else if 0xC0 <= bytes[i] <= 0xDF {
        2 + predict_from(bytes, step(i, 2, bytes.len() as int))
    } else if 0xE0 <= bytes[i] <= 0xEF {
        2 + predict_from(bytes, step(i, 3, bytes.len() as int))
    } else if 0xF0 <= bytes[i] <= 0xF7 {
        4 + predict_from(bytes, step(i, 4, bytes.len() as int))
    } else {
        predict_from(bytes, i + 1)
    }
}

/// Whether `a` is smaller than `b` in lexicographic order.
pub open spec fn lex_less(a: Seq<u32>, b: Seq<u32>) -> bool
    decreases a.len(),
{
    if a.len() == 0 {
        b.len() > 0
    } else if b.len() == 0 {
        false
    } else if a[0] != b[0] {
        a[0] < b[0]
    } else {
        lex_less(a.drop_first(), b.drop_first())
    }
}

proof fn lemma_lex_skip(a: Seq<u32>, b: Seq<u32>, i: int)
    requires
        0 <= i <= a.len(),
        i <= b.len(),
        a.subrange(0, i) == b.subrange(0, i),
    ensures
        lex_less(a, b) == lex_less(a.subrange(i, a.len() as int), b.subrange(i, b.len() as int)),
    decreases i,
{
    if i > 0 {
        assert(a[0] == a.subrange(0, i)[0]);
        assert(b[0] == b.subrange(0, i)[0]);
        assert(a.drop_first().subrange(0, i - 1) =~= a.subrange(1, i));
        assert(b.drop_first().subrange(0, i - 1) =~= b.subrange(1, i));
        assert(a.subrange(1, i) =~= a.subrange(0, i).drop_first());
        assert(b.subrange(1, i) =~= b.subrange(0, i).drop_first());
        lemma_lex_skip(a.drop_first(), b.drop_first(), i - 1);
        assert(a.drop_first().subrange(i - 1, a.drop_first().len() as int) =~= a.subrange(i, a.len() as int));
        assert(b.drop_first().subrange(i - 1, b.drop_first().len() as int) =~= b.subrange(i, b.len() as int));
    } else {
        assert(a.subrange(0, a.len() as int) =~= a);
        assert(b.subrange(0, b.len() as int) =~= b);
    }
}

/// The first index at which `a` and `b` differ, or the length of the shorter one,
/// with what that index says of their lexicographic order.
pub fn first_difference(a: &Vec<u32>, b: &Vec<u32>) -> (r: usize)
    ensures
        r <= a@.len(),
        r <= b@.len(),
        r < a@.len() && r < b@.len() ==> a@[r as int] != b@[r as int] && a@ != b@ && (lex_less(a@, b@)
            <==> a@[r as int] < b@[r as int]) && (lex_less(b@, a@) <==> b@[r as int] < a@[r as int]),
        !(r < a@.len() && r < b@.len()) ==> (a@ == b@ <==> a@.len() == b@.len()) && (lex_less(a@, b@)
            <==> a@.len() < b@.len()) && (lex_less(b@, a@) <==> b@.len() < a@.len()),
{
    let mut i: usize = 0;
    while i < a.len() && i < b.len() && a[i] == b[i]
        invariant
            i <= a@.len(),
            i <= b@.len(),
            a@.subrange(0, i as int) == b@.subrange(0, i as int),
        decreases a.len() - i,
    {
        assert(a@.subrange(0, i + 1) =~= a@.subrange(0, i as int).push(a@[i as int]));
        assert(b@.subrange(0, i + 1) =~= b@.subrange(0, i as int).push(b@[i as int]));
        i = i + 1;
    }
    proof {
        lemma_lex_skip(a@, b@, i as int);
        lemma_lex_skip(b@, a@, i as int);
        let sa = a@.subrange(i as int, a@.len() as int);
        let sb = b@.subrange(i as int, b@.len() as int);
        if i < a@.len() && i < b@.len() {
            assert(sa[0] == a@[i as int]);
            assert(sb[0] == b@[i as int]);
        } else {
            if a@.len() == b@.len() {
                assert(a@ =~= a@.subrange(0, i as int));
                assert(b@ =~= b@.subrange(0, i as int));
            }
        }
    }
    i
}

/// Whether `p` begins `s`.
pub open spec fn is_prefix(p: Seq<u32>, s: Seq<u32>) -> bool {
    p.len() <= s.len() && s.subrange(0, p.len() as int) == p
}

/// An unpaired surrogate met while decoding UTF-16.
#[derive(Debug, Clone, Copy, PartialEq, Eq, Structural)]
pub struct DecodeUtf16Error {
    pub code: u16,
}

impl DecodeUtf16Error {
    /// The surrogate that had no partner.
    pub fn unpaired_surrogate(&self) -> (r: u16)
        ensures
            r == self.code,
    {
        self.code
    }
}

/// Why bytes could not be read as a UTF-16 string.
#[derive(Debug, Clone, Copy, PartialEq, Eq, Structural)]
pub enum InvalidUtf16Error {
    /// The byte length was odd.
    BadByteLength(BadByteLength),
    /// The units held an unpaired surrogate.
    IncorrectEncoding(DecodeUtf16Error),
}

/// Decodes `units` into scalars.
pub fn decode_units(units: &Vec<u16>) -> (r: Result<Vec<u32>, u16>)
    ensures
        r matches Ok(v) ==> decode_utf16(units@) == Ok::<Seq<u32>, u16>(v@),
        r matches Err(u) ==> decode_utf16(units@) == Err::<Seq<u32>, u16>(u),
{
    let n = units.len();
    let mut out: Vec<u32> = Vec::new();
    let mut i: usize = 0;
    assert(units@.subrange(0, n as int) =~= units@);
    assert(out@ + Seq::<u32>::empty() =~= out@);
    while i < n
        invariant
            n == units@.len(),
            i <= n,
            decode_utf16(units@.subrange(i as int, n as int)) matches Ok(rest) ==> decode_utf16(
                units@,
            ) == Ok::<Seq<u32>, u16>(out@ + rest),
            decode_utf16(units@.subrange(i as int, n as int)) matches Err(u) ==> decode_utf16(
                units@,
            ) == Err::<Seq<u32>, u16>(u),
        decreases n - i,
    {
        let ghost tail = units@.subrange(i as int, n as int);
        let u = units[i];
        if 0xD800 <= u && u <= 0xDBFF {
            if i + 1 < n && 0xDC00 <= units[i + 1] && units[i + 1] <= 0xDFFF {
                let l = units[i + 1];
                let c: u32 = ((u - 0xD800) as u32) * 0x400 + ((l - 0xDC00) as u32) + 0x10000;
                assert(tail.subrange(2, tail.len() as int) =~= units@.subrange(i + 2, n as int));
                let ghost old_out = out@;
                out.push(c);
                assert(forall|rest: Seq<u32>| (old_out + (seq![c] + rest)) =~= (out@ + rest));
                i = i + 2;
            } else {
                return Err(u);
            }
        } else if 0xDC00 <= u && u <= 0xDFFF {
            return Err(u);
        } else {
            assert(tail.drop_first() =~= units@.subrange(i + 1, n as int));
            let ghost old_out = out@;
            out.push(u as u32);
            assert(forall|rest: Seq<u32>| (old_out + (seq![u as u32] + rest)) =~= (out@ + rest));
            i = i + 1;
        }
    }
    assert(units@.subrange(n as int, n as int) =~= Seq::<u16>::empty());
    assert(out@ + Seq::<u32>::empty() =~= out@);
    Ok(out)
}

/// Reads the units of `slice` in the given byte order.
pub fn read_units(slice: &UnalignedU16Slice, e: Endianness) -> (r: Vec<u16>)
    ensures
        r@ == units_of(slice@, e),
{
    let n = slice.len();
    let mut out: Vec<u16> = Vec::new();
    let mut i: usize = 0;
    while i < n
        invariant
            n == slice@.len() / 2,
            i <= n,
            out@ =~= units_of(slice@, e).subrange(0, i as int),
        decreases n - i,
    {
        match slice.get(i, e) {
            Some(v) => out.push(v),
            None => {},
        }
        i = i + 1;
    }
    out
}

/// Turns a scalar into a character.
#[verifier::external_body]
pub(crate) fn char_from_u32(v: u32) -> (r: Option<char>)
    ensures
        r == (if is_scalar(v) { Some(v as char) } else { None::<char> }),
{
    char::from_u32(v)
}

/// Appends a character to a string.
#[verifier::external_body]
pub(crate) fn push_char(s: &mut String, c: char)
    ensures
        final(s)@ == old(s)@.push(c),
{
    s.push(c)
}

/// The scalars of the characters of a string.
pub fn str_to_scalars(s: &str) -> (r: Vec<u32>)
    ensures
        r@ == str_scalars(s@),
{
    let n = s.unicode_len();
    let mut out: Vec<u32> = Vec::new();
    let mut i: usize = 0;
    while i < n
        invariant
            n == s@.len(),
            i <= n,
            out@ =~= str_scalars(s@).subrange(0, i as int),
        decreases n - i,
    {
        let c = s.get_char(i);
        out.push(c as u32);
        i = i + 1;
    }
    out
}

/// A UTF-16 string held in bytes of a known byte order.
///
/// Byte order marks are neither read nor skipped.
#[derive(Debug)]
pub struct Utf16Str<'a> {
    endianness: Endianness,
    slice: UnalignedU16Slice<'a>,
}

impl<'a> Utf16Str<'a> {
    #[verifier::type_invariant]
    spec fn valid(self) -> bool {
        decode_utf16(units_of(self.slice@, self.endianness)) is Ok
    }

    /// The bytes of the string.
    pub closed spec fn raw_bytes(self) -> Seq<u8> {
        self.slice@
    }

    /// The byte order the string is read in.
    pub closed spec fn order(self) -> Endianness {
        self.endianness
    }

    /// The 16-bit units of the string.
    pub open spec fn units(self) -> Seq<u16> {
        units_of(self.raw_bytes(), self.order())
    }

    /// The scalar values of the characters of the string.
    pub open spec fn scalars(self) -> Seq<u32> {
        match decode_utf16(self.units()) {
            Ok(cs) => cs,
            Err(_) => Seq::empty(),
        }
    }

    /// Reads `slice` as UTF-16 in the given byte order, checking that it is well formed.
    pub fn new(slice: &'a [u8], endianness: Endianness) -> (r: Result<Self, InvalidUtf16Error>)
        ensures
            slice@.len() % 2 != 0 ==> r == Err::<Self, InvalidUtf16Error>(InvalidUtf16Error::BadByteLength(BadByteLength)),
            slice@.len() % 2 == 0 ==> match decode_utf16(units_of(slice@, endianness)) {
                Ok(cs) => (r matches Ok(s) && s.raw_bytes() == slice@ && s.order() == endianness && s.scalars() == cs),
                Err(u) => r == Err::<Self, InvalidUtf16Error>(InvalidUtf16Error::IncorrectEncoding(DecodeUtf16Error { code: u })),
            },
    {
        let unaligned = match UnalignedU16Slice::new(slice) {
            Ok(s) => s,
            Err(e) => return Err(InvalidUtf16Error::BadByteLength(e)),
        };
        let units = read_units(&unaligned, endianness);
        match decode_units(&units) {
            Ok(_) => Ok(Utf16Str { endianness, slice: unaligned }),
            Err(u) => Err(InvalidUtf16Error::IncorrectEncoding(DecodeUtf16Error { code: u })),
        }
    }

    /// Whether the string is empty.
    pub fn is_empty(&self) -> (r: bool)
        ensures
            r == (self.raw_bytes().len() == 0),
    {
        self.slice.is_empty()
    }

    /// The bytes of the string.
    pub fn bytes(&self) -> (r: &'a [u8])
        ensures
            r@ == self.raw_bytes(),
    {
        self.slice.bytes()
    }

    /// The bytes of the string as 16-bit values.
    pub fn unaligned_shorts(&self) -> (r: UnalignedU16Slice<'a>)
        ensures
            r@ == self.raw_bytes(),
    {
        self.slice
    }

    /// The byte order the string is read in.
    pub fn endianness(&self) -> (r: Endianness)
        ensures
            r == self.order(),
    {
        self.endianness
    }

    /// The scalar values of the characters, in order.
    pub fn scalar_values(&self) -> (r: Vec<u32>)
        ensures
            r@ == self.scalars(),
            all_scalars(r@),
    {
        proof { use_type_invariant(self); }
        let units = read_units(&self.slice, self.endianness);
        match decode_units(&units) {
            Ok(v) => {
                proof { lemma_decode_scalars(units@); }
                v
            },
            Err(_) => Vec::new(),
        }
    }

    /// An iterator over the characters of the string.
    pub fn chars(&self) -> (r: UnalignedUtf16StrCharacterIterator)
        ensures
            r.remaining_scalars() == self.scalars(),
    {
        UnalignedUtf16StrCharacterIterator::new(self)
    }

    /// Whether the string begins with the given prefix.
    pub fn starts_with<P: PrefixChecker>(&self, prefix: &P) -> (r: bool)
        ensures
            r == is_prefix(prefix.prefix_scalars(), self.scalars()),
    {
        prefix.is_prefix_of(self)
    }

    /// How many bytes the string takes when encoded as UTF-8.
    pub fn utf8_byte_len(&self) -> (r: usize)
        requires
            utf8_len(self.scalars()) <= usize::MAX,
        ensures
            r == utf8_len(self.scalars()),
    {
        let cs = self.scalar_values();
        let n = cs.len();
        let mut sum: usize = 0;
        let mut i: usize = n;
        assert(cs@.subrange(n as int, n as int) =~= Seq::<u32>::empty());
        proof { lemma_utf8_len_suffix_bound(cs@, n as int); }
        while i > 0
            invariant
                n == cs@.len(),
                i <= n,
                sum == utf8_len(cs@.subrange(i as int, n as int)),
                utf8_len(cs@) <= usize::MAX,
            decreases i,
        {
            let c = cs[i - 1];
            let w: usize = if c < 0x80 {
                1
            } else if c < 0x800 {
                2
            } else if c < 0x10000 {
                3
            } else {
                4
            };
            assert(cs@.subrange(i - 1, n as int).drop_first() =~= cs@.subrange(i as int, n as int));
            proof { lemma_utf8_len_suffix_bound(cs@, i - 1); }
            sum = sum + w;
            i = i - 1;
        }
        assert(cs@.subrange(0, n as int) =~= cs@);
        sum
    }

    /// Whether the string holds the same characters as `other`.
    pub fn eq_str(&self, other: &str) -> (r: bool)
        ensures
            r == (self.scalars() == str_scalars(other@)),
    {
        let lhs = self.scalar_values();
        let rhs = str_to_scalars(other);
        scalars_eq(&lhs, &rhs)
    }

    /// Whether the string holds the same characters as `other`, whatever the byte orders.
    pub fn eq_utf16(&self, other: &Utf16Str) -> (r: bool)
        ensures
            r == (self.scalars() == other.scalars()),
    {
        let lhs = self.scalar_values();
        let rhs = other.scalar_values();
        scalars_eq(&lhs, &rhs)
    }

    /// The string converted to UTF-8.
    pub fn to_string(&self) -> (r: String)
        ensures
            str_scalars(r@) == self.scalars(),
    {
        let cs = self.scalar_values();
        let mut out = String::new();
        let mut i: usize = 0;
        while i < cs.len()
            invariant
                i <= cs@.len(),
                all_scalars(cs@),
                str_scalars(out@) =~= cs@.subrange(0, i as int),
            decreases cs.len() - i,
        {
            assert(is_scalar(cs@[i as int]));
            let ghost before = out@;
            match char_from_u32(cs[i]) {
                Some(c) => {
                    assert(c as u32 == cs@[i as int]);
                    push_char(&mut out, c);
                    assert(str_scalars(out@) =~= str_scalars(before).push(cs@[i as int]));
                    assert(cs@.subrange(0, i + 1) =~= cs@.subrange(0, i as int).push(cs@[i as int]));
                },
                None => {},
            }
            i = i + 1;
        }
        assert(cs@.subrange(0, cs@.len() as int) =~= cs@);
        out
    }
}

/// Whether two scalar sequences are equal.
pub fn scalars_eq(a: &Vec<u32>, b: &Vec<u32>) -> (r: bool)
    ensures
        r == (a@ == b@),
{
    if a.len() != b.len() {
        return false;
    }
    let mut i: usize = 0;
    while i < a.len()
        invariant
            a@.len() == b@.len(),
            i <= a@.len(),
            forall|j: int| 0 <= j < i ==> a@[j] == b@[j],
        decreases a.len() - i,
    {
        if a[i] != b[i] {
            return false;
        }
        i = i + 1;
    }
    assert(a@ =~= b@);
    true
}

proof fn lemma_utf8_len_suffix_bound(cs: Seq<u32>, i: int)
    requires
        0 <= i <= cs.len(),
    ensures
        utf8_len(cs.subrange(i, cs.len() as int)) <= utf8_len(cs),
    decreases i,
{
    if i > 0 {
        lemma_utf8_len_suffix_bound(cs.drop_first(), i - 1);
        assert(cs.drop_first().subrange(i - 1, cs.drop_first().len() as int) =~= cs.subrange(i, cs.len() as int));
    } else {
        assert(cs.subrange(0, cs.len() as int) =~= cs);
    }
}

/// Every value decoded from UTF-16 is a Unicode scalar.
pub proof fn lemma_decode_scalars(units: Seq<u16>)
    ensures
        decode_utf16(units) matches Ok(cs) ==> all_scalars(cs),
    decreases units.len(),
{
    if units.len() > 0 {
        if is_high(units[0]) {
            if units.len() >= 2 && is_low(units[1]) {
                lemma_decode_scalars(units.subrange(2, units.len() as int));
                let h = units[0];
                let l = units[1];
                assert(0x10000 <= pair_value(h, l) <= 0x10FFFF) by (nonlinear_arith)
                    requires
                        0xD800 <= h <= 0xDBFF,
                        0xDC00 <= l <= 0xDFFF,
                        pair_value(h, l) == ((h - 0xD800) * 0x400 + (l - 0xDC00) + 0x10000) as u32;
                if let Ok(rest) = decode_utf16(units.subrange(2, units.len() as int)) {
                    let cs = seq![pair_value(h, l)] + rest;
                    assert forall|i: int| 0 <= i < cs.len() implies is_scalar(#[trigger] cs[i]) by {
                        if i > 0 {
                            assert(cs[i] == rest[i - 1]);
                        }
                    }
                }
            }
        } else if !is_low(units[0]) {
            lemma_decode_scalars(units.drop_first());
            if let Ok(rest) = decode_utf16(units.drop_first()) {
                let cs = seq![units[0] as u32] + rest;
                assert forall|i: int| 0 <= i < cs.len() implies is_scalar(#[trigger] cs[i]) by {
                    if i > 0 {
                        assert(cs[i] == rest[i - 1]);
                    }
                }
            }
        }
    }
}

/// The characters of a [`Utf16Str`], yielded one at a time.
pub struct UnalignedUtf16StrCharacterIterator {
    scalars: Vec<u32>,
    position: usize,
}

impl UnalignedUtf16StrCharacterIterator {
    #[verifier::type_invariant]
    spec fn inv(self) -> bool {
        &&& self.position <= self.scalars@.len()
        &&& all_scalars(self.scalars@)
    }

    /// The scalars of the characters not yet yielded.
    pub closed spec fn remaining_scalars(self) -> Seq<u32> {
        self.scalars@.subrange(self.position as int, self.scalars@.len() as int)
    }

    /// An iterator over the characters of `s`.
    pub fn new(s: &Utf16Str) -> (r: Self)
        ensures
            r.remaining_scalars() == s.scalars(),
    {
        let scalars = s.scalar_values();
        assert(scalars@.subrange(0, scalars@.len() as int) =~= scalars@);
        UnalignedUtf16StrCharacterIterator { scalars, position: 0 }
    }

    /// Yields the next character.
    pub fn next(&mut self) -> (r: Option<char>)
        ensures
            old(self).remaining_scalars().len() == 0 ==> r is None && final(self).remaining_scalars()
                == old(self).remaining_scalars(),
            old(self).remaining_scalars().len() > 0 ==> r == Some(old(self).remaining_scalars()[0] as char)
                && final(self).remaining_scalars() == old(self).remaining_scalars().drop_first(),
    {
        proof { use_type_invariant(&*self); }
        if self.position >= self.scalars.len() {
            return None;
        }
        let v = self.scalars[self.position];
        assert(is_scalar(self.scalars@[self.position as int]));
        let ghost before = self.remaining_scalars();
        self.position = self.position + 1;
        assert(self.remaining_scalars() =~= before.drop_first());
        char_from_u32(v)
    }
}

/// Something that can be tested as a prefix of a [`Utf16Str`].
pub trait PrefixChecker {
    /// The scalars of the characters of the prefix.
    spec fn prefix_scalars(&self) -> Seq<u32>;

    /// Whether `against` begins with this prefix; no normalization is done.
    fn is_prefix_of(&self, against: &Utf16Str) -> (r: bool)
        ensures
            r == is_prefix(self.prefix_scalars(), against.scalars()),
    ;
}

fn scalars_prefix(p: &Vec<u32>, s: &Vec<u32>) -> (r: bool)
    ensures
        r == is_prefix(p@, s@),
{
    if p.len() > s.len() {
        return false;
    }
    let mut i: usize = 0;
    while i < p.len()
        invariant
            p@.len() <= s@.len(),
            i <= p@.len(),
            forall|j: int| 0 <= j < i ==> p@[j] == s@[j],
        decreases p.len() - i,
    {
        if p[i] != s[i] {
            assert(s@.subrange(0, p@.len() as int)[i as int] != p@[i as int]);
            return false;
        }
        i = i + 1;
    }
    assert(s@.subrange(0, p@.len() as int) =~= p@);
    true
}

impl<'b> PrefixChecker for &'b str {
    open spec fn prefix_scalars(&self) -> Seq<u32> {
        str_scalars((*self)@)
    }

    fn is_prefix_of(&self, against: &Utf16Str) -> (r: bool) {
        let p = str_to_scalars(*self);
        let s = against.scalar_values();
        scalars_prefix(&p, &s)
    }
}

impl<'b> PrefixChecker for Utf16Str<'b> {
    open spec fn prefix_scalars(&self) -> Seq<u32> {
        self.scalars()
    }

    fn is_prefix_of(&self, against: &Utf16Str) -> (r: bool) {
        let p = self.scalar_values();
        let s = against.scalar_values();
        scalars_prefix(&p, &s)
    }
}

/// The number of bytes the UTF-16 encoding of `s` takes, predicted from its UTF-8 leading bytes.
pub fn predict_equivalent_byte_size(s: &str) -> (r: usize)
    requires
        predict_from(bytes_of(s), 0) <= usize::MAX,
    ensures
        r == predict_from(bytes_of(s), 0),
        r == 2 * encode_utf16(str_scalars(s@)).len(),
{
    proof { law_predicted_size(s); }
    let bytes = s.as_bytes();
    let n = bytes.len();
    let mut size: usize = 0;
    let mut index: usize = 0;
    while index < n
        invariant
            n == bytes@.len(),
            index <= n,
            predict_from(bytes@, 0) == size + predict_from(bytes@, index as int),
            predict_from(bytes@, 0) <= usize::MAX,
        decreases n - index,
    {
        let b = bytes[index];
        if b <= 0x7F {
            size = size + 2;
            index = index + 1;
        } else if 0xC0 <= b && b <= 0xDF {
            size = size + 2;
            index = if n - index >= 2 { index + 2 } else { n };
        } else if 0xE0 <= b && b <= 0xEF {
            size = size + 2;
            index = if n - index >= 3 { index + 3 } else { n };
        } else if 0xF0 <= b && b <= 0xF7 {
            size = size + 4;
            index = if n - index >= 4 { index + 4 } else { n };
        } else {
            index = index + 1;
        }
    }
    size
}

/// Encodes the characters of `literal` as UTF-16 bytes in the given byte order.
#[verifier::rlimit(50)]
pub fn encode_literal(literal: &str, e: Endianness) -> (r: Vec<u8>)
    ensures
        r@ == bytes_of_units(encode_utf16(str_scalars(literal@)), e),
{
    let cs = str_to_scalars(literal);
    let n = cs.len();
    let mut out: Vec<u8> = Vec::new();
    let mut i: usize = 0;
    proof { lemma_str_scalars(literal@); }
    assert(cs@.subrange(0, 0) =~= Seq::<u32>::empty());
    while i < n
        invariant
            n == cs@.len(),
            i <= n,
            all_scalars(cs@),
            out@ == bytes_of_units(encode_utf16(cs@.subrange(0, i as int)), e),
        decreases n - i,
    {
        let c = cs[i];
        assert(is_scalar(cs@[i as int]));
        let ghost prev = cs@.subrange(0, i as int);
        let ghost units = encode_scalar_utf16(c);
        if c < 0x10000 {
            let unit: u16 = c as u16;
            let b = e.split_u16(unit);
            out.push(b[0]);
            out.push(b[1]);
        } else {
            let v: u32 = c - 0x10000;
            let high: u16 = (v / 0x400 + 0xD800) as u16;
            let low: u16 = (v % 0x400 + 0xDC00) as u16;
            let hb = e.split_u16(high);
            let lb = e.split_u16(low);
            out.push(hb[0]);
            out.push(hb[1]);
            out.push(lb[0]);
            out.push(lb[1]);
        }
        proof {
            lemma_encode_utf16_push(prev, c);
            lemma_bytes_of_units_concat(encode_utf16(prev), units, e);
            assert(cs@.subrange(0, i + 1) =~= prev.push(c));
            reveal_with_fuel(bytes_of_units, 3);
        }
        i = i + 1;
    }
    assert(cs@.subrange(0, n as int) =~= cs@);
    out
}

/// Encoding one more scalar appends its units.
pub proof fn lemma_encode_utf16_push(cs: Seq<u32>, c: u32)
    ensures
        encode_utf16(cs.push(c)) == encode_utf16(cs) + encode_scalar_utf16(c),
    decreases cs.len(),
{
    if cs.len() == 0 {
        assert(cs.push(c).drop_first() =~= Seq::<u32>::empty());
        assert(encode_utf16(cs.push(c).drop_first()) =~= Seq::<u16>::empty());
        assert(cs.push(c)[0] == c);
        assert(encode_utf16(cs.push(c)) =~= encode_scalar_utf16(c));
        assert(encode_utf16(cs) =~= Seq::<u16>::empty());
    } else {
        lemma_encode_utf16_push(cs.drop_first(), c);
        assert(cs.push(c).drop_first() =~= cs.drop_first().push(c));
        assert(encode_utf16(cs.push(c)) =~= encode_utf16(cs) + encode_scalar_utf16(c));
    }
}

/// Writing two runs of units gives the two runs of bytes one after the other.
pub proof fn lemma_bytes_of_units_concat(a: Seq<u16>, b: Seq<u16>, e: Endianness)
    ensures
        bytes_of_units(a + b, e) == bytes_of_units(a, e) + bytes_of_units(b, e),
    decreases a.len(),
{
    if a.len() == 0 {
        assert(a + b =~= b);
        assert(bytes_of_units(a, e) + bytes_of_units(b, e) =~= bytes_of_units(b, e));
    } else {
        lemma_bytes_of_units_concat(a.drop_first(), b, e);
        assert((a + b).drop_first() =~= a.drop_first() + b);
        assert(bytes_of_units(a + b, e) =~= bytes_of_units(a, e) + bytes_of_units(b, e));
    }
}

/// The characters of a string are Unicode scalars.
pub proof fn lemma_str_scalars(s: Seq<char>)
    ensures
        all_scalars(str_scalars(s)),
{
    assert forall|i: int| 0 <= i < str_scalars(s).len() implies is_scalar(#[trigger] str_scalars(s)[i]) by {
        vstd::utf8::char_is_scalar(s[i]);
    }
}

} // verus!

verus! {

/// Encoding scalars as UTF-16 and decoding the units gives back the scalars.
pub proof fn lemma_decode_encode(cs: Seq<u32>)
    requires
        all_scalars(cs),
    ensures
        decode_utf16(encode_utf16(cs)) == Ok::<Seq<u32>, u16>(cs),
    decreases cs.len(),
{
    if cs.len() > 0 {
        let c = cs[0];
        let rest = cs.drop_first();
        assert(is_scalar(cs[0]));
        assert forall|i: int| 0 <= i < rest.len() implies is_scalar(#[trigger] rest[i]) by {
            assert(rest[i] == cs[i + 1]);
        }
        lemma_decode_encode(rest);
        let u = encode_utf16(cs);
        assert(u == encode_scalar_utf16(c) + encode_utf16(rest));
        if c < 0x10000 {
            assert(u[0] == c as u16);
            assert(!is_high(u[0]) && !is_low(u[0]));
            assert(u[0] as u32 == c);
            assert(u.drop_first() =~= encode_utf16(rest));
            assert(decode_utf16(u) == Ok::<Seq<u32>, u16>(seq![c] + rest));
        } else {
            let v = (c - 0x10000) as int;
            let q = v / 0x400;
            let m = v % 0x400;
            assert(0 <= q < 0x400 && 0 <= m < 0x400 && q * 0x400 + m == v) by (nonlinear_arith)
                requires
                    0 <= v < 0x100000,
                    q == v / 0x400,
                    m == v % 0x400;
            assert(u[0] == (q + 0xD800) as u16);
            assert(u[1] == (m + 0xDC00) as u16);
            assert(u.subrange(2, u.len() as int) =~= encode_utf16(rest));
            assert(is_high(u[0]) && is_low(u[1]));
            assert(pair_value(u[0], u[1]) == c);
            assert(decode_utf16(u) == Ok::<Seq<u32>, u16>(seq![c] + rest));
        }
        assert(seq![c] + rest =~= cs);
    } else {
        assert(cs =~= Seq::<u32>::empty());
        assert(encode_utf16(cs) =~= Seq::<u16>::empty());
    }
}

/// The bytes of `units` are twice as many as the units.
pub proof fn lemma_bytes_of_units_len(us: Seq<u16>, e: Endianness)
    ensures
        bytes_of_units(us, e).len() == 2 * us.len(),
    decreases us.len(),
{
    if us.len() > 0 {
        lemma_bytes_of_units_len(us.drop_first(), e);
    }
}

/// Reading back the bytes written for some units gives those units.
pub proof fn lemma_units_of_bytes_of_units(us: Seq<u16>, e: Endianness)
    ensures
        units_of(bytes_of_units(us, e), e) == us,
    decreases us.len(),
{
    lemma_bytes_of_units_len(us, e);
    if us.len() > 0 {
        let rest = us.drop_first();
        lemma_units_of_bytes_of_units(rest, e);
        lemma_bytes_of_units_len(rest, e);
        let b = bytes_of_units(us, e);
        let rb = bytes_of_units(rest, e);
        assert(b == seq![split_spec(e, us[0]).0, split_spec(e, us[0]).1] + rb);
        assert forall|i: int| 0 <= i < us.len() implies #[trigger] units_of(b, e)[i] == us[i] by {
            if i == 0 {
                super::endian::lemma_merge_split(e, us[0]);
            } else {
                assert(b[2 * i] == rb[2 * (i - 1)]);
                assert(b[2 * i + 1] == rb[2 * (i - 1) + 1]);
                assert(units_of(rb, e)[i - 1] == rest[i - 1]);
            }
        }
        assert(units_of(b, e) =~= us);
    } else {
        assert(units_of(bytes_of_units(us, e), e) =~= us);
    }
}

/// A string encoded as UTF-16 in some byte order and read back in that byte order
/// is a well-formed UTF-16 string holding the characters of the text encoded.
pub proof fn law_encode_literal_roundtrip(s: &str, e: Endianness)
    ensures
        bytes_of_units(encode_utf16(str_scalars(s@)), e).len() % 2 == 0,
        decode_utf16(units_of(bytes_of_units(encode_utf16(str_scalars(s@)), e), e))
            == Ok::<Seq<u32>, u16>(str_scalars(s@)),
{
    let us = encode_utf16(str_scalars(s@));
    lemma_bytes_of_units_len(us, e);
    lemma_units_of_bytes_of_units(us, e);
    lemma_str_scalars(s@);
    lemma_decode_encode(str_scalars(s@));
}

/// A well-formed UTF-16 unit sequence is the encoding of the scalars it decodes to.
pub proof fn law_decode_then_encode(units: Seq<u16>)
    ensures
        decode_utf16(units) matches Ok(cs) ==> encode_utf16(cs) == units,
    decreases units.len(),
{
    if units.len() > 0 {
        if is_high(units[0]) {
            if units.len() >= 2 && is_low(units[1]) {
                let tail = units.subrange(2, units.len() as int);
                law_decode_then_encode(tail);
                if let Ok(rest) = decode_utf16(tail) {
                    let h = units[0];
                    let l = units[1];
                    let c = pair_value(h, l);
                    let cs = seq![c] + rest;
                    assert(cs.drop_first() =~= rest);
                    let hv = (h - 0xD800) as int;
                    let lv = (l - 0xDC00) as int;
                    assert((hv * 0x400 + lv) / 0x400 == hv && (hv * 0x400 + lv) % 0x400 == lv
                        && 0 <= hv * 0x400 + lv < 0x100000) by (nonlinear_arith)
                        requires
                            0 <= hv < 0x400,
                            0 <= lv < 0x400;
                    assert(c >= 0x10000);
                    assert(c - 0x10000 == hv * 0x400 + lv);
                    assert(encode_scalar_utf16(c) =~= seq![h, l]);
                    assert(encode_utf16(cs) =~= units);
                }
            }
        } else if !is_low(units[0]) {
            law_decode_then_encode(units.drop_first());
            if let Ok(rest) = decode_utf16(units.drop_first()) {
                let cs = seq![units[0] as u32] + rest;
                assert(cs.drop_first() =~= rest);
                assert(encode_utf16(cs) =~= units);
            }
        }
    }
}


/// Predicting from bytes further on reads only those bytes.
proof fn lemma_predict_shift(p: Seq<u8>, r: Seq<u8>, j: int)
    requires
        0 <= j,
    ensures
        predict_from(p + r, p.len() + j) == predict_from(r, j),
    decreases r.len() - j,
{
    let b = p + r;
    let i = p.len() + j;
    if j < r.len() {
        assert(b[i] == r[j]);
        assert(step(i, 2, b.len() as int) == p.len() + step(j, 2, r.len() as int));
        assert(step(i, 3, b.len() as int) == p.len() + step(j, 3, r.len() as int));
        assert(step(i, 4, b.len() as int) == p.len() + step(j, 4, r.len() as int));
        lemma_predict_shift(p, r, j + 1);
        if j + 2 <= r.len() { lemma_predict_shift(p, r, j + 2); } else { lemma_predict_shift(p, r, r.len() as int); }
        if j + 3 <= r.len() { lemma_predict_shift(p, r, j + 3); } else { lemma_predict_shift(p, r, r.len() as int); }
        if j + 4 <= r.len() { lemma_predict_shift(p, r, j + 4); } else { lemma_predict_shift(p, r, r.len() as int); }
    }
}

/// The leading byte of the UTF-8 encoding of a scalar tells its UTF-16 size.
proof fn lemma_leading_byte(c: u32)
    requires
        is_scalar(c),
    ensures
        ({
            let e = encode_scalar(c);
            &&& e.len() >= 1
            &&& c < 0x80 ==> e[0] <= 0x7F && e.len() == 1
            &&& 0x80 <= c < 0x800 ==> 0xC0 <= e[0] <= 0xDF && e.len() == 2
            &&& 0x800 <= c < 0x10000 ==> 0xE0 <= e[0] <= 0xEF && e.len() == 3
            &&& 0x10000 <= c ==> 0xF0 <= e[0] <= 0xF7 && e.len() == 4
        }),
{
    if has_width_1_encoding(c) {
        assert(c & 0x7F <= 0x7F) by (bit_vector);
        assert((c & 0x7F) as u8 <= 0x7F) by (bit_vector) requires c <= 0x7F;
    } else if has_width_2_encoding(c) {
        assert(0xC0 <= (0xC0 | ((c >> 6) & 0x1F) as u8) <= 0xDF) by (bit_vector);
    } else if has_width_3_encoding(c) {
        assert(0xE0 <= (0xE0 | ((c >> 12) & 0x0F) as u8) <= 0xEF) by (bit_vector);
    } else {
        assert(0xF0 <= (0xF0 | ((c >> 18) & 0x7) as u8) <= 0xF7) by (bit_vector);
    }
}

/// The UTF-16 size predicted from the UTF-8 encoding of `cs` is two bytes per UTF-16 unit.
proof fn lemma_predict_encoding(cs: Seq<char>)
    ensures
        predict_from(encode_utf8(cs), 0) == 2 * encode_utf16(str_scalars(cs)).len(),
    decreases cs.len(),
{
    if cs.len() > 0 {
        let c = cs[0] as u32;
        char_is_scalar(cs[0]);
        let e = encode_scalar(c);
        let rest = encode_utf8(cs.drop_first());
        lemma_predict_encoding(cs.drop_first());
        lemma_leading_byte(c);
        assert(encode_utf8(cs) == e + rest);
        lemma_predict_shift(e, rest, 0);
        let b = e + rest;
        assert(b[0] == e[0]);
        assert(step(0, e.len() as int, b.len() as int) == e.len());
        assert(str_scalars(cs).drop_first() =~= str_scalars(cs.drop_first()));
        assert(str_scalars(cs)[0] == c);
    } else {
        assert(encode_utf8(cs) =~= Seq::<u8>::empty());
    }
}

/// The UTF-16 byte size predicted for a text is twice the number of UTF-16 units that
/// encode it.
pub proof fn law_predicted_size(s: &str)
    ensures
        predict_from(bytes_of(s), 0) == 2 * encode_utf16(str_scalars(s@)).len(),
{
    lemma_predict_encoding(s@);
    assert(bytes_of(s) == encode_utf8(s@));
}

/// A string whose bytes are the UTF-16 encoding of a text, in its own byte order, holds
/// that text: its characters are the text's, and the only text with those characters is
/// the text itself.
pub proof fn law_utf16_text_roundtrip(u: Utf16Str, s: &str)
    requires
        u.raw_bytes() == bytes_of_units(encode_utf16(str_scalars(s@)), u.order()),
    ensures
        u.scalars() == str_scalars(s@),
        forall|t: Seq<char>| str_scalars(t) == u.scalars() ==> t == s@,
{
    law_encode_literal_roundtrip(s, u.order());
    assert forall|t: Seq<char>| str_scalars(t) == u.scalars() implies t == s@ by {
        assert(t.len() == s@.len());
        assert forall|i: int| 0 <= i < t.len() implies t[i] == s@[i] by {
            assert(str_scalars(t)[i] == str_scalars(s@)[i]);
            char_u32_cast(t[i], t[i] as u32);
            char_u32_cast(s@[i], s@[i] as u32);
        }
        assert(t =~= s@);
    }
}

} // verus!
