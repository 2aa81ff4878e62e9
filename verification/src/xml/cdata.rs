//! XML character data and its escapes: `&quot;`, `&amp;`, `&apos;`, `&lt;`, `&gt;`,
//! and numeric `&#…;` / `&#x…;` codepoints.
use vstd::prelude::*;
use vstd::slice::slice_subrange;
use vstd::utf8::{decode_utf8, is_scalar};
use crate::text::{
    bytes_of, find_from, str_eq, substr_ascii, find_byte_from, lemma_chars_of, lemma_find_from_props,
};
use crate::num::{ParseIntError, parse_result, parse_uint};
use crate::maybe_owned_string::MaybeOwnedString;
use crate::unaligned_u16::utf16::{char_from_u32, push_char};

verus! {

/// The name after `&` is not a predefined entity.
#[derive(Debug, Clone, Copy, PartialEq, Eq, PartialOrd, Ord, Hash, Structural)]
pub struct UnknownCharacterEntity;

/// Why an escape could not be decoded.
#[derive(Debug, Clone, Copy, PartialEq, Eq, Structural)]
pub enum CharacterEntityDecodingError {
    /// No `;` follows the `&`.
    DidNotTerminate,
    /// The numeric codepoint could not be parsed.
    InvalidForm(ParseIntError),
    /// The name is not a predefined entity.
    UnknownEntity(UnknownCharacterEntity),
    /// The codepoint is not a character.
    InvalidCharacter,
}

/// The five predefined entities.
#[derive(Debug, Clone, Copy, PartialEq, Eq, PartialOrd, Ord, Hash, Structural)]
pub enum CharacterEntity {
    QuotationMark,
    Ampersand,
    Apostrophe,
    LessThan,
    GreaterThan,
}

/// The character written for an entity.
pub open spec fn entity_char(e: CharacterEntity) -> char {
    match e {
        CharacterEntity::QuotationMark => '"',
        CharacterEntity::Ampersand => '&',
        CharacterEntity::Apostrophe => '\'',
        CharacterEntity::LessThan => '>',
        CharacterEntity::GreaterThan => '<',
    }
}

/// The entity with the given name, if any.
pub open spec fn entity_from_name(s: Seq<char>) -> Option<CharacterEntity> {
    if s == "quot"@ {
        Some(CharacterEntity::QuotationMark)
    } else if s == "amp"@ {
        Some(CharacterEntity::Ampersand)
    } else if s == "apos"@ {
        Some(CharacterEntity::Apostrophe)
    } else if s == "lt"@ {
        Some(CharacterEntity::LessThan)
    } else if s == "gt"@ {
        Some(CharacterEntity::GreaterThan)
    } else {
        None
    }
}

/// The predefined entities are named `quot`, `amp`, `apos`, `lt` and `gt`; `&quot;` stands
/// for `"`, `&amp;` for `&` and `&apos;` for `'`.
pub proof fn law_entity_names()
    ensures
        entity_from_name(seq!['q', 'u', 'o', 't']) == Some(CharacterEntity::QuotationMark),
        entity_from_name(seq!['a', 'm', 'p']) == Some(CharacterEntity::Ampersand),
        entity_from_name(seq!['a', 'p', 'o', 's']) == Some(CharacterEntity::Apostrophe),
        entity_from_name(seq!['l', 't']) == Some(CharacterEntity::LessThan),
        entity_from_name(seq!['g', 't']) == Some(CharacterEntity::GreaterThan),
        entity_char(CharacterEntity::QuotationMark) == '"',
        entity_char(CharacterEntity::Ampersand) == '&',
        entity_char(CharacterEntity::Apostrophe) == '\'',
{
    reveal_strlit("quot");
    reveal_strlit("amp");
    reveal_strlit("apos");
    reveal_strlit("lt");
    reveal_strlit("gt");
    assert(seq!['q', 'u', 'o', 't'] =~= "quot"@);
    assert(seq!['a', 'm', 'p'] =~= "amp"@);
    assert(seq!['a', 'p', 'o', 's'] =~= "apos"@);
    assert(seq!['l', 't'] =~= "lt"@);
    assert(seq!['g', 't'] =~= "gt"@);
}

impl CharacterEntity {
    /// The character written for this entity.
    pub fn to_char(self) -> (c: char)
        ensures
            c == entity_char(self),
    {
        match self {
            Self::QuotationMark => '"',
            Self::Ampersand => '&',
            Self::Apostrophe => '\'',
            Self::LessThan => '>',
            Self::GreaterThan => '<',
        }
    }

    /// The character written for this entity, as text.
    pub fn to_str(self) -> (s: &'static str)
        ensures
            s@ == seq![entity_char(self)],
    {
        proof {
            reveal_strlit("\"");
            reveal_strlit("&");
            reveal_strlit("'");
            reveal_strlit(">");
            reveal_strlit("<");
        }
        match self {
            Self::QuotationMark => "\"",
            Self::Ampersand => "&",
            Self::Apostrophe => "'",
            Self::LessThan => ">",
            Self::GreaterThan => "<",
        }
    }

    /// The entity named `value`.
    pub fn try_from(value: &str) -> (r: Result<Self, UnknownCharacterEntity>)
        ensures
            entity_from_name(value@) matches Some(e) ==> r == Ok::<CharacterEntity, UnknownCharacterEntity>(e),
            entity_from_name(value@) is None ==> r == Err::<CharacterEntity, UnknownCharacterEntity>(
                UnknownCharacterEntity,
            ),
    {
        if str_eq(value, "quot") {
            Ok(Self::QuotationMark)
        } else if str_eq(value, "amp") {
            Ok(Self::Ampersand)
        } else if str_eq(value, "apos") {
            Ok(Self::Apostrophe)
        } else if str_eq(value, "lt") {
            Ok(Self::LessThan)
        } else if str_eq(value, "gt") {
            Ok(Self::GreaterThan)
        } else {
            Err(UnknownCharacterEntity)
        }
    }
}

/// What an escape stands for.
#[derive(Debug, Clone, Copy, PartialEq, Eq, Structural)]
pub enum Escape {
    Codepoint(char),
    Entity(CharacterEntity),
}

/// The character an escape stands for.
pub open spec fn escape_char(e: Escape) -> char {
    match e {
        Escape::Codepoint(c) => c,
        Escape::Entity(entity) => entity_char(entity),
    }
}

impl Escape {
    /// The character this escape stands for.
    pub fn to_char(self) -> (c: char)
        ensures
            c == escape_char(self),
    {
        match self {
            Escape::Codepoint(c) => c,
            Escape::Entity(entity) => entity.to_char(),
        }
    }
}

/// An escape found in text.
#[derive(Debug, Clone, Copy, PartialEq, Eq, Structural)]
pub struct EscapeInfo {
    pub character: Escape,
    /// The length of the escape in bytes, including the `&` and the `;`.
    pub length: usize,
    /// Where the escape's `&` is.
    pub position: usize,
}

/// The escape body `s` (between `&` and `;`), decoded.
pub open spec fn decode_escape_body(s: Seq<u8>) -> Result<Escape, CharacterEntityDecodingError> {
    if s.len() >= 1 && s[0] == 35 {
        let hex = s[1] == 120;
        let digits = s.subrange(if hex { 2 } else { 1 }, s.len() as int);
        match parse_result(digits, if hex { 16 } else { 10 }, 0xffff_ffff) {
            Err(e) => Err(CharacterEntityDecodingError::InvalidForm(e)),
            Ok(v) => if is_scalar(v as u32) {
                Ok(Escape::Codepoint((v as u32) as char))
            } else {
                Err(CharacterEntityDecodingError::InvalidCharacter)
            },
        }
    } else {
        match entity_from_name(decode_utf8(s)) {
            Some(e) => Ok(Escape::Entity(e)),
            None => Err(CharacterEntityDecodingError::UnknownEntity(UnknownCharacterEntity)),
        }
    }
}

/// Looking for the next escape in `b` from `pos`: nothing when no `&` is left, else the
/// escape or the failure, and where the search continues.
pub open spec fn escape_step(b: Seq<u8>, pos: int) -> Option<
    (Result<EscapeInfo, CharacterEntityDecodingError>, int),
> {
    match find_from(b, 38, pos) {
        None => None,
        Some(amp) => match find_from(b, 59, amp) {
            None => Some((Err(CharacterEntityDecodingError::DidNotTerminate), pos)),
            Some(semi) => match decode_escape_body(b.subrange(amp + 1, semi)) {
                Err(e) => Some((Err(e), pos)),
                Ok(c) => Some(
                    (
                        Ok(
                            EscapeInfo {
                                character: c,
                                length: (semi - amp + 1) as usize,
                                position: amp as usize,
                            },
                        ),
                        semi,
                    ),
                ),
            },
        },
    }
}

/// The next escape can be decoded without giving up: a numeric escape has at least one
/// character after its `#`.
pub open spec fn escape_step_ok(b: Seq<u8>, pos: int) -> bool {
    match find_from(b, 38, pos) {
        None => true,
        Some(amp) => match find_from(b, 59, amp) {
            None => true,
            Some(semi) => !(semi - amp - 1 >= 1 && b[amp + 1] == 35) || semi - amp - 1 >= 2,
        },
    }
}

/// Yields the escapes of a text, one at a time. After a failure it yields the same failure
/// again, as it keeps reading from where it stopped.
pub struct EscapeIterator<'a> {
    str: &'a str,
    pos: usize,
}

impl<'a> EscapeIterator<'a> {
    /// The text being read.
    pub closed spec fn text(&self) -> Seq<u8> {
        bytes_of(self.str)
    }

    /// Where the next search starts.
    pub closed spec fn position(&self) -> int {
        self.pos as int
    }

    /// An iterator over the escapes of `str`.
    pub fn new(str: &'a str) -> (r: Self)
        ensures
            r.text() == bytes_of(str),
            r.position() == 0,
    {
        Self { str, pos: 0 }
    }

    /// The next escape.
    pub fn next(&mut self) -> (r: Option<Result<EscapeInfo, CharacterEntityDecodingError>>)
        requires
            old(self).position() <= old(self).text().len(),
            escape_step_ok(old(self).text(), old(self).position()),
        ensures
            final(self).text() == old(self).text(),
            final(self).position() <= final(self).text().len(),
            match escape_step(old(self).text(), old(self).position()) {
                None => r is None && final(self).position() == old(self).position(),
                Some((x, p)) => r == Some(x) && final(self).position() == p,
            },
    {
        let b = self.str.as_bytes();
        let n = b.len();
        proof { lemma_find_from_props(b@, 38, self.pos as int); }
        let amp = match find_byte_from(b, 38, self.pos) {
            None => return None,
            Some(a) => a,
        };
        proof { lemma_find_from_props(b@, 59, amp as int); }
        let semi = match find_byte_from(b, 59, amp) {
            None => return Some(Err(CharacterEntityDecodingError::DidNotTerminate)),
            Some(s) => s,
        };
        match decode_escape(self.str, amp + 1, semi) {
            Err(e) => Some(Err(e)),
            Ok(c) => {
                self.pos = semi;
                Some(Ok(EscapeInfo { character: c, length: semi - amp + 1, position: amp }))
            },
        }
    }
}

/// Decodes the escape body `s[start..end]`, which lies between a `&` and a `;`.
fn decode_escape(s: &str, start: usize, end: usize) -> (r: Result<Escape, CharacterEntityDecodingError>)
    requires
        0 < start <= end < bytes_of(s).len(),
        bytes_of(s)[start - 1] == 38,
        bytes_of(s)[end as int] == 59,
        !(end - start >= 1 && bytes_of(s)[start as int] == 35) || end - start >= 2,
    ensures
        r == decode_escape_body(bytes_of(s).subrange(start as int, end as int)),
{
    let b = s.as_bytes();
    let ghost body = b@.subrange(start as int, end as int);
    if end - start >= 1 && b[start] == 35 {
        let hex = b[start + 1] == 120;
        let from = if hex { start + 2 } else { start + 1 };
        let digits = slice_subrange(b, from, end);
        assert(digits@ =~= body.subrange(if hex { 2 } else { 1 }, body.len() as int));
        match parse_uint(digits, if hex { 16 } else { 10 }, 0xffff_ffff) {
            Err(e) => Err(CharacterEntityDecodingError::InvalidForm(e)),
            Ok(v) => {
                proof { crate::num::lemma_parse_result_bound(digits@, if hex { 16 } else { 10 }, 0xffff_ffff); }
                match char_from_u32(v as u32) {
                    Some(c) => Ok(Escape::Codepoint(c)),
                    None => Err(CharacterEntityDecodingError::InvalidCharacter),
                }
            },
        }
    } else {
        let name = substr_ascii(s, start, end);
        proof { lemma_chars_of(name); }
        match CharacterEntity::try_from(name) {
            Ok(e) => Ok(Escape::Entity(e)),
            Err(u) => Err(CharacterEntityDecodingError::UnknownEntity(u)),
        }
    }
}

/// A chunk of text: an escape (or the failure to read one), or a run of plain text.
#[derive(Debug, PartialEq, Eq)]
pub enum CharDecodeResultOrStr<'a> {
    Char(Result<EscapeInfo, CharacterEntityDecodingError>),
    Str(&'a str),
}

/// Yields the escaped and plain chunks of a text, in order. After a failure it yields the
/// same failure again.
pub struct EscapeChunksIterator<'a> {
    sub: EscapeIterator<'a>,
    idx: usize,
    done: bool,
    next: Option<Result<EscapeInfo, CharacterEntityDecodingError>>,
}

impl<'a> EscapeChunksIterator<'a> {
    /// The text being read.
    pub closed spec fn text(&self) -> Seq<u8> {
        self.sub.text()
    }

    /// Where the escape search continues.
    pub closed spec fn search(&self) -> int {
        self.sub.position()
    }

    /// Where the next plain chunk starts.
    pub closed spec fn plain_start(&self) -> int {
        self.idx as int
    }

    /// Whether the iterator has finished.
    pub closed spec fn finished(&self) -> bool {
        self.done
    }

    /// An escape already read, to be yielded after the plain chunk before it.
    pub closed spec fn pending(&self) -> Option<Result<EscapeInfo, CharacterEntityDecodingError>> {
        self.next
    }

    /// Whether the state can have come from reading well-formed text.
    pub open spec fn wf(&self) -> bool {
        &&& self.search() <= self.text().len()
        &&& self.plain_start() <= self.text().len()
        &&& (self.plain_start() == self.search() || (self.plain_start() == self.search() + 1
            && self.text()[self.search()] == 59))
        &&& (self.plain_start() == 0 || self.text()[self.plain_start() - 1] == 59)
    }

    /// An iterator over the chunks of `str`.
    pub fn new(str: &'a str) -> (r: Self)
        ensures
            r.text() == bytes_of(str),
            r.search() == 0,
            r.plain_start() == 0,
            !r.finished(),
            r.pending() is None,
            r.wf(),
    {
        Self { sub: EscapeIterator::new(str), idx: 0, done: false, next: None }
    }

    /// The next chunk; `None` for good once the text is used up.
    pub fn next(&mut self) -> (r: Option<CharDecodeResultOrStr<'a>>)
        requires
            old(self).finished() || (old(self).wf() && escape_step_ok(old(self).text(), old(self).search())),
        ensures
            final(self).text() == old(self).text(),
            old(self).finished() ==> r is None && final(self).finished(),
            !old(self).finished() ==> (old(self).pending() matches Some(x) ==> r == Some(
                CharDecodeResultOrStr::<'a>::Char(x),
            ) && final(self).pending() is None && final(self).search() == old(self).search()
                && final(self).plain_start() == old(self).plain_start() && !final(self).finished() && final(self).wf()),
            !old(self).finished() && old(self).pending() is None ==> match escape_step(
                old(self).text(),
                old(self).search(),
            ) {
                None => final(self).finished() && (if old(self).plain_start() < old(self).text().len() {
                    r matches Some(CharDecodeResultOrStr::Str(s)) && bytes_of(s) == old(self).text().subrange(
                        old(self).plain_start(),
                        old(self).text().len() as int,
                    )
                } else {
                    r is None
                }),
                Some((Err(e), p)) => r == Some(
                    CharDecodeResultOrStr::<'a>::Char(Err(e)),
                ) && final(self).search() == p && !final(self).finished() && final(self).pending() is None
                    && final(self).plain_start() == old(self).plain_start(),
                Some((Ok(esc), p)) => {
                    &&& final(self).search() == p
                    &&& !final(self).finished()
                    &&& final(self).plain_start() == esc.position + esc.length
                    &&& if old(self).plain_start() == esc.position {
                        r == Some(CharDecodeResultOrStr::<'a>::Char(Ok(esc))) && final(self).pending() is None
                    } else {
                        &&& r matches Some(CharDecodeResultOrStr::Str(s))
                        &&& bytes_of(s) == old(self).text().subrange(old(self).plain_start(), esc.position as int)
                        &&& final(self).pending() == Some(Ok::<EscapeInfo, CharacterEntityDecodingError>(esc))
                    }
                },
            },
            final(self).wf() || final(self).finished(),
    {
        if self.done {
            return None;
        }
        if self.next.is_some() {
            let pending = self.next.take();
            return match pending {
                Some(x) => Some(CharDecodeResultOrStr::Char(x)),
                None => None,
            };
        }
        let old_idx = self.idx;
        proof {
            lemma_find_from_props(self.sub.text(), 38, self.sub.pos as int);
        }
        match self.sub.next() {
            None => {
                self.done = true;
                let text = self.sub.str;
                let n = text.as_bytes().len();
                if self.idx < n {
                    let slice = substr_ascii(text, self.idx, n);
                    Some(CharDecodeResultOrStr::Str(slice))
                } else {
                    None
                }
            },
            Some(result) => match result {
                Err(err) => Some(CharDecodeResultOrStr::Char(Err(err))),
                Ok(escape) => {
                    proof {
                        lemma_find_from_props(self.sub.text(), 59, escape.position as int);
                    }
                    let text = self.sub.str;
                    let n = text.as_bytes().len();
                    let ghost t = self.sub.text();
                    let ghost srch = old(self).sub.pos as int;
                    assert(find_from(t, 38, srch) == Some(escape.position as int));
                    assert(escape.position >= srch);
                    assert(t[escape.position as int] == 38);
                    assert(self.idx <= escape.position);
                    let slice = substr_ascii(text, self.idx, escape.position);
                    self.idx = escape.position + escape.length;
                    if old_idx == escape.position {
                        Some(CharDecodeResultOrStr::Char(Ok(escape)))
                    } else {
                        self.next = Some(Ok(escape));
                        Some(CharDecodeResultOrStr::Str(slice))
                    }
                },
            },
        }
    }
}


/// Searching for escapes moves forward.
pub proof fn lemma_escape_step_advances(b: Seq<u8>, pos: int)
    requires
        0 <= pos <= b.len(),
    ensures
        escape_step(b, pos) matches Some((x, p)) ==> (x is Ok ==> pos < p < b.len()) && (x is Err ==> p
            == pos),
{
    lemma_find_from_props(b, 38, pos);
    if let Some(amp) = find_from(b, 38, pos) {
        lemma_find_from_props(b, 59, amp);
    }
}

/// The text `b` with its escapes from search position `pos` replaced, the plain text
/// being copied from `ended`.
///
/// Each escape is replaced from its `&` through its `;`; the plain text between escapes is
/// copied as it is.
pub open spec fn unescape_from(b: Seq<u8>, pos: int, ended: int) -> Result<Seq<char>, CharacterEntityDecodingError>
    decreases b.len() - pos,
{
    if !(0 <= pos <= b.len()) {
        Err(CharacterEntityDecodingError::DidNotTerminate)
    } else {
        match escape_step(b, pos) {
            None => Ok(decode_utf8(b.subrange(ended, b.len() as int))),
            Some((Err(e), _)) => Err(e),
            Some((Ok(esc), p)) => {
                proof { lemma_escape_step_advances(b, pos); }
                match unescape_from(b, p, esc.position + esc.length) {
                    Err(e) => Err(e),
                    Ok(rest) => Ok(
                        decode_utf8(b.subrange(ended, esc.position as int)) + seq![escape_char(esc.character)]
                            + rest,
                    ),
                }
            },
        }
    }
}

/// The text `b` with its escapes replaced.
pub open spec fn unescaped(b: Seq<u8>) -> Result<Seq<char>, CharacterEntityDecodingError> {
    unescape_from(b, 0, 0)
}

/// Every escape of `b` from `pos` on, up to the first failure, can be decoded without giving up.
pub open spec fn unescape_ok(b: Seq<u8>, pos: int) -> bool
    decreases b.len() - pos,
{
    if !(0 <= pos <= b.len()) {
        true
    } else {
        &&& escape_step_ok(b, pos)
        &&& match escape_step(b, pos) {
            Some((Ok(_), p)) => {
                proof { lemma_escape_step_advances(b, pos); }
                unescape_ok(b, p)
            },
            _ => true,
        }
    }
}

/// Text with no empty numeric escape `&#;` never gives up unescaping.
pub proof fn lemma_unescape_ok_without_empty_numeric(b: Seq<u8>, pos: int)
    requires
        forall|i: int| !crate::text::occurs_at(b, seq![38u8, 35, 59], i),
    ensures
        unescape_ok(b, pos),
    decreases b.len() - pos,
{
    if 0 <= pos <= b.len() {
        lemma_find_from_props(b, 38, pos);
        if let Some(amp) = find_from(b, 38, pos) {
            lemma_find_from_props(b, 59, amp);
            if let Some(semi) = find_from(b, 59, amp) {
                if semi - amp - 1 >= 1 && b[amp + 1] == 35 && semi - amp - 1 < 2 {
                    assert(b.subrange(amp, amp + 3) =~= seq![38u8, 35, 59]);
                    assert(crate::text::occurs_at(b, seq![38u8, 35, 59], amp));
                }
            }
        }
        lemma_escape_step_advances(b, pos);
        if let Some((Ok(_), p)) = escape_step(b, pos) {
            lemma_unescape_ok_without_empty_numeric(b, p);
        }
    }
}

/// The text of `value` with its escapes replaced; `None` where it holds an empty numeric
/// escape `&#;`, which cannot be read.
pub fn unescape_checked(value: &str) -> (r: Option<Result<String, CharacterEntityDecodingError>>)
    ensures
        r is None <==> exists|i: int| crate::text::occurs_at(bytes_of(value), seq![38u8, 35, 59], i),
        r matches Some(x) ==> match unescaped(bytes_of(value)) {
            Ok(t) => x matches Ok(s) && s@ == t,
            Err(e) => x == Err::<String, CharacterEntityDecodingError>(e),
        },
{
    let needle: [u8; 3] = [38, 35, 59];
    let found = crate::text::find_bytes_from(value.as_bytes(), needle.as_slice(), 0);
    proof {
        assert(needle@ =~= seq![38u8, 35, 59]);
        crate::text::lemma_find_seq_from_props(bytes_of(value), seq![38u8, 35, 59], 0);
    }
    match found {
        Some(_) => None,
        None => {
            proof { lemma_unescape_ok_without_empty_numeric(bytes_of(value), 0); }
            Some(unescape(value))
        },
    }
}

/// `out` followed by the text of `r`, or the failure of `r`.
pub open spec fn prepend(out: Seq<char>, r: Result<Seq<char>, CharacterEntityDecodingError>) -> Result<Seq<char>, CharacterEntityDecodingError> {
    match r {
        Ok(rest) => Ok(out + rest),
        Err(e) => Err(e),
    }
}

/// Replaces the escapes of `value` with the characters they stand for.
pub fn unescape(value: &str) -> (r: Result<String, CharacterEntityDecodingError>)
    requires
        unescape_ok(bytes_of(value), 0),
    ensures
        match unescaped(bytes_of(value)) {
            Ok(t) => r matches Ok(s) && s@ == t,
            Err(e) => r == Err::<String, CharacterEntityDecodingError>(e),
        },
{
    let ghost b = bytes_of(value);
    let n = value.as_bytes().len();
    let mut out = String::new();
    let mut ended: usize = 0;
    let mut it = EscapeIterator::new(value);
    loop
        invariant
            b == bytes_of(value),
            n == b.len(),
            it.text() == b,
            0 <= it.position() <= n,
            ended <= it.position() + 1,
            ended <= n,
            ended == 0 || b[ended - 1] == 59,
            it.position() < ended ==> b[it.position() as int] == 59,
            it.position() == 0 || b[it.position()] == 59,
            unescape_ok(b, it.position()),
            unescaped(b) == prepend(out@, unescape_from(b, it.position(), ended as int)),
        ensures
            unescaped(b) == Ok::<Seq<char>, CharacterEntityDecodingError>(
                out@ + decode_utf8(b.subrange(ended as int, n as int)),
            ),
        decreases n - it.position(),
    {
        let ghost pos = it.position();
        proof {
            lemma_escape_step_advances(b, pos);
            lemma_find_from_props(b, 38, pos);
        }
        match it.next() {
            None => {
                assert(unescape_from(b, pos, ended as int) == Ok::<Seq<char>, CharacterEntityDecodingError>(
                    decode_utf8(b.subrange(ended as int, n as int)),
                ));
                break;
            },
            Some(Err(e)) => {
                assert(unescape_from(b, pos, ended as int) == Err::<Seq<char>, CharacterEntityDecodingError>(e));
                assert(unescaped(b) == Err::<Seq<char>, CharacterEntityDecodingError>(e));
                return Err(e);
            },
            Some(Ok(esc)) => {
                let ghost amp = find_from(b, 38, pos).unwrap();
                assert(esc.position == amp);
                proof { lemma_find_from_props(b, 59, esc.position as int); }
                assert(b[esc.position as int] == 38);
                let plain = substr_ascii(value, ended, esc.position);
                proof { lemma_chars_of(plain); }
                let ghost before = out@;
                let ghost old_end = ended as int;
                out.append(plain);
                push_char(&mut out, esc.character.to_char());
                ended = esc.position + esc.length;
                proof {
                    let piece = decode_utf8(b.subrange(old_end, esc.position as int)) + seq![escape_char(esc.character)];
                    assert(out@ =~= before + piece);
                    assert(unescape_from(b, pos, old_end) == prepend(piece, unescape_from(b, it.position(), ended as int)));
                    match unescape_from(b, it.position(), ended as int) {
                        Ok(rest) => {
                            assert(before + (piece + rest) =~= out@ + rest);
                        },
                        Err(_) => {},
                    }
                }
            },
        }
    }
    let rest = substr_ascii(value, ended, n);
    proof { lemma_chars_of(rest); }
    let ghost before = out@;
    out.append(rest);
    assert(out@ == before + decode_utf8(b.subrange(ended as int, n as int)));
    Ok(out)
}


/// Character data with escapes, unescaped on first use and kept.
#[derive(Debug)]
pub struct XmlCharacterDataWithEscaping<'a> {
    raw: &'a str,
    unescaped: Option<Result<String, CharacterEntityDecodingError>>,
}

impl<'a> XmlCharacterDataWithEscaping<'a> {
    #[verifier::type_invariant]
    spec fn inv(self) -> bool {
        match self.unescaped {
            None => true,
            Some(Ok(s)) => unescaped(bytes_of(self.raw)) == Ok::<Seq<char>, CharacterEntityDecodingError>(s@),
            Some(Err(e)) => unescaped(bytes_of(self.raw)) == Err::<Seq<char>, CharacterEntityDecodingError>(e),
        }
    }

    /// The escaped text.
    pub closed spec fn raw_text(self) -> &'a str {
        self.raw
    }

    /// Whether the unescaped text has been computed and kept.
    pub closed spec fn cached(self) -> bool {
        self.unescaped is Some
    }

    /// Character data over the escaped text `escaped`.
    pub fn new(escaped: &'a str) -> (r: Self)
        ensures
            r.raw_text() == escaped,
            !r.cached(),
    {
        Self { raw: escaped, unescaped: None }
    }

    /// The unescaped text, computed on first use.
    pub fn get(&mut self) -> (r: Result<&str, &CharacterEntityDecodingError>)
        requires
            unescape_ok(bytes_of(old(self).raw_text()), 0),
        ensures
            final(self).raw_text() == old(self).raw_text(),
            final(self).cached(),
            match unescaped(bytes_of(old(self).raw_text())) {
                Ok(t) => r matches Ok(s) && s@ == t,
                Err(e) => r matches Err(x) && *x == e,
            },
    {
        proof { use_type_invariant(&*self); }
        if self.unescaped.is_none() {
            self.unescaped = Some(unescape(self.raw));
        }
        proof { use_type_invariant(&*self); }
        match &self.unescaped {
            Some(Ok(s)) => Ok(s.as_str()),
            Some(Err(e)) => Err(e),
            None => {
                assert(false);
                Err(&CharacterEntityDecodingError::DidNotTerminate)
            },
        }
    }

    /// The escaped text.
    pub fn get_unescaped(&self) -> (r: &'a str)
        ensures
            r == self.raw_text(),
    {
        self.raw
    }

    /// The unescaped text, owned.
    pub fn into_string(self) -> (r: Result<String, CharacterEntityDecodingError>)
        requires
            unescape_ok(bytes_of(self.raw_text()), 0),
        ensures
            match unescaped(bytes_of(self.raw_text())) {
                Ok(t) => r matches Ok(s) && s@ == t,
                Err(e) => r == Err::<String, CharacterEntityDecodingError>(e),
            },
    {
        proof { use_type_invariant(&self); }
        let raw = self.raw;
        match self.unescaped {
            Some(x) => x,
            None => unescape(raw),
        }
    }

    /// Whether the unescaped text has been computed and kept.
    pub fn did_unescape(&self) -> (r: bool)
        ensures
            r == self.cached(),
    {
        self.unescaped.is_some()
    }
}

/// Whether a character is XML whitespace.
pub open spec fn is_xml_whitespace(c: char) -> bool {
    c == ' ' || c == '\t' || c == '\r' || c == '\n'
}

/// Whether every character of `text` is XML whitespace.
fn all_xml_whitespace(text: &str) -> (r: bool)
    ensures
        r == forall|i: int| 0 <= i < text@.len() ==> is_xml_whitespace(#[trigger] text@[i]),
{
    let n = text.unicode_len();
    let mut i: usize = 0;
    while i < n
        invariant
            n == text@.len(),
            i <= n,
            forall|j: int| 0 <= j < i ==> is_xml_whitespace(#[trigger] text@[j]),
        decreases n - i,
    {
        let c = text.get_char(i);
        if !(c == ' ' || c == '\t' || c == '\r' || c == '\n') {
            return false;
        }
        i = i + 1;
    }
    true
}

/// Character data: plain text, or text with escapes.
#[derive(Debug)]
pub enum XmlCharacterData<'a> {
    /// Text without escapes.
    Plain(&'a str),
    /// Text with escapes.
    WithEntities(XmlCharacterDataWithEscaping<'a>),
}

/// The text the character data stands for.
pub open spec fn character_data_text<'a>(d: XmlCharacterData<'a>) -> Result<Seq<char>, CharacterEntityDecodingError> {
    match d {
        XmlCharacterData::Plain(t) => Ok(t@),
        XmlCharacterData::WithEntities(inner) => unescaped(bytes_of(inner.raw_text())),
    }
}

/// Reading the character data's text completes.
pub open spec fn character_data_ok<'a>(d: XmlCharacterData<'a>) -> bool {
    match d {
        XmlCharacterData::Plain(_) => true,
        XmlCharacterData::WithEntities(inner) => unescape_ok(bytes_of(inner.raw_text()), 0),
    }
}

/// The raw text of character data, as written in the document.
pub open spec fn character_data_raw<'a>(d: XmlCharacterData<'a>) -> &'a str {
    match d {
        XmlCharacterData::Plain(t) => t,
        XmlCharacterData::WithEntities(inner) => inner.raw_text(),
    }
}

impl<'a> XmlCharacterData<'a> {
    /// The text, with escapes replaced.
    pub fn get(&mut self) -> (r: Result<&str, &CharacterEntityDecodingError>)
        requires
            character_data_ok(*old(self)),
        ensures
            character_data_raw(*final(self)) == character_data_raw(*old(self)),
            (*final(self) is Plain) == (*old(self) is Plain),
            match character_data_text(*old(self)) {
                Ok(t) => r matches Ok(s) && s@ == t,
                Err(e) => r matches Err(x) && *x == e,
            },
    {
        match self {
            Self::Plain(text) => Ok(*text),
            Self::WithEntities(inner) => inner.get(),
        }
    }

    /// The text, with escapes replaced, borrowed when there were none.
    pub fn into_maybe_owned(self) -> (r: Result<MaybeOwnedString<'a>, CharacterEntityDecodingError>)
        requires
            character_data_ok(self),
        ensures
            match character_data_text(self) {
                Ok(t) => r matches Ok(s) && s@ == t && ((self is Plain) ==> (s is Borrowed)),
                Err(e) => r == Err::<MaybeOwnedString<'a>, CharacterEntityDecodingError>(e),
            },
    {
        match self {
            Self::Plain(text) => Ok(MaybeOwnedString::Borrowed(text)),
            Self::WithEntities(inner) => match inner.into_string() {
                Ok(s) => Ok(MaybeOwnedString::Owned(s)),
                Err(e) => Err(e),
            },
        }
    }

    /// Character data for `text`, with escapes when it holds a `&`.
    pub fn maybe_escaping(text: &'a str) -> (r: Self)
        ensures
            character_data_raw(r) == text,
            (r is Plain) <==> !bytes_of(text).contains(38u8),
            r matches XmlCharacterData::WithEntities(inner) ==> !inner.cached(),
            !bytes_of(text).contains(38u8) ==> r == XmlCharacterData::Plain(text) && character_data_text(r)
                == Ok::<Seq<char>, CharacterEntityDecodingError>(text@),
    {
        let b = text.as_bytes();
        proof { lemma_find_from_props(b@, 38, 0); }
        match find_byte_from(b, 38, 0) {
            Some(i) => {
                assert(b@[i as int] == 38);
                Self::WithEntities(XmlCharacterDataWithEscaping::new(text))
            },
            None => Self::Plain(text),
        }
    }

    /// Whether the text, with escapes replaced, is only whitespace.
    pub fn is_just_whitespace(&mut self) -> (r: Result<bool, &CharacterEntityDecodingError>)
        requires
            character_data_ok(*old(self)),
        ensures
            character_data_raw(*final(self)) == character_data_raw(*old(self)),
            match character_data_text(*old(self)) {
                Ok(t) => r == Ok::<bool, &CharacterEntityDecodingError>(
                    forall|i: int| 0 <= i < t.len() ==> is_xml_whitespace(#[trigger] t[i]),
                ),
                Err(e) => r matches Err(x) && *x == e,
            },
    {
        let text = match self.get() {
            Ok(t) => t,
            Err(e) => return Err(e),
        };
        Ok(all_xml_whitespace(text))
    }

    /// The text as written in the document.
    pub fn raw(&self) -> (r: &str)
        ensures
            r == character_data_raw(*self),
    {
        match self {
            Self::Plain(text) => text,
            Self::WithEntities(inner) => inner.get_unescaped(),
        }
    }
}

} // verus!
