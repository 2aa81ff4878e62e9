//! Opening tags such as `<tag attr="value">`, and what opens a section.
use vstd::prelude::*;
use crate::text::{ascii_bytes, bytes_of, starts_with, bytes_start_with, lemma_ascii_bytes};
use super::span::{Span, SpanSlicer};
use super::cdata::{XmlCharacterData, character_data_raw};
use super::block::{BlockKind, opener_of, lemma_block_lengths};

verus! {

/// Why an attribute could not be read.
#[derive(Debug, Clone, Copy, PartialEq, Eq, Structural)]
pub enum AttributeParseError {
    ExpectedValueAfterDelimiter,
    ExpectedDelimiterAfterKey,
}

/// Why an opening tag could not be read.
#[derive(Debug, PartialEq)]
pub enum SectionOpenerReadError<'a> {
    /// The tag that started here does not close.
    TagDidNotClose(Span<'a>),
    InvalidTagName,
    AttributeParseError(AttributeParseError),
}

/// The attributes of a tag: each key once, with its raw value.
#[derive(Debug)]
pub struct Attributes<'a>(Vec<(Span<'a>, XmlCharacterData<'a>)>);

/// The keys and raw values of attributes.
pub open spec fn attribute_pairs<'a>(v: Seq<(Span<'a>, XmlCharacterData<'a>)>) -> Seq<(Seq<u8>, Seq<u8>)> {
    v.map_values(|p: (Span<'a>, XmlCharacterData<'a>)| (p.0@, bytes_of(character_data_raw(p.1))))
}

/// Whether no key occurs twice.
pub open spec fn keys_distinct(a: Seq<(Seq<u8>, Seq<u8>)>) -> bool {
    forall|i: int, j: int| 0 <= i < j < a.len() ==> a[i].0 != a[j].0
}

/// Setting `key` to `value`: the value replaces that of an equal key, else the pair is added.
pub open spec fn attrs_insert(a: Seq<(Seq<u8>, Seq<u8>)>, key: Seq<u8>, value: Seq<u8>) -> Seq<(Seq<u8>, Seq<u8>)> {
    if exists|i: int| 0 <= i < a.len() && a[i].0 == key {
        let i = choose|i: int| 0 <= i < a.len() && a[i].0 == key;
        a.update(i, (key, value))
    } else {
        a.push((key, value))
    }
}

/// Setting an attribute keeps keys distinct.
pub proof fn law_insert_keeps_keys_distinct(a: Seq<(Seq<u8>, Seq<u8>)>, key: Seq<u8>, value: Seq<u8>)
    requires
        keys_distinct(a),
    ensures
        keys_distinct(attrs_insert(a, key, value)),
        exists|i: int| 0 <= i < attrs_insert(a, key, value).len() && #[trigger] attrs_insert(a, key, value)[i]
            == (key, value),
{
    let r = attrs_insert(a, key, value);
    if exists|i: int| 0 <= i < a.len() && a[i].0 == key {
        let i = choose|i: int| 0 <= i < a.len() && a[i].0 == key;
        assert(r[i] == (key, value));
    } else {
        assert(r[a.len() as int] == (key, value));
    }
}

impl<'a> View for Attributes<'a> {
    type V = Seq<(Seq<u8>, Seq<u8>)>;

    closed spec fn view(&self) -> Seq<(Seq<u8>, Seq<u8>)> {
        attribute_pairs(self.0@)
    }
}

impl<'a> Attributes<'a> {
    #[verifier::type_invariant]
    spec fn inv(self) -> bool {
        keys_distinct(attribute_pairs(self.0@))
    }

    /// No attributes.
    pub fn default() -> (r: Self)
        ensures
            r@ == Seq::<(Seq<u8>, Seq<u8>)>::empty(),
    {
        let r = Attributes(Vec::new());
        assert(r@ =~= Seq::<(Seq<u8>, Seq<u8>)>::empty());
        r
    }

    /// The number of attributes.
    pub fn len(&self) -> (r: usize)
        ensures
            r == self@.len(),
    {
        self.0.len()
    }

    /// Sets the attribute `key` to `value`.
    pub fn insert(&mut self, key: Span<'a>, value: XmlCharacterData<'a>)
        ensures
            final(self)@ == attrs_insert(old(self)@, key@, bytes_of(character_data_raw(value))),
    {
        proof { use_type_invariant(&*self); }
        let ghost a = self@;
        let ghost v = bytes_of(character_data_raw(value));
        let key_text = key.as_str();
        let mut items: Vec<(Span<'a>, XmlCharacterData<'a>)> = Vec::new();
        std::mem::swap(&mut items, &mut self.0);
        let n = items.len();
        let mut i: usize = 0;
        while i < n
            invariant
                n == items@.len(),
                i <= n,
                a == attribute_pairs(items@),
                a == old(self)@,
                keys_distinct(a),
                bytes_of(key_text) == key@,
                v == bytes_of(character_data_raw(value)),
                forall|j: int| 0 <= j < i ==> a[j].0 != key@,
            decreases n - i,
        {
            assert(a[i as int].0 == items@[i as int].0@);
            let old_key = items[i].0;
            let old_text = old_key.as_str();
            if crate::text::str_eq(old_text, key_text) {
                assert(old_key@ == key@);
                let ghost before = items@;
                items.set(i, (old_key, value));
                proof {
                    assert(items@ == before.update(i as int, (old_key, value)));
                    assert(a[i as int].0 == key@);
                    assert forall|j: int| 0 <= j < a.len() && a[j].0 == key@ implies j == i by {
                        if j != i {
                            if j < i {
                            } else {
                                assert(a[i as int].0 != a[j].0);
                            }
                        }
                    }
                    assert(attribute_pairs(items@) =~= a.update(i as int, (key@, v)));
                    assert(0 <= i < a.len() && a[i as int].0 == key@);
                    let c = choose|j: int| 0 <= j < a.len() && a[j].0 == key@;
                    assert(c == i);
                    assert(attrs_insert(a, key@, v) == a.update(i as int, (key@, v)));
                    assert(keys_distinct(attribute_pairs(items@)));
                }
                self.0 = items;
                return;
            }
            i = i + 1;
        }
        items.push((key, value));
        proof {
            assert(attribute_pairs(items@) =~= a.push((key@, v)));
            assert(keys_distinct(attribute_pairs(items@)));
        }
        self.0 = items;
    }

    /// Whether an attribute is named `key`.
    pub fn contains_key(&self, key: &str) -> (r: bool)
        ensures
            r == exists|i: int| 0 <= i < self@.len() && self@[i].0 == bytes_of(key),
    {
        let n = self.0.len();
        let mut i: usize = 0;
        while i < n
            invariant
                n == self.0@.len(),
                i <= n,
                forall|j: int| 0 <= j < i ==> self@[j].0 != bytes_of(key),
            decreases n - i,
        {
            assert(self@[i as int].0 == self.0@[i as int].0@);
            if crate::text::str_eq(self.0[i].0.as_str(), key) {
                return true;
            }
            i = i + 1;
        }
        false
    }

    /// The value of the attribute named `key`.
    pub fn get(&self, key: &str) -> (r: Option<&XmlCharacterData<'a>>)
        ensures
            r matches Some(v) ==> exists|i: int| 0 <= i < self@.len() && self@[i] == (bytes_of(key), bytes_of(character_data_raw(*v))),
            r is None ==> forall|i: int| 0 <= i < self@.len() ==> self@[i].0 != bytes_of(key),
    {
        let n = self.0.len();
        let mut i: usize = 0;
        while i < n
            invariant
                n == self.0@.len(),
                i <= n,
                forall|j: int| 0 <= j < i ==> self@[j].0 != bytes_of(key),
            decreases n - i,
        {
            assert(self@[i as int] == (self.0@[i as int].0@, bytes_of(character_data_raw(self.0@[i as int].1))));
            if crate::text::str_eq(self.0[i].0.as_str(), key) {
                return Some(&self.0[i].1);
            }
            i = i + 1;
        }
        None
    }
}

/// Whether a byte is XML whitespace.
pub open spec fn is_ws(c: u8) -> bool {
    c == 32 || c == 9 || c == 13 || c == 10
}

/// Where attribute reading stands: what is being read (0 nothing, 1 a key, 2 a value,
/// 3 the value after `=`), where it started, the key read, and the value's quote (0 none,
/// 1 single, 2 double).
#[derive(Clone, Copy)]
pub struct TagScan {
    pub parsing: u8,
    pub started: usize,
    pub key: Option<(usize, usize)>,
    pub quote: u8,
}

/// Whether a scan state is one that reading can reach.
pub open spec fn scan_ok(st: TagScan) -> bool {
    &&& st.parsing <= 3
    &&& st.quote <= 2
    &&& st.key is None ==> st.parsing <= 1
    &&& st.key is Some ==> st.parsing != 1
    &&& st.parsing == 2 ==> st.quote != 0
}

/// Reading the attributes of a tag from index `i` of `b`: the index after the tag's end and
/// the attributes, or why they could not be read (`None`: the tag does not close).
pub open spec fn tag_loop(
    b: Seq<u8>,
    is_xml: bool,
    i: int,
    st: TagScan,
    attrs: Seq<(Seq<u8>, Seq<u8>)>,
) -> Result<(int, Seq<(Seq<u8>, Seq<u8>)>), Option<AttributeParseError>>
    decreases b.len() - i,
{
    if i < 0 || i >= b.len() {
        Err(None)
    } else {
        let c = b[i];
        if st.key is None {
            if st.parsing == 0 && (!is_xml || c != 63) {
                if is_ws(c) {
                    tag_loop(b, is_xml, i + 1, st, attrs)
                } else if c == 62 {
                    Ok((i + 1, attrs))
                } else if c == 47 && i + 1 < b.len() && b[i + 1] == 62 {
                    Ok((i + 2, attrs))
                } else {
                    tag_loop(b, is_xml, i + 1, TagScan { parsing: 1, started: i as usize, ..st }, attrs)
                }
            } else if is_ws(c) || c == 61 {
                tag_loop(
                    b,
                    is_xml,
                    i + 1,
                    TagScan {
                        key: Some((st.started, i as usize)),
                        parsing: if c == 61 { 3 } else { 0 },
                        ..st
                    },
                    attrs,
                )
            } else if c == 62 {
                Err(Some(AttributeParseError::ExpectedDelimiterAfterKey))
            } else {
                tag_loop(b, is_xml, i + 1, st, attrs)
            }
        } else if st.parsing != 1 && st.parsing != 2 {
            if is_ws(c) {
                tag_loop(b, is_xml, i + 1, st, attrs)
            } else if c == 61 && st.parsing == 0 {
                tag_loop(b, is_xml, i + 1, TagScan { parsing: 3, ..st }, attrs)
            } else if (c == 39 || c == 34) && st.parsing == 3 {
                tag_loop(
                    b,
                    is_xml,
                    i + 1,
                    TagScan { quote: if c == 39 { 1 } else { 2 }, parsing: 2, started: i as usize, ..st },
                    attrs,
                )
            } else if st.parsing == 3 {
                Err(Some(AttributeParseError::ExpectedValueAfterDelimiter))
            } else {
                Err(Some(AttributeParseError::ExpectedDelimiterAfterKey))
            }
        } else if (st.quote == 2 && c == 34) || (st.quote == 1 && c == 39) {
            let (ks, ke) = st.key.unwrap();
            tag_loop(
                b,
                is_xml,
                i + 1,
                TagScan { key: None, parsing: 0, ..st },
                attrs_insert(attrs, b.subrange(ks as int, ke as int), b.subrange(st.started + 1, i)),
            )
        } else {
            tag_loop(b, is_xml, i + 1, st, attrs)
        }
    }
}


/// Whether a byte ends a tag's name.
pub open spec fn ends_name(c: u8) -> bool {
    c == 47 || c == 62 || is_ws(c)
}

/// The index of the first byte that ends a tag's name.
pub open spec fn name_end(b: Seq<u8>) -> Option<int> {
    name_end_from(b, 0)
}

/// The index of the first byte at or after `i` that ends a tag's name.
pub open spec fn name_end_from(b: Seq<u8>, i: int) -> Option<int>
    decreases b.len() - i,
{
    if i < 0 || i >= b.len() {
        None
    } else if ends_name(b[i]) {
        Some(i)
    } else {
        name_end_from(b, i + 1)
    }
}

proof fn lemma_name_end_from(b: Seq<u8>, i: int)
    requires
        0 <= i,
    ensures
        name_end_from(b, i) matches Some(k) ==> i <= k < b.len() && ends_name(b[k]) && forall|j: int|
            i <= j < k ==> !ends_name(b[j]),
        name_end_from(b, i) is None ==> forall|j: int| i <= j < b.len() ==> !ends_name(b[j]),
    decreases b.len() - i,
{
    if 0 <= i < b.len() && !ends_name(b[i]) {
        lemma_name_end_from(b, i + 1);
    }
}

/// An opening tag: `<`, a name, attributes, and `>` or `/>`.
#[derive(Debug)]
pub struct OpeningTagSpan<'a> {
    pub span: Span<'a>,
    pub attributes: Attributes<'a>,
    /// The length of the tag's name, in bytes.
    pub name_length: usize,
}

impl<'a> OpeningTagSpan<'a> {
    /// The length of the tag's name.
    pub open spec fn name_len(&self) -> nat {
        self.name_length as nat
    }

    /// Whether the tag's text has its name right after the `<`, followed by an ASCII byte.
    pub open spec fn wf(&self) -> bool {
        &&& self.name_len() + 2 <= self.span@.len()
        &&& self.span@[0] == 60
        &&& self.span@[self.name_len() + 1int] < 128
    }

    /// The length of the tag's name.
    pub fn name_length(&self) -> (r: usize)
        ensures
            r == self.name_len(),
    {
        self.name_length
    }

    /// The tag's name.
    pub fn get_name_span(&self) -> (r: Span<'a>)
        requires
            self.wf(),
        ensures
            r@ == self.span@.subrange(1, self.name_len() + 1int),
            r.start() == self.span.start() + 1,
            r.root_text() == self.span.root_text(),
    {
        let text = self.span.as_str();
        proof {
            crate::text::lemma_after_ascii_boundary(text, 1);
            crate::text::lemma_ascii_boundary(text, self.name_len() + 1int);
        }
        self.span.slice(1, self.name_length)
    }

    /// Whether the tag closes itself (`/>`).
    pub fn is_self_closing(&self) -> (r: bool)
        requires
            self.span@.len() >= 2,
        ensures
            r == (self.span@[self.span@.len() - 2] == 47),
    {
        let b = self.span.as_str().as_bytes();
        b[b.len() - 2] == 47
    }
}

/// What opens a section.
#[derive(Debug)]
pub enum SectionOpener<'a> {
    Tag(OpeningTagSpan<'a>),
    /// The `<![CDATA[` of character data.
    CharacterData(Span<'a>),
    /// The `<!--` of a comment.
    Comment(Span<'a>),
}

/// The attribute reading state before any attribute.
pub open spec fn scan_start() -> TagScan {
    TagScan { parsing: 0, started: 0, key: None, quote: 0 }
}

/// What reading an opening tag from the bytes `b` of `input` gives.
pub open spec fn opener_read<'a>(input: Span<'a>, r: Result<Option<SectionOpener<'a>>, SectionOpenerReadError<'a>>) -> bool {
    let b = input@;
    if b.len() == 0 || b[0] != 60 {
        r matches Ok(None)
    } else if starts_with(b, opener_of(BlockKind::Comment)) {
        r matches Ok(Some(SectionOpener::Comment(s))) && s@ == opener_of(BlockKind::Comment) && s.start()
            == input.start() && s.root_text() == input.root_text()
    } else if starts_with(b, opener_of(BlockKind::CharacterData)) {
        r matches Ok(Some(SectionOpener::CharacterData(s))) && s@ == opener_of(BlockKind::CharacterData)
            && s.start() == input.start() && s.root_text() == input.root_text()
    } else {
        match name_end(b) {
            None => r == Err::<Option<SectionOpener<'a>>, SectionOpenerReadError<'a>>(
                SectionOpenerReadError::TagDidNotClose(input),
            ),
            Some(ne) => {
                let result = if b[ne] == 62 {
                    Ok((ne + 1, Seq::<(Seq<u8>, Seq<u8>)>::empty()))
                } else {
                    tag_loop(b, b.subrange(1, ne) == ascii_bytes("xml"@), ne + 1, scan_start(), Seq::empty())
                };
                match result {
                    Err(None) => r == Err::<Option<SectionOpener<'a>>, SectionOpenerReadError<'a>>(
                        SectionOpenerReadError::TagDidNotClose(input),
                    ),
                    Err(Some(e)) => r == Err::<Option<SectionOpener<'a>>, SectionOpenerReadError<'a>>(
                        SectionOpenerReadError::AttributeParseError(e),
                    ),
                    Ok((end, attrs)) => {
                        &&& r matches Ok(Some(SectionOpener::Tag(t)))
                        &&& t.span@ == b.subrange(0, end)
                        &&& t.span.start() == input.start()
                        &&& t.span.root_text() == input.root_text()
                        &&& t.name_len() == ne - 1
                        &&& t.attributes@ == attrs
                        &&& t.wf()
                        &&& 0 < end <= b.len()
                        &&& b[end - 1] == 62
                    },
                }
            },
        }
    }
}

/// The invariant of the attribute reading loop at index `i` of `b`.
pub open spec fn scan_inv(b: Seq<u8>, i: int, st: TagScan) -> bool {
    &&& scan_ok(st)
    &&& 1 <= i <= b.len()
    &&& (st.key is None && st.parsing == 0 ==> b[i - 1] < 128)
    &&& (st.parsing == 1 ==> 1 <= st.started < i && b[st.started - 1] < 128)
    &&& (st.parsing == 2 ==> st.started < i && b[st.started as int] < 128)
    &&& (st.key matches Some((ks, ke)) ==> 1 <= ks <= ke < i && b[ks - 1] < 128 && b[ke as int] < 128)
}

impl<'a> SectionOpener<'a> {
    /// The text of what opens the section.
    pub fn span(&self) -> (r: &Span<'a>)
        ensures
            r == (match self {
                SectionOpener::Tag(t) => &t.span,
                SectionOpener::CharacterData(s) => s,
                SectionOpener::Comment(s) => s,
            }),
    {
        match self {
            Self::Tag(tag) => &tag.span,
            Self::Comment(span) | Self::CharacterData(span) => span,
        }
    }

    /// Reads what opens a section at the start of `input`: a comment or character data
    /// opener, or an opening tag with its attributes. `Ok(None)` when `input` does not start
    /// with `<`.
    pub fn parse(input: &Span<'a>) -> (r: Result<Option<SectionOpener<'a>>, SectionOpenerReadError<'a>>)
        ensures
            opener_read(*input, r),
    {
        let text = input.as_str();
        let b = text.as_bytes();
        let n = b.len();
        proof {
            crate::text::lemma_valid(text);
            lemma_block_lengths(BlockKind::Comment);
            lemma_block_lengths(BlockKind::CharacterData);
        }
        if n == 0 || b[0] != 60 {
            return Ok(None);
        }
        if bytes_start_with(b, BlockKind::Comment.opener().as_bytes()) {
            proof {
                assert(b@.subrange(0, 4)[3] == b@[3]);
                assert(opener_of(BlockKind::Comment)[3] < 128);
                crate::text::lemma_after_ascii_boundary(text, 4);
            }
            let span = input.slice(0, 4);
            return Ok(Some(SectionOpener::Comment(span)));
        }
        if bytes_start_with(b, BlockKind::CharacterData.opener().as_bytes()) {
            proof {
                assert(b@.subrange(0, 9)[8] == b@[8]);
                assert(opener_of(BlockKind::CharacterData)[8] < 128);
                crate::text::lemma_after_ascii_boundary(text, 9);
            }
            let span = input.slice(0, 9);
            return Ok(Some(SectionOpener::CharacterData(span)));
        }
        proof { lemma_name_end_from(b@, 0); }
        let mut ne: usize = 1;
        while ne < n && !(b[ne] == 47 || b[ne] == 62 || b[ne] == 32 || b[ne] == 9 || b[ne] == 13 || b[ne] == 10)
            invariant
                1 <= ne <= n,
                n == b@.len(),
                b@[0] == 60,
                name_end(b@) == name_end_from(b@, ne as int),
            decreases n - ne,
        {
            ne = ne + 1;
        }
        if ne == n {
            return Err(SectionOpenerReadError::TagDidNotClose(*input));
        }
        proof {
            crate::text::lemma_after_ascii_boundary(text, 1);
            crate::text::lemma_ascii_boundary(text, ne as int);
        }
        let name = input.slice(1, ne - 1);
        let xml = "xml";
        proof {
            reveal_strlit("xml");
            lemma_ascii_bytes(xml);
        }
        let is_xml = crate::text::str_eq(name.as_str(), xml);
        let mut index = ne + 1;
        let mut attributes = Attributes::default();
        if b[ne] != 62 {
            let mut st = TagScan { parsing: 0, started: 0, key: None, quote: 0 };
            let ghost whole = tag_loop(b@, is_xml, ne + 1, scan_start(), Seq::empty());
            loop
                invariant_except_break
                    scan_inv(b@, index as int, st),
                    whole == tag_loop(b@, is_xml, index as int, st, attributes@),
                invariant
                    n == b@.len(),
                    b@ == input@,
                    bytes_of(text) == input@,
                    vstd::utf8::valid_utf8(b@),
                    b@[0] == 60,
                    !starts_with(b@, opener_of(BlockKind::Comment)),
                    !starts_with(b@, opener_of(BlockKind::CharacterData)),
                    name_end(b@) == Some(ne as int),
                    b@[ne as int] != 62,
                    is_xml == (b@.subrange(1, ne as int) == ascii_bytes("xml"@)),
                    whole == tag_loop(b@, is_xml, ne + 1, scan_start(), Seq::empty()),
                ensures
                    whole == Ok::<(int, Seq<(Seq<u8>, Seq<u8>)>), Option<AttributeParseError>>((index as int, attributes@)),
                    1 <= index <= n,
                    b@[index - 1] == 62,
                decreases n - index,
            {
                if index >= n {
                    return Err(SectionOpenerReadError::TagDidNotClose(*input));
                }
                let c = b[index];
                let ws = c == 32 || c == 9 || c == 13 || c == 10;
                if st.key.is_none() {
                    if st.parsing == 0 && (!is_xml || c != 63) {
                        if ws {
                            index = index + 1;
                            continue;
                        }
                        if c == 62 {
                            index = index + 1;
                            break;
                        }
                        if c == 47 && index + 1 < n && b[index + 1] == 62 {
                            index = index + 2;
                            break;
                        }
                        st = TagScan { parsing: 1, started: index, ..st };
                    } else {
                        if ws || c == 61 {
                            st = TagScan { key: Some((st.started, index)), parsing: if c == 61 { 3 } else { 0 }, ..st };
                        } else if c == 62 {
                            return Err(SectionOpenerReadError::AttributeParseError(AttributeParseError::ExpectedDelimiterAfterKey));
                        }
                    }
                } else if st.parsing != 1 && st.parsing != 2 {
                    if ws {
                    } else if c == 61 && st.parsing == 0 {
                        st = TagScan { parsing: 3, ..st };
                    } else if (c == 39 || c == 34) && st.parsing == 3 {
                        st = TagScan { quote: if c == 39 { 1 } else { 2 }, parsing: 2, started: index, ..st };
                    } else if st.parsing == 3 {
                        return Err(SectionOpenerReadError::AttributeParseError(AttributeParseError::ExpectedValueAfterDelimiter));
                    } else {
                        return Err(SectionOpenerReadError::AttributeParseError(AttributeParseError::ExpectedDelimiterAfterKey));
                    }
                } else if (st.quote == 2 && c == 34) || (st.quote == 1 && c == 39) {
                    let (ks, ke) = match st.key {
                        Some(k) => k,
                        None => (0, 0),
                    };
                    proof {
                        crate::text::lemma_after_ascii_boundary(text, ks as int);
                        crate::text::lemma_ascii_boundary(text, ke as int);
                        crate::text::lemma_after_ascii_boundary(text, st.started + 1);
                        crate::text::lemma_ascii_boundary(text, index as int);
                    }
                    let key = input.slice(ks, ke - ks);
                    let value = input.slice(st.started + 1, index - st.started - 1);
                    let data = XmlCharacterData::maybe_escaping(value.as_str());
                    attributes.insert(key, data);
                    st = TagScan { key: None, parsing: 0, ..st };
                }
                index = index + 1;
            }
        }
        proof { crate::text::lemma_after_ascii_boundary(text, index as int); }
        let span = input.slice(0, index);
        Ok(Some(SectionOpener::Tag(OpeningTagSpan { span, attributes, name_length: ne - 1 })))
    }
}

} // verus!
