//! Property lists in their XML form, as the library file embeds them: read into a tree of
//! values.
use vstd::prelude::*;
use crate::text::{bytes_of, starts_with};
use crate::xml::arena::{NodeIndex, VecNodeArena};
use crate::xml::cdata::{character_data_raw, character_data_text, unescape_checked, CharacterEntityDecodingError, XmlCharacterData};
use crate::xml::node::{
    arena_ok, check_closers_close, check_openers_not_doubled, closers_close, openers_not_doubled, Element, Node,
    NodeParseError, XmlTree, read_node, tree_of, trees_at, element_tree,
};
use crate::xml::span::Span;

verus! {

/// The header every embedded property list starts with.
pub const PRELUDE: &'static str = "<?xml version=\"1.0\" encoding=\"UTF-8\"?>\n<!DOCTYPE plist PUBLIC \"-//Apple//DTD PLIST 1.0//EN\" \"http://www.apple.com/DTDs/PropertyList-1.0.dtd\">\n";

/// A property-list value.
#[derive(Debug)]
pub enum Value {
    Bool(bool),
    String(String),
    Array(Vec<Value>),
    Dict(Vec<(String, Value)>),
}

/// Why a property list could not be read.
#[derive(Debug)]
pub enum Error<'a> {
    /// The text did not start with the property-list header.
    MissingPrelude,
    /// The text holds a closing tag that never ends, or a block opener right after another.
    Malformed,
    /// An element of a kind property lists do not have.
    UnknownTag(&'a str),
    /// A `true` or `false` element had contents.
    ExpectedEmpty(&'a str),
    /// A dictionary entry did not start with a key.
    ExpectedKey,
    /// A dictionary key had no value after it.
    ExpectedValue,
    /// An element that holds text held something else.
    ExpectedText,
    /// Where an element was expected, there was text or a comment.
    ExpectedElement,
    /// An element that holds one thing held none, or more.
    ExpectedOnlyOneChild,
    /// An array or dictionary had no contents at all.
    EmptyContainer,
    /// A `data` element, which is not read.
    UnsupportedData,
    /// The XML could not be read.
    ParseError(NodeParseError<'a>),
    /// An escape could not be decoded.
    CharacterReferenceDecodingError(CharacterEntityDecodingError),
    /// An escape `&#;` without a number.
    EmptyNumericEscape,
}

/// A property-list value as mathematics: text is its characters.
pub enum PlistValue {
    Bool(bool),
    Text(Seq<char>),
    Array(Seq<PlistValue>),
    Dict(Seq<(Seq<char>, PlistValue)>),
}

/// Why a property list could not be read, as mathematics: tag names are their bytes, and a
/// failure of the XML reader is not told apart further.
pub enum PlistError {
    MissingPrelude,
    Malformed,
    UnknownTag(Seq<u8>),
    ExpectedEmpty(Seq<u8>),
    ExpectedKey,
    ExpectedValue,
    ExpectedText,
    ExpectedElement,
    ExpectedOnlyOneChild,
    EmptyContainer,
    UnsupportedData,
    ParseError,
    CharacterReferenceDecodingError(CharacterEntityDecodingError),
    EmptyNumericEscape,
}

/// The mathematical value of `v`.
pub open spec fn value_view(v: Value) -> PlistValue
    decreases v,
{
    match v {
        Value::Bool(b) => PlistValue::Bool(b),
        Value::String(s) => PlistValue::Text(s@),
        Value::Array(items) => PlistValue::Array(Seq::new(items@.len(), |i: int|
            if 0 <= i < items@.len() { value_view(items@[i]) } else { PlistValue::Bool(false) })),
        Value::Dict(entries) => PlistValue::Dict(Seq::new(entries@.len(), |i: int|
            if 0 <= i < entries@.len() { (entries@[i].0@, value_view(entries@[i].1)) } else { (Seq::empty(), PlistValue::Bool(false)) })),
    }
}

/// The mathematical form of a failure.
pub open spec fn error_view<'a>(e: Error<'a>) -> PlistError {
    match e {
        Error::MissingPrelude => PlistError::MissingPrelude,
        Error::Malformed => PlistError::Malformed,
        Error::UnknownTag(t) => PlistError::UnknownTag(bytes_of(t)),
        Error::ExpectedEmpty(t) => PlistError::ExpectedEmpty(bytes_of(t)),
        Error::ExpectedKey => PlistError::ExpectedKey,
        Error::ExpectedValue => PlistError::ExpectedValue,
        Error::ExpectedText => PlistError::ExpectedText,
        Error::ExpectedElement => PlistError::ExpectedElement,
        Error::ExpectedOnlyOneChild => PlistError::ExpectedOnlyOneChild,
        Error::EmptyContainer => PlistError::EmptyContainer,
        Error::UnsupportedData => PlistError::UnsupportedData,
        Error::ParseError(_) => PlistError::ParseError,
        Error::CharacterReferenceDecodingError(c) => PlistError::CharacterReferenceDecodingError(c),
        Error::EmptyNumericEscape => PlistError::EmptyNumericEscape,
    }
}

/// The mathematical form of a reading's outcome.
pub open spec fn result_view<'a>(r: Result<Value, Error<'a>>) -> Result<PlistValue, PlistError> {
    match r {
        Ok(v) => Ok(value_view(v)),
        Err(e) => Err(error_view(e)),
    }
}

/// The text of character data: its escapes replaced; an empty numeric escape `&#;` is
/// refused before any other.
pub open spec fn text_outcome<'a>(d: XmlCharacterData<'a>) -> Result<Seq<char>, PlistError> {
    match d {
        XmlCharacterData::Plain(t) => Ok(t@),
        XmlCharacterData::WithEntities(inner) => if exists|i: int| crate::text::occurs_at(bytes_of(inner.raw_text()), seq![38u8, 35, 59], i) {
            Err(PlistError::EmptyNumericEscape)
        } else {
            match crate::xml::cdata::unescaped(bytes_of(inner.raw_text())) {
                Ok(t) => Ok(t),
                Err(e) => Err(PlistError::CharacterReferenceDecodingError(e)),
            }
        },
    }
}

/// The mathematical values of `items`, in order.
pub open spec fn values_view(items: Seq<Value>) -> Seq<PlistValue> {
    Seq::new(items.len(), |i: int| value_view(items[i]))
}

/// The mathematical entries of `entries`, in order.
pub open spec fn entries_view(entries: Seq<(String, Value)>) -> Seq<(Seq<char>, PlistValue)> {
    Seq::new(entries.len(), |i: int| (entries[i].0@, value_view(entries[i].1)))
}

/// `done` followed by what `rest` gives, or the failure of `rest`.
pub open spec fn after<T>(done: Seq<T>, rest: Result<Seq<T>, PlistError>) -> Result<Seq<T>, PlistError> {
    match rest {
        Ok(more) => Ok(done + more),
        Err(e) => Err(e),
    }
}

/// The value of the node at `index` of the arena `a`: text gives its text; `plist` the
/// value of its one significant child, which must be an element; `true` and `false`,
/// self-closing, give booleans; `data` is not read; the text tags give the text of their one
/// significant child; `array` the values of its significant children in order, each an
/// element; `dict` its significant children in pairs, a `key` element then a value element
/// that is not a `key`. Comments, blank text and empty containers are refused as the
/// reader refuses them.
pub open spec fn node_value<'a>(a: Seq<Option<Node<'a>>>, index: int) -> Result<PlistValue, PlistError>
    decreases index, 1int, 0int,
{
    if !(0 <= index < a.len()) || a[index] is None {
        Err(PlistError::ExpectedElement)
    } else {
        match a[index]->Some_0 {
            Node::Comment(_) => Err(PlistError::ExpectedElement),
            Node::Text(d, _) => match text_outcome(d) {
                Ok(t) => Ok(PlistValue::Text(t)),
                Err(e) => Err(e),
            },
            Node::Element(e) => {
                let name = element_name(e);
                let contents = significant_among(a, e.children@);
                if name == plist_tag() {
                    if contents.len() != 1 {
                        Err(PlistError::ExpectedOnlyOneChild)
                    } else if 0 <= contents[0].0 < index && a[contents[0].0 as int] matches Some(Node::Element(_)) {
                        node_value(a, contents[0].0 as int)
                    } else {
                        Err(PlistError::ExpectedElement)
                    }
                } else if name == true_tag() || name == false_tag() {
                    if e.closer is Some {
                        Err(PlistError::ExpectedEmpty(name))
                    } else {
                        Ok(PlistValue::Bool(name == true_tag()))
                    }
                } else if name == data_tag() {
                    Err(PlistError::UnsupportedData)
                } else if is_text_tag(name) {
                    if contents.len() != 1 {
                        Err(PlistError::ExpectedOnlyOneChild)
                    } else {
                        match a[contents[0].0 as int] {
                            Some(Node::Text(d, _)) => match text_outcome(d) {
                                Ok(t) => Ok(PlistValue::Text(t)),
                                Err(e) => Err(e),
                            },
                            _ => Err(PlistError::ExpectedText),
                        }
                    }
                } else if name == array_tag() {
                    if e.children@.len() == 0 {
                        Err(PlistError::EmptyContainer)
                    } else {
                        match array_items(a, contents, 0, index) {
                            Ok(items) => Ok(PlistValue::Array(items)),
                            Err(x) => Err(x),
                        }
                    }
                } else if name == dict_tag() {
                    if e.children@.len() == 0 {
                        Err(PlistError::EmptyContainer)
                    } else {
                        match dict_entries(a, contents, 0, index) {
                            Ok(entries) => Ok(PlistValue::Dict(entries)),
                            Err(x) => Err(x),
                        }
                    }
                } else {
                    Err(PlistError::UnknownTag(name))
                }
            },
        }
    }
}

/// The values of the array contents `cs` from the `k`th on, each an element below `index`.
pub open spec fn array_items<'a>(a: Seq<Option<Node<'a>>>, cs: Seq<NodeIndex>, k: int, index: int) -> Result<Seq<PlistValue>, PlistError>
    decreases index, 0int, cs.len() - k,
{
    if k < 0 || k >= cs.len() {
        Ok(Seq::empty())
    } else if 0 <= cs[k].0 < index && cs[k].0 < a.len() && a[cs[k].0 as int] matches Some(Node::Element(_)) {
        match node_value(a, cs[k].0 as int) {
            Err(e) => Err(e),
            Ok(v) => match array_items(a, cs, k + 1, index) {
                Ok(more) => Ok(seq![v] + more),
                Err(e) => Err(e),
            },
        }
    } else {
        Err(PlistError::ExpectedElement)
    }
}

/// The entries of the dictionary contents `cs` from the `k`th on: a `key` element whose
/// text is the name, then a value element that is not a `key`.
pub open spec fn dict_entries<'a>(a: Seq<Option<Node<'a>>>, cs: Seq<NodeIndex>, k: int, index: int) -> Result<Seq<(Seq<char>, PlistValue)>, PlistError>
    decreases index, 0int, cs.len() - k,
{
    if k < 0 || k >= cs.len() {
        Ok(Seq::empty())
    } else if !(0 <= cs[k].0 < index && cs[k].0 < a.len()) {
        Err(PlistError::ExpectedValue)
    } else {
        match a[cs[k].0 as int] {
            Some(Node::Element(ke)) => if element_name(ke) != key_tag() {
                Err(PlistError::ExpectedKey)
            } else {
                match node_value(a, cs[k].0 as int) {
                    Err(e) => Err(e),
                    Ok(PlistValue::Text(name)) => if k + 1 >= cs.len() {
                        Err(PlistError::ExpectedValue)
                    } else if !(0 <= cs[k + 1].0 < index && cs[k + 1].0 < a.len()) {
                        Err(PlistError::ExpectedValue)
                    } else {
                        match a[cs[k + 1].0 as int] {
                            Some(Node::Element(ve)) => if element_name(ve) == key_tag() {
                                Err(PlistError::ExpectedValue)
                            } else {
                                match node_value(a, cs[k + 1].0 as int) {
                                    Err(e) => Err(e),
                                    Ok(v) => match dict_entries(a, cs, k + 2, index) {
                                        Ok(more) => Ok(seq![(name, v)] + more),
                                        Err(e) => Err(e),
                                    },
                                }
                            },
                            _ => Err(PlistError::ExpectedValue),
                        }
                    },
                    Ok(_) => Err(PlistError::ExpectedText),
                }
            },
            _ => Err(PlistError::ExpectedValue),
        }
    }
}

/// Whether a byte is XML whitespace.
pub open spec fn is_blank_byte(b: u8) -> bool {
    b == 32 || b == 9 || b == 13 || b == 10
}

/// Whether the bytes are all XML whitespace.
pub open spec fn all_blank(b: Seq<u8>) -> bool {
    forall|i: int| 0 <= i < b.len() ==> is_blank_byte(#[trigger] b[i])
}

/// Whether text is empty or only whitespace.
fn is_blank(s: &str) -> (r: bool)
    ensures
        r == forall|i: int| 0 <= i < bytes_of(s).len() ==> is_blank_byte(#[trigger] bytes_of(s)[i]),
{
    let b = s.as_bytes();
    let mut i: usize = 0;
    while i < b.len()
        invariant
            b@ == bytes_of(s),
            i <= b@.len(),
            forall|j: int| 0 <= j < i ==> is_blank_byte(#[trigger] b@[j]),
        decreases b@.len() - i,
    {
        if !(b[i] == 32 || b[i] == 9 || b[i] == 13 || b[i] == 10) {
            return false;
        }
        i = i + 1;
    }
    true
}

/// The text of character data, with its escapes replaced.
fn text_of<'a>(d: &XmlCharacterData<'a>) -> (r: Result<String, Error<'a>>)
    ensures
        *d is Plain ==> r is Ok,
        r matches Ok(s) ==> character_data_text(*d) == Ok::<Seq<char>, CharacterEntityDecodingError>(s@),
        match text_outcome(*d) {
            Ok(t) => r matches Ok(s) && s@ == t,
            Err(e) => r matches Err(x) && error_view(x) == e,
        },
{
    match d {
        XmlCharacterData::Plain(t) => Ok(String::from_str(t)),
        XmlCharacterData::WithEntities(_) => match unescape_checked(d.raw()) {
            None => Err(Error::EmptyNumericEscape),
            Some(Ok(s)) => Ok(s),
            Some(Err(e)) => Err(Error::CharacterReferenceDecodingError(e)),
        },
    }
}

/// Whether a node counts as contents: anything but a comment or blank text.
pub open spec fn node_significant<'a>(n: Node<'a>) -> bool {
    match n {
        Node::Comment(_) => false,
        Node::Text(d, _) => !all_blank(bytes_of(character_data_raw(d))),
        Node::Element(_) => true,
    }
}

/// The indices among `cs` whose nodes in `arena` count as contents, in order.
pub open spec fn significant_among<'a>(arena: Seq<Option<Node<'a>>>, cs: Seq<NodeIndex>) -> Seq<NodeIndex>
    decreases cs.len(),
{
    if cs.len() == 0 {
        Seq::empty()
    } else {
        let before = significant_among(arena, cs.drop_last());
        if node_significant(arena[cs.last().0 as int]->Some_0) {
            before.push(cs.last())
        } else {
            before
        }
    }
}

/// Whether the node at `c` counts as contents: anything but comments and blank text.
fn significant<'a>(arena: &VecNodeArena<'a>, c: &NodeIndex) -> (r: bool)
    requires
        c.0 < arena@.len(),
        arena@[c.0 as int] is Some,
    ensures
        r == node_significant(arena@[c.0 as int]->Some_0),
{
    match arena.get(c) {
        Node::Comment(_) => false,
        Node::Text(d, _) => !is_blank(d.raw()),
        Node::Element(_) => true,
    }
}

/// The indices of the contents among `children`.
fn significant_children<'a>(arena: &VecNodeArena<'a>, children: &Vec<NodeIndex>, below: usize) -> (r: Vec<NodeIndex>)
    requires
        forall|k: int| 0 <= k < children@.len() ==> (#[trigger] children@[k]).0 < below && below <= arena@.len() && arena@[children@[k].0 as int] is Some,
    ensures
        forall|k: int| 0 <= k < r@.len() ==> (#[trigger] r@[k]).0 < below && arena@[r@[k].0 as int] is Some,
        r@.len() <= children@.len(),
        r@ == significant_among(arena@, children@),
{
    let mut out: Vec<NodeIndex> = Vec::new();
    let mut i: usize = 0;
    while i < children.len()
        invariant
            i <= children@.len(),
            out@.len() <= i,
            forall|k: int| 0 <= k < children@.len() ==> (#[trigger] children@[k]).0 < below && below <= arena@.len() && arena@[children@[k].0 as int] is Some,
            forall|k: int| 0 <= k < out@.len() ==> (#[trigger] out@[k]).0 < below && arena@[out@[k].0 as int] is Some,
            out@ == significant_among(arena@, children@.take(i as int)),
        decreases children@.len() - i,
    {
        let c = children[i];
        assert(children@.take(i + 1).drop_last() =~= children@.take(i as int));
        if significant(arena, &c) {
            out.push(c);
        }
        i = i + 1;
    }
    assert(children@.take(i as int) =~= children@);
    out
}

/// Whether `name` is the tag name `lit`.
fn is_tag(name: &str, lit: &[u8]) -> (r: bool)
    ensures
        r == (bytes_of(name) == lit@),
{
    let b = name.as_bytes();
    if b.len() != lit.len() {
        return false;
    }
    let mut i: usize = 0;
    while i < b.len()
        invariant
            b@ == bytes_of(name),
            b@.len() == lit@.len(),
            i <= b@.len(),
            forall|j: int| 0 <= j < i ==> b@[j] == lit@[j],
        decreases b@.len() - i,
    {
        if b[i] != lit[i] {
            return false;
        }
        i = i + 1;
    }
    assert(b@ =~= lit@);
    true
}

/// `plist`
pub open spec fn plist_tag() -> Seq<u8> { seq![112u8, 108, 105, 115, 116] }
/// `true`
pub open spec fn true_tag() -> Seq<u8> { seq![116u8, 114, 117, 101] }
/// `false`
pub open spec fn false_tag() -> Seq<u8> { seq![102u8, 97, 108, 115, 101] }
/// `data`
pub open spec fn data_tag() -> Seq<u8> { seq![100u8, 97, 116, 97] }
/// `key`
pub open spec fn key_tag() -> Seq<u8> { seq![107u8, 101, 121] }
/// `array`
pub open spec fn array_tag() -> Seq<u8> { seq![97u8, 114, 114, 97, 121] }
/// `dict`
pub open spec fn dict_tag() -> Seq<u8> { seq![100u8, 105, 99, 116] }

/// The tags whose element holds text: `key`, `string`, `integer`, `real` and `date`.
pub open spec fn is_text_tag(name: Seq<u8>) -> bool {
    ||| name == key_tag()
    ||| name == seq![115u8, 116, 114, 105, 110, 103]
    ||| name == seq![105u8, 110, 116, 101, 103, 101, 114]
    ||| name == seq![114u8, 101, 97, 108]
    ||| name == seq![100u8, 97, 116, 101]
}

/// An element's tag name, as bytes.
pub open spec fn element_name<'a>(e: Element<'a>) -> Seq<u8> {
    e.opener.span@.subrange(1, e.opener.name_len() + 1int)
}

/// What reading a node gives, as far as its kind and tag name decide: a comment is refused;
/// text is text; `true` and `false` are booleans when self-closing; `data` is not read; the
/// text tags give text, `array` an array and `dict` a dictionary, each refused when empty;
/// any other tag but `plist` is unknown.
pub open spec fn value_outcome<'a>(n: Node<'a>, r: Result<Value, Error<'a>>) -> bool {
    match n {
        Node::Comment(_) => r matches Err(Error::ExpectedElement),
        Node::Text(d, _) => r matches Ok(v) ==> v matches Value::String(s) && character_data_text(d) == Ok::<Seq<char>, CharacterEntityDecodingError>(s@),
        Node::Element(e) => {
            let name = element_name(e);
            if name == true_tag() || name == false_tag() {
                if e.closer is None {
                    r == Ok::<Value, Error<'a>>(Value::Bool(name == true_tag()))
                } else {
                    r matches Err(Error::ExpectedEmpty(t)) && bytes_of(t) == name
                }
            } else if name == data_tag() {
                r matches Err(Error::UnsupportedData)
            } else if is_text_tag(name) {
                r matches Ok(v) ==> v is String
            } else if name == array_tag() {
                &&& (e.children@.len() == 0 ==> (r matches Err(Error::EmptyContainer)))
                &&& (r matches Ok(v) ==> v is Array)
            } else if name == dict_tag() {
                &&& (e.children@.len() == 0 ==> (r matches Err(Error::EmptyContainer)))
                &&& (r matches Ok(v) ==> v is Dict)
            } else if name == plist_tag() {
                true
            } else {
                r matches Err(Error::UnknownTag(t)) && bytes_of(t) == name
            }
        },
    }
}

/// The text of text whose bytes are `raw`: read as it is when `plain`, else with its escapes
/// replaced, an empty numeric escape `&#;` refused before any other.
pub open spec fn text_value(raw: Seq<u8>, plain: bool) -> Result<Seq<char>, PlistError> {
    if plain {
        Ok(vstd::utf8::decode_utf8(raw))
    } else if exists|i: int| crate::text::occurs_at(raw, seq![38u8, 35, 59], i) {
        Err(PlistError::EmptyNumericEscape)
    } else {
        match crate::xml::cdata::unescaped(raw) {
            Ok(t) => Ok(t),
            Err(e) => Err(PlistError::CharacterReferenceDecodingError(e)),
        }
    }
}

/// Whether a tree counts as contents: anything but a comment or blank text.
pub open spec fn tree_significant(t: XmlTree) -> bool {
    match t {
        XmlTree::Comment => false,
        XmlTree::Text { raw, .. } => !all_blank(raw),
        XmlTree::Element { .. } => true,
    }
}

/// The positions among `ts` of the trees that count as contents, in order.
pub open spec fn significant_positions(ts: Seq<XmlTree>) -> Seq<int>
    decreases ts.len(),
{
    if ts.len() == 0 {
        Seq::empty()
    } else {
        let before = significant_positions(ts.drop_last());
        if tree_significant(ts.last()) {
            before.push(ts.len() - 1)
        } else {
            before
        }
    }
}

/// The value of a document tree, by the rules of [`node_value`]: text gives its text; `plist`
/// the value of its one significant child, an element; `true` and `false`, self-closing, give
/// booleans; `data` is not read; the text tags the text of their one significant child;
/// `array` and `dict` their significant children, in order or in key-value pairs.
pub open spec fn tree_value(t: XmlTree) -> Result<PlistValue, PlistError>
    decreases t, 1int, 0int,
{
    match t {
        XmlTree::Comment => Err(PlistError::ExpectedElement),
        XmlTree::Text { raw, plain } => match text_value(raw, plain) {
            Ok(s) => Ok(PlistValue::Text(s)),
            Err(e) => Err(e),
        },
        XmlTree::Element { name, closed, children } => {
            let ps = significant_positions(children);
            if name == plist_tag() {
                if ps.len() != 1 {
                    Err(PlistError::ExpectedOnlyOneChild)
                } else if 0 <= ps[0] < children.len() && children[ps[0]] is Element {
                    tree_value(children[ps[0]])
                } else {
                    Err(PlistError::ExpectedElement)
                }
            } else if name == true_tag() || name == false_tag() {
                if closed {
                    Err(PlistError::ExpectedEmpty(name))
                } else {
                    Ok(PlistValue::Bool(name == true_tag()))
                }
            } else if name == data_tag() {
                Err(PlistError::UnsupportedData)
            } else if is_text_tag(name) {
                if ps.len() != 1 {
                    Err(PlistError::ExpectedOnlyOneChild)
                } else if 0 <= ps[0] < children.len() {
                    match children[ps[0]] {
                        XmlTree::Text { raw, plain } => match text_value(raw, plain) {
                            Ok(s) => Ok(PlistValue::Text(s)),
                            Err(e) => Err(e),
                        },
                        _ => Err(PlistError::ExpectedText),
                    }
                } else {
                    Err(PlistError::ExpectedText)
                }
            } else if name == array_tag() {
                if children.len() == 0 {
                    Err(PlistError::EmptyContainer)
                } else {
                    match tree_array_items(children, ps, 0) {
                        Ok(items) => Ok(PlistValue::Array(items)),
                        Err(x) => Err(x),
                    }
                }
            } else if name == dict_tag() {
                if children.len() == 0 {
                    Err(PlistError::EmptyContainer)
                } else {
                    match tree_dict_entries(children, ps, 0) {
                        Ok(entries) => Ok(PlistValue::Dict(entries)),
                        Err(x) => Err(x),
                    }
                }
            } else {
                Err(PlistError::UnknownTag(name))
            }
        },
    }
}

/// The values of the trees at positions `ps` of `ts`, from the `k`th on, each an element.
pub open spec fn tree_array_items(ts: Seq<XmlTree>, ps: Seq<int>, k: int) -> Result<Seq<PlistValue>, PlistError>
    decreases ts, 0int, ps.len() - k,
{
    if k < 0 || k >= ps.len() {
        Ok(Seq::empty())
    } else if 0 <= ps[k] < ts.len() && ts[ps[k]] is Element {
        match tree_value(ts[ps[k]]) {
            Err(e) => Err(e),
            Ok(v) => match tree_array_items(ts, ps, k + 1) {
                Ok(more) => Ok(seq![v] + more),
                Err(e) => Err(e),
            },
        }
    } else {
        Err(PlistError::ExpectedElement)
    }
}

/// The entries of the trees at positions `ps` of `ts`, from the `k`th on: a `key` element
/// whose text is the name, then a value element that is not a `key`.
pub open spec fn tree_dict_entries(ts: Seq<XmlTree>, ps: Seq<int>, k: int) -> Result<Seq<(Seq<char>, PlistValue)>, PlistError>
    decreases ts, 0int, ps.len() - k,
{
    if k < 0 || k >= ps.len() {
        Ok(Seq::empty())
    } else if !(0 <= ps[k] < ts.len()) {
        Err(PlistError::ExpectedValue)
    } else {
        match ts[ps[k]] {
            XmlTree::Element { name: kn, .. } => if kn != key_tag() {
                Err(PlistError::ExpectedKey)
            } else {
                match tree_value(ts[ps[k]]) {
                    Err(e) => Err(e),
                    Ok(PlistValue::Text(name)) => if k + 1 >= ps.len() {
                        Err(PlistError::ExpectedValue)
                    } else if !(0 <= ps[k + 1] < ts.len()) {
                        Err(PlistError::ExpectedValue)
                    } else {
                        match ts[ps[k + 1]] {
                            XmlTree::Element { name: vn, .. } => if vn == key_tag() {
                                Err(PlistError::ExpectedValue)
                            } else {
                                match tree_value(ts[ps[k + 1]]) {
                                    Err(e) => Err(e),
                                    Ok(v) => match tree_dict_entries(ts, ps, k + 2) {
                                        Ok(more) => Ok(seq![(name, v)] + more),
                                        Err(e) => Err(e),
                                    },
                                }
                            },
                            _ => Err(PlistError::ExpectedValue),
                        }
                    },
                    Ok(_) => Err(PlistError::ExpectedText),
                }
            },
            _ => Err(PlistError::ExpectedValue),
        }
    }
}

/// Character data reads to the text of its tree.
proof fn lemma_text_value<'a>(d: XmlCharacterData<'a>)
    ensures
        text_outcome(d) == text_value(bytes_of(character_data_raw(d)), d is Plain),
{
    if let XmlCharacterData::Plain(t) = d {
        vstd::utf8::encode_utf8_decode_utf8(t@);
    }
}

/// The contents among stored nodes are the contents among their trees, at the same positions.
proof fn lemma_significant_positions<'a>(a: Seq<Option<Node<'a>>>, cs: Seq<NodeIndex>)
    requires
        forall|k: int| 0 <= k < cs.len() ==> (#[trigger] cs[k]).0 < a.len() && a[cs[k].0 as int] is Some,
    ensures
        significant_among(a, cs).len() == significant_positions(trees_at(a, cs)).len(),
        forall|j: int| 0 <= j < significant_among(a, cs).len() ==> 0 <= #[trigger] significant_positions(trees_at(a, cs))[j] < cs.len()
            && significant_among(a, cs)[j] == cs[significant_positions(trees_at(a, cs))[j]],
    decreases cs.len(),
{
    if cs.len() > 0 {
        let d = cs.drop_last();
        lemma_significant_positions(a, d);
        let ts = trees_at(a, cs);
        assert(ts.drop_last() =~= trees_at(a, d));
        assert(ts.last() == tree_of(a, cs.last().0 as int));
        let ss = significant_among(a, cs);
        let ps = significant_positions(ts);
        let c = cs.last().0 as int;
        assert(a[c] is Some);
        match a[c]->Some_0 {
            Node::Text(d, _) => {
                let raw = bytes_of(character_data_raw(d));
                assert(ts.last() == (XmlTree::Text { raw, plain: d is Plain }));
                assert(node_significant(a[c]->Some_0) == tree_significant(ts.last()));
            },
            Node::Comment(_) => {
                assert(tree_of(a, c) == XmlTree::Comment);
                assert(node_significant(a[c]->Some_0) == tree_significant(ts.last()));
            },
            Node::Element(e) => {
                assert(tree_of(a, c) is Element);
                assert(node_significant(a[c]->Some_0) == tree_significant(ts.last()));
            },
        }
        assert forall|j: int| 0 <= j < ss.len() implies 0 <= #[trigger] ps[j] < cs.len() && ss[j] == cs[ps[j]] by {
            if j < significant_among(a, d).len() {
                assert(d[significant_positions(trees_at(a, d))[j]] == cs[significant_positions(trees_at(a, d))[j]]);
            }
        }
    }
}

/// The array items of stored contents are those of their trees.
proof fn lemma_array_items_tree<'a>(a: Seq<Option<Node<'a>>>, cs: Seq<NodeIndex>, index: int, ts: Seq<XmlTree>, ps: Seq<int>, k: int)
    requires
        ps.len() == cs.len(),
        0 <= k,
        forall|j: int| 0 <= j < ps.len() ==> 0 <= #[trigger] ps[j] < ts.len() && ts[ps[j]] == tree_of(a, cs[j].0 as int),
        forall|j: int| 0 <= j < cs.len() ==> (#[trigger] cs[j]).0 < index && index <= a.len() && a[cs[j].0 as int] is Some
            && node_value(a, cs[j].0 as int) == tree_value(tree_of(a, cs[j].0 as int)),
    ensures
        array_items(a, cs, k, index) == tree_array_items(ts, ps, k),
    decreases cs.len() - k,
{
    if k < cs.len() {
        lemma_array_items_tree(a, cs, index, ts, ps, k + 1);
        let c = cs[k].0 as int;
        assert(ts[ps[k]] == tree_of(a, c));
        assert(node_value(a, c) == tree_value(tree_of(a, c)));
    }
}

/// The dictionary entries of stored contents are those of their trees.
proof fn lemma_dict_entries_tree<'a>(a: Seq<Option<Node<'a>>>, cs: Seq<NodeIndex>, index: int, ts: Seq<XmlTree>, ps: Seq<int>, k: int)
    requires
        ps.len() == cs.len(),
        0 <= k,
        forall|j: int| 0 <= j < ps.len() ==> 0 <= #[trigger] ps[j] < ts.len() && ts[ps[j]] == tree_of(a, cs[j].0 as int),
        forall|j: int| 0 <= j < cs.len() ==> (#[trigger] cs[j]).0 < index && index <= a.len() && a[cs[j].0 as int] is Some
            && node_value(a, cs[j].0 as int) == tree_value(tree_of(a, cs[j].0 as int)),
    ensures
        dict_entries(a, cs, k, index) == tree_dict_entries(ts, ps, k),
    decreases cs.len() - k,
{
    if k < cs.len() {
        if k + 2 <= cs.len() {
            lemma_dict_entries_tree(a, cs, index, ts, ps, k + 2);
        }
        let c = cs[k].0 as int;
        assert(ts[ps[k]] == tree_of(a, c));
        assert(node_value(a, c) == tree_value(tree_of(a, c)));
        if k + 1 < cs.len() {
            let c2 = cs[k + 1].0 as int;
            assert(ts[ps[k + 1]] == tree_of(a, c2));
            assert(node_value(a, c2) == tree_value(tree_of(a, c2)));
        }
    }
}

/// The value of a stored node is the value of its tree.
proof fn lemma_node_value_tree<'a>(a: Seq<Option<Node<'a>>>, i: int)
    requires
        arena_ok(a),
        0 <= i < a.len(),
        a[i] is Some,
    ensures
        node_value(a, i) == tree_value(tree_of(a, i)),
    decreases i,
{
    match a[i]->Some_0 {
        Node::Comment(_) => {},
        Node::Text(d, _) => {
            lemma_text_value(d);
        },
        Node::Element(e) => {
            assert(crate::xml::node::children_below(Node::Element(e), i, a));
            let cs = e.children@;
            assert forall|j: int| 0 <= j < cs.len() implies (#[trigger] cs[j]).0 < i && i <= a.len() && a[cs[j].0 as int] is Some
                && node_value(a, cs[j].0 as int) == tree_value(tree_of(a, cs[j].0 as int)) by {
                lemma_node_value_tree(a, cs[j].0 as int);
            }
            let ts = trees_at(a, cs);
            assert(element_tree(a, e, i)->children =~= ts);
            lemma_significant_positions(a, cs);
            let ss = significant_among(a, cs);
            let ps = significant_positions(ts);
            assert forall|j: int| 0 <= j < ss.len() implies (#[trigger] ss[j]).0 < i && i <= a.len() && a[ss[j].0 as int] is Some
                && node_value(a, ss[j].0 as int) == tree_value(tree_of(a, ss[j].0 as int)) by {
                assert(ss[j] == cs[ps[j]]);
            }
            assert forall|j: int| 0 <= j < ps.len() implies 0 <= #[trigger] ps[j] < ts.len() && ts[ps[j]] == tree_of(a, ss[j].0 as int) by {
                assert(ss[j] == cs[ps[j]]);
            }
            if ss.len() >= 1 {
                assert(ss[0] == cs[ps[0]]);
                if let Some(Node::Text(d, _)) = a[ss[0].0 as int] {
                    lemma_text_value(d);
                }
            }
            lemma_array_items_tree(a, ss, i, ts, ps, 0);
            lemma_dict_entries_tree(a, ss, i, ts, ps, 0);
        },
    }
}

/// The value of the node at `index`.
#[verifier::loop_isolation(false)]
fn value_at<'a>(arena: &VecNodeArena<'a>, index: usize) -> (r: Result<Value, Error<'a>>)
    requires
        arena_ok(arena@),
        index < arena@.len(),
        arena@[index as int] is Some,
    ensures
        value_outcome(arena@[index as int]->Some_0, r),
        result_view(r) == node_value(arena@, index as int),
    decreases index,
{
    let node = arena.get(&NodeIndex(index));
    proof {
        assert(arena@[index as int] matches Some(n) ==> crate::xml::node::node_wf(n) && crate::xml::node::children_below(n, index as int, arena@));
    }
    match node {
        Node::Comment(_) => Err(Error::ExpectedElement),
        Node::Text(d, _) => Ok(Value::String(text_of(d)?)),
        Node::Element(e) => {
            let name = e.tag_name();
            let contents = significant_children(arena, &e.children, index);
            if is_tag(name, [112u8, 108, 105, 115, 116].as_slice()) {
                if contents.len() != 1 {
                    return Err(Error::ExpectedOnlyOneChild);
                }
                let only = contents[0];
                match arena.get(&only) {
                    Node::Element(_) => value_at(arena, only.0),
                    _ => Err(Error::ExpectedElement),
                }
            } else if is_tag(name, [116u8, 114, 117, 101].as_slice()) || is_tag(name, [102u8, 97, 108, 115, 101].as_slice()) {
                if !e.is_self_closing() {
                    return Err(Error::ExpectedEmpty(name));
                }
                Ok(Value::Bool(is_tag(name, [116u8, 114, 117, 101].as_slice())))
            } else if is_tag(name, [100u8, 97, 116, 97].as_slice()) {
                Err(Error::UnsupportedData)
            } else if is_tag(name, [107u8, 101, 121].as_slice()) || is_tag(name, [115u8, 116, 114, 105, 110, 103].as_slice()) || is_tag(name, [105u8, 110, 116, 101, 103, 101, 114].as_slice()) || is_tag(name, [114u8, 101, 97, 108].as_slice()) || is_tag(name, [100u8, 97, 116, 101].as_slice()) {
                if contents.len() != 1 {
                    return Err(Error::ExpectedOnlyOneChild);
                }
                match arena.get(&contents[0]) {
                    Node::Text(d, _) => Ok(Value::String(text_of(d)?)),
                    _ => Err(Error::ExpectedText),
                }
            } else if is_tag(name, [97u8, 114, 114, 97, 121].as_slice()) {
                if e.children.len() == 0 {
                    return Err(Error::EmptyContainer);
                }
                let mut items: Vec<Value> = Vec::new();
                let mut k: usize = 0;
                let ghost all = array_items(arena@, contents@, 0, index as int);
                while k < contents.len()
                    invariant
                        arena_ok(arena@),
                        forall|j: int| 0 <= j < contents@.len() ==> (#[trigger] contents@[j]).0 < index && arena@[contents@[j].0 as int] is Some,
                        index < arena@.len(),
                        k <= contents@.len(),
                        all == array_items(arena@, contents@, 0, index as int),
                        all == after(values_view(items@), array_items(arena@, contents@, k as int, index as int)),
                    decreases contents@.len() - k,
                {
                    let c = contents[k];
                    match arena.get(&c) {
                        Node::Element(_) => {
                            let v = match value_at(arena, c.0) {
                                Ok(v) => v,
                                Err(e) => { return Err(e); },
                            };
                            let ghost before = items@;
                            items.push(v);
                            proof {
                                match array_items(arena@, contents@, k + 1, index as int) {
                                    Ok(more) => {
                                        assert(values_view(before) + (seq![value_view(v)] + more) =~= values_view(items@) + more);
                                    },
                                    Err(_) => {},
                                }
                            }
                        },
                        _ => {
                            return Err(Error::ExpectedElement);
                        },
                    }
                    k = k + 1;
                }
                proof {
                    assert(values_view(items@) + Seq::<PlistValue>::empty() =~= values_view(items@));
                    assert(value_view(Value::Array(items))->Array_0 =~= values_view(items@));
                }
                Ok(Value::Array(items))
            } else if is_tag(name, [100u8, 105, 99, 116].as_slice()) {
                if e.children.len() == 0 {
                    return Err(Error::EmptyContainer);
                }
                let mut entries: Vec<(String, Value)> = Vec::new();
                let mut k: usize = 0;
                let ghost all = dict_entries(arena@, contents@, 0, index as int);
                while k < contents.len()
                    invariant
                        arena_ok(arena@),
                        forall|j: int| 0 <= j < contents@.len() ==> (#[trigger] contents@[j]).0 < index && arena@[contents@[j].0 as int] is Some,
                        index < arena@.len(),
                        k <= contents@.len(),
                        all == dict_entries(arena@, contents@, 0, index as int),
                        all == after(entries_view(entries@), dict_entries(arena@, contents@, k as int, index as int)),
                    decreases contents@.len() - k,
                {
                    let c = contents[k];
                    let key = match arena.get(&c) {
                        Node::Element(ke) => {
                            proof {
                                assert(arena@[c.0 as int] matches Some(n) ==> crate::xml::node::node_wf(n));
                            }
                            if !is_tag(ke.tag_name(), [107u8, 101, 121].as_slice()) {
                                return Err(Error::ExpectedKey);
                            }
                            match value_at(arena, c.0)? {
                                Value::String(s) => s,
                                _ => { return Err(Error::ExpectedText); },
                            }
                        },
                        _ => {
                            return Err(Error::ExpectedValue);
                        },
                    };
                    if k + 1 >= contents.len() {
                        return Err(Error::ExpectedValue);
                    }
                    let v = contents[k + 1];
                    let value = match arena.get(&v) {
                        Node::Element(ve) => {
                            proof {
                                assert(arena@[v.0 as int] matches Some(n) ==> crate::xml::node::node_wf(n));
                            }
                            if is_tag(ve.tag_name(), [107u8, 101, 121].as_slice()) {
                                return Err(Error::ExpectedValue);
                            }
                            value_at(arena, v.0)?
                        },
                        _ => {
                            return Err(Error::ExpectedValue);
                        },
                    };
                    let ghost before = entries@;
                    let ghost kv = key@;
                    entries.push((key, value));
                    proof {
                        match dict_entries(arena@, contents@, k + 2, index as int) {
                            Ok(more) => {
                                assert(entries_view(before) + (seq![(kv, value_view(value))] + more) =~= entries_view(entries@) + more);
                            },
                            Err(_) => {},
                        }
                    }
                    k = k + 2;
                }
                proof {
                    assert(entries_view(entries@) + Seq::<(Seq<char>, PlistValue)>::empty() =~= entries_view(entries@));
                    assert(value_view(Value::Dict(entries))->Dict_0 =~= entries_view(entries@));
                }
                Ok(Value::Dict(entries))
            } else {
                Err(Error::UnknownTag(name))
            }
        },
    }
}

/// What reading the property list `text` gives: the header must start it, and the tags after
/// it be well formed; then nothing after the header gives `None`, else the value of the first
/// node read.
pub open spec fn plist_outcome(text: Seq<u8>) -> Result<Option<PlistValue>, PlistError> {
    let body = text.skip(bytes_of(PRELUDE).len() as int);
    if !starts_with(text, bytes_of(PRELUDE)) {
        Err(PlistError::MissingPrelude)
    } else if !(closers_close(body) && openers_not_doubled(body)) {
        Err(PlistError::Malformed)
    } else {
        match read_node(body, 0, body.len() as int) {
            None => Err(PlistError::ParseError),
            Some(None) => Ok(None),
            Some(Some((t, _))) => match tree_value(t) {
                Ok(v) => Ok(Some(v)),
                Err(e) => Err(e),
            },
        }
    }
}

/// The text of the first entry named `key` in the entries `es`: `None` where there is none,
/// an error where that entry is not text.
pub open spec fn entry_text(es: Seq<(Seq<char>, PlistValue)>, key: Seq<char>) -> Result<Option<Seq<char>>, ()>
    decreases es.len(),
{
    if es.len() == 0 {
        Ok(None)
    } else if es[0].0 == key {
        match es[0].1 {
            PlistValue::Text(t) => Ok(Some(t)),
            _ => Err(()),
        }
    } else {
        entry_text(es.drop_first(), key)
    }
}

/// The text of the entry `key` of the property list `text`, which must hold a dictionary.
pub open spec fn plist_entry_text(text: Seq<u8>, key: Seq<char>) -> Result<Option<Seq<char>>, ()> {
    match plist_outcome(text) {
        Ok(Some(PlistValue::Dict(es))) => entry_text(es, key),
        _ => Err(()),
    }
}

/// Reads the property list in `input`, which starts with the property-list header; `None`
/// where nothing follows the header.
pub fn parse<'a>(input: &'a str) -> (r: Result<Option<Value>, Error<'a>>)
    ensures
        !starts_with(bytes_of(input), bytes_of(PRELUDE)) ==> r matches Err(Error::MissingPrelude),
        ({
            let body = bytes_of(input).skip(bytes_of(PRELUDE).len() as int);
            &&& starts_with(bytes_of(input), bytes_of(PRELUDE)) && !(closers_close(body) && openers_not_doubled(body))
                ==> (r matches Err(Error::Malformed))
            &&& starts_with(bytes_of(input), bytes_of(PRELUDE)) && body.len() == 0 ==> (r matches Ok(None))
            &&& (r matches Ok(None) ==> body.len() == 0)
        }),
        match plist_outcome(bytes_of(input)) {
            Ok(None) => r matches Ok(None),
            Ok(Some(v)) => r matches Ok(Some(x)) && value_view(x) == v,
            Err(e) => r matches Err(x) && error_view(x) == e,
        },
{
    let prelude = PRELUDE;
    let n = crate::text::byte_len(prelude);
    if !crate::text::bytes_start_with(input.as_bytes(), prelude.as_bytes()) {
        return Err(Error::MissingPrelude);
    }
    proof {
        reveal_strlit("<?xml version=\"1.0\" encoding=\"UTF-8\"?>\n<!DOCTYPE plist PUBLIC \"-//Apple//DTD PLIST 1.0//EN\" \"http://www.apple.com/DTDs/PropertyList-1.0.dtd\">\n");
        crate::text::lemma_ascii_bytes(prelude);
        assert(bytes_of(input)[n as int - 1] == bytes_of(prelude)[n as int - 1]);
        crate::text::lemma_ascii_cut(input, n as int);
        assert(n as int == bytes_of(prelude).len());
    }
    let body = crate::text::substr_ascii(input, n, crate::text::byte_len(input));
    let b = body.as_bytes();
    assert(b@ =~= bytes_of(input).skip(bytes_of(PRELUDE).len() as int));
    if !check_closers_close(b) || !check_openers_not_doubled(b) {
        return Err(Error::Malformed);
    }
    let root = Span::new_root(body);
    let mut arena = VecNodeArena::new();
    assert(arena_ok(arena@));
    match Node::parse(&root, &mut arena) {
        Err(e) => Err(Error::ParseError(e)),
        Ok(None) => Ok(None),
        Ok(Some(read)) => {
            proof { lemma_node_value_tree(arena@, read.value.0 as int); }
            match value_at(&arena, read.value.0) {
                Ok(v) => Ok(Some(v)),
                Err(e) => Err(e),
            }
        },
    }
}

impl Value {
    /// The text, if this is text.
    pub fn as_str(&self) -> (r: Option<&str>)
        ensures
            match self {
                Value::String(s) => r matches Some(t) && t@ == s@,
                _ => r is None,
            },
    {
        match self {
            Value::String(s) => Some(s.as_str()),
            _ => None,
        }
    }

    /// The value of the first entry named `key`, if this is a dictionary that has one.
    pub fn get(&self, key: &str) -> (r: Option<&Value>)
        ensures
            !(self is Dict) ==> r is None,
            self is Dict ==> (r is None <==> forall|i: int| 0 <= i < self->Dict_0@.len() ==> (#[trigger] self->Dict_0@[i]).0@ != key@),
            self is Dict ==> (r matches Some(v) ==> exists|i: int| 0 <= i < self->Dict_0@.len() && (#[trigger] self->Dict_0@[i]).0@ == key@
                && *v == self->Dict_0@[i].1 && forall|j: int| 0 <= j < i ==> (#[trigger] self->Dict_0@[j]).0@ != key@),
    {
        match self {
            Value::Dict(entries) => {
                let mut i: usize = 0;
                while i < entries.len()
                    invariant
                        *self == Value::Dict(*entries),
                        i <= entries@.len(),
                        forall|j: int| 0 <= j < i ==> (#[trigger] entries@[j]).0@ != key@,
                    decreases entries@.len() - i,
                {
                    if crate::text::str_eq(entries[i].0.as_str(), key) {
                        let found = &entries[i].1;
                        proof {
                            assert((entries@[i as int]).0@ == key@);
                            assert(*found == entries@[i as int].1);
                            assert(self->Dict_0@ == entries@);
                            assert(self->Dict_0@[i as int] == entries@[i as int]);
                        }
                        return Some(found);
                    }
                    i = i + 1;
                }
                None
            },
            _ => None,
        }
    }
}

} // verus!
