//! Nodes of a document: elements, comments and text, read one at a time into an arena.
use vstd::prelude::*;
use crate::text::{find_seq_from, bytes_of, find_from, find_byte_from, lemma_find_from_props, starts_with};
use super::span::{Span, SpanSlicer};
use super::cdata::{XmlCharacterData, character_data_raw};
use super::block::{
    BlockKind, CommentSpan, CharacterDataBlockSpan, BlockSpan, block_after, opener_of, closer_of,
    lemma_block_lengths, block_content,
};
use super::tag::{Attributes, OpeningTagSpan, SectionOpener, SectionOpenerReadError, opener_read, name_end, tag_loop, scan_start};
use super::arena::{NodeIndex, VecNodeArena};

verus! {

/// A value read from the start of some text, with the number of bytes it took.
#[derive(Debug, PartialEq, Eq, Clone, Copy)]
pub struct Read<T> {
    pub value: T,
    pub consumed_bytes: usize,
}

impl<T> Read<T> {
    /// The value read.
    pub fn into_inner(self) -> (r: T)
        ensures
            r == self.value,
    {
        self.value
    }
}

/// A section whose end is found by searching for its closer.
#[derive(Debug, Clone, Copy, PartialEq, Eq, Structural)]
pub enum NonNestingSection {
    UnescapedCharacterData,
    Comment,
}

/// Why a node could not be read.
#[derive(Debug)]
pub enum NodeParseError<'a> {
    BadSectionOpener(SectionOpenerReadError<'a>),
    /// The comment or character data opened here did not close.
    NonNestingDidNotClose(Span<'a>, NonNestingSection),
    /// The element with this opening tag did not close.
    ElementDidNotClose(OpeningTagSpan<'a>),
    ArenaPushFailure,
    ArenaReferenceListPushFailure,
}

/// The span of character data: a `<![CDATA[ … ]]>` block, or text that runs up to a tag.
#[derive(Debug, Clone, Copy)]
pub enum CharacterDataSpan<'a> {
    Block(CharacterDataBlockSpan<'a>),
    AbruptNode(Span<'a>),
}

/// The whole text of a character data span.
pub open spec fn cdata_raw_span<'a>(c: CharacterDataSpan<'a>) -> Span<'a> {
    match c {
        CharacterDataSpan::Block(b) => b.span(),
        CharacterDataSpan::AbruptNode(s) => s,
    }
}

impl<'a> CharacterDataSpan<'a> {
    /// A character data block.
    pub fn block(span: CharacterDataBlockSpan<'a>) -> (r: Self)
        ensures
            r == CharacterDataSpan::Block(span),
    {
        CharacterDataSpan::Block(span)
    }

    /// Text that runs up to a tag.
    pub fn abrupt_node(span: Span<'a>) -> (r: Self)
        ensures
            r == CharacterDataSpan::AbruptNode(span),
    {
        CharacterDataSpan::AbruptNode(span)
    }

    /// The whole text.
    pub fn as_raw_span(&self) -> (r: Span<'a>)
        ensures
            r == cdata_raw_span(*self),
    {
        match self {
            CharacterDataSpan::Block(b) => b.whole(),
            CharacterDataSpan::AbruptNode(s) => *s,
        }
    }

    /// The text without any block opener and closer.
    pub fn as_content_span(&self) -> (r: Span<'a>)
        ensures
            *self matches CharacterDataSpan::AbruptNode(s) ==> r == s,
            *self matches CharacterDataSpan::Block(b) ==> r@ == super::block::block_content(
                BlockKind::CharacterData,
                b.span()@,
            ),
    {
        match self {
            CharacterDataSpan::Block(b) => b.content(),
            CharacterDataSpan::AbruptNode(s) => *s,
        }
    }

    /// Whether the text starts with `<![CDATA[`.
    pub fn is_block(&self) -> (r: bool)
        ensures
            r == starts_with(cdata_raw_span(*self)@, opener_of(BlockKind::CharacterData)),
    {
        let raw = self.as_raw_span();
        crate::text::bytes_start_with(raw.as_str().as_bytes(), BlockKind::CharacterData.opener().as_bytes())
    }

    /// The block, when this is one.
    pub fn as_block_span(&self) -> (r: Option<CharacterDataBlockSpan<'a>>)
        ensures
            *self matches CharacterDataSpan::Block(b) ==> r == Some(b),
            *self is AbruptNode ==> r is None,
    {
        match self {
            CharacterDataSpan::Block(b) => Some(*b),
            CharacterDataSpan::AbruptNode(_) => None,
        }
    }
}

/// A closing tag, `</name>`.
#[derive(Debug)]
pub struct ClosingTagSpan<'a> {
    pub span: Span<'a>,
    /// The length of the name, in bytes.
    pub name_length: usize,
}

impl<'a> ClosingTagSpan<'a> {
    /// Whether the span holds `</`, the name, and one more byte.
    pub open spec fn wf(&self) -> bool {
        &&& self.name_length + 3 <= self.span@.len()
        &&& self.span@[1] == 47
        &&& self.span@[self.name_length + 2] == 62
    }

    /// The tag's name.
    pub fn get_name_span(&self) -> (r: Span<'a>)
        requires
            self.wf(),
        ensures
            r@ == self.span@.subrange(2, self.name_length + 2),
    {
        let text = self.span.as_str();
        proof {
            crate::text::lemma_after_ascii_boundary(text, 2);
            crate::text::lemma_ascii_boundary(text, self.name_length + 2);
        }
        self.span.slice(2, self.name_length)
    }
}

/// An element: an opening tag, its children, and a closing tag unless it closes itself.
#[derive(Debug)]
pub struct Element<'a> {
    pub opener: OpeningTagSpan<'a>,
    pub closer: Option<ClosingTagSpan<'a>>,
    pub children: Vec<NodeIndex>,
}

impl<'a> Element<'a> {
    /// The attributes of the opening tag.
    pub fn attributes(&self) -> (r: &Attributes<'a>)
        ensures
            r == &self.opener.attributes,
    {
        &self.opener.attributes
    }

    /// The element's name.
    pub fn tag_name(&self) -> (r: &'a str)
        requires
            self.opener.wf(),
        ensures
            bytes_of(r) == self.opener.span@.subrange(1, self.opener.name_len() + 1int),
    {
        self.opener.get_name_span().as_str()
    }

    /// Whether the element has no closing tag.
    pub fn is_self_closing(&self) -> (r: bool)
        ensures
            r == self.closer is None,
    {
        self.closer.is_none()
    }

    /// The whole element: from the opening tag to the end of the closing tag.
    pub fn span(&self) -> (r: Span<'a>)
        requires
            self.closer matches Some(c) ==> c.span.root_text() == self.opener.span.root_text()
                && self.opener.span.start() <= c.span.start(),
        ensures
            self.closer is None ==> r == self.opener.span,
            self.closer matches Some(c) ==> r.start() == self.opener.span.start() && r.start() + r@.len()
                == c.span.start() + c.span@.len() && r.root_text() == self.opener.span.root_text()
                && (c.span@.len() > 0 ==> r@.len() > 0 && r@[r@.len() - 1] == c.span@[c.span@.len() - 1]),
    {
        match &self.closer {
            None => self.opener.span,
            Some(closer) => {
                let o = self.opener.span.offset();
                let c = closer.span.offset();
                let root = self.opener.span.root();
                let _total = root.as_bytes().len();
                let r = Span::new_unchecked(root, o, c - o + closer.span.length());
                proof {
                    if closer.span@.len() > 0 {
                        assert(r@[r@.len() - 1] == bytes_of(root)[c + closer.span@.len() - 1]);
                        assert(closer.span@[closer.span@.len() - 1] == bytes_of(root)[c + closer.span@.len() - 1]);
                    }
                }
                r
            },
        }
    }
}

/// A node of a document.
#[derive(Debug)]
pub enum Node<'a> {
    Element(Element<'a>),
    Comment(CommentSpan<'a>),
    /// Text (including whitespace between tags) and its span.
    Text(XmlCharacterData<'a>, CharacterDataSpan<'a>),
}

impl<'a> Node<'a> {
    /// The element, if this is one.
    pub fn into_element(self) -> (r: Option<Element<'a>>)
        ensures
            self is Element <==> r is Some,
    {
        match self {
            Self::Element(element) => Some(element),
            Self::Comment(_) | Self::Text(..) => None,
        }
    }

    /// The element, if this is one.
    pub fn as_element(&self) -> (r: Option<&Element<'a>>)
        ensures
            *self matches Node::Element(e) ==> r == Some(&e),
            !(*self is Element) ==> r is None,
    {
        match self {
            Self::Element(element) => Some(element),
            Self::Comment(_) | Self::Text(..) => None,
        }
    }

    /// The character data, if this is text.
    pub fn as_cdata(&self) -> (r: Option<&XmlCharacterData<'a>>)
        ensures
            *self matches Node::Text(c, _) ==> r == Some(&c),
            !(*self is Text) ==> r is None,
    {
        match self {
            Self::Comment(_) | Self::Element(_) => None,
            Self::Text(cdata, _) => Some(cdata),
        }
    }

    /// The character data, if this is text.
    pub fn into_cdata(self) -> (r: Option<XmlCharacterData<'a>>)
        ensures
            self is Text <==> r is Some,
    {
        match self {
            Self::Comment(_) | Self::Element(_) => None,
            Self::Text(cdata, _) => Some(cdata),
        }
    }
}



/// Whether the top-level text `b` never holds a block opener right after the same opener.
pub open spec fn openers_not_doubled(b: Seq<u8>) -> bool {
    &&& forall|o: int|
        #![trigger crate::text::occurs_at(b, opener_of(BlockKind::Comment), o)]
        crate::text::occurs_at(b, opener_of(BlockKind::Comment), o) && o >= 4 ==> !crate::text::occurs_at(
            b,
            opener_of(BlockKind::Comment),
            o - 4,
        )
    &&& forall|o: int|
        #![trigger crate::text::occurs_at(b, opener_of(BlockKind::CharacterData), o)]
        crate::text::occurs_at(b, opener_of(BlockKind::CharacterData), o) && o >= 9
            ==> !crate::text::occurs_at(b, opener_of(BlockKind::CharacterData), o - 9)
}

/// The end of the text at the start of `b`: the first `<`, or the end.
pub open spec fn text_end(b: Seq<u8>) -> int {
    match find_from(b, 60, 0) {
        Some(i) => i,
        None => b.len() as int,
    }
}

/// Whether a node's parts lie in order in one top-level text.
pub open spec fn node_wf<'a>(n: Node<'a>) -> bool {
    match n {
        Node::Element(e) => e.opener.wf() && match e.closer {
            Some(c) => c.wf() && c.span.root_text() == e.opener.span.root_text() && e.opener.span.start()
                <= c.span.start(),
            None => true,
        },
        _ => true,
    }
}

/// Whether the node at `i` has only children stored before it.
pub open spec fn children_below<'a>(n: Node<'a>, i: int, a: Seq<Option<Node<'a>>>) -> bool {
    n matches Node::Element(e) ==> forall|k: int|
        0 <= k < e.children@.len() ==> (#[trigger] e.children@[k]).0 < i && a[e.children@[k].0 as int] is Some
}

/// Whether every stored node is well formed and has its children stored before it.
pub open spec fn arena_ok<'a>(a: Seq<Option<Node<'a>>>) -> bool {
    forall|i: int| 0 <= i < a.len() ==> (#[trigger] a[i] matches Some(n) ==> node_wf(n) && children_below(n, i, a))
}

/// Appending to a good arena a node whose children are stored keeps it good.
proof fn lemma_arena_ok_push<'a>(a: Seq<Option<Node<'a>>>, n: Node<'a>)
    requires
        arena_ok(a),
        node_wf(n),
        children_below(n, a.len() as int, a),
    ensures
        arena_ok(a.push(Some(n))),
{
    let b = a.push(Some(n));
    assert forall|i: int| 0 <= i < b.len() implies (#[trigger] b[i] matches Some(m) ==> node_wf(m) && children_below(m, i, b)) by {
        if i < a.len() {
            assert(b[i] == a[i]);
            if let Some(m) = a[i] {
                if let Node::Element(e) = m {
                    assert forall|k: int| 0 <= k < e.children@.len() implies (#[trigger] e.children@[k]).0 < i && b[e.children@[k].0 as int] is Some by {
                        assert(children_below(m, i, a));
                    }
                }
            }
        } else {
            if let Node::Element(e) = n {
                assert forall|k: int| 0 <= k < e.children@.len() implies (#[trigger] e.children@[k]).0 < i && b[e.children@[k].0 as int] is Some by {
                    assert(children_below(n, a.len() as int, a));
                }
            }
        }
    }
}

/// Whether the arena `after` extends `before`.
pub open spec fn extends<'a>(before: Seq<Option<Node<'a>>>, after: Seq<Option<Node<'a>>>) -> bool {
    before.len() <= after.len() && forall|i: int| 0 <= i < before.len() ==> after[i] == before[i]
}

/// An XML node as mathematics: an element's name, whether it has a closing tag, and its
/// children; a comment; text, as its bytes and whether it is read without escapes.
pub enum XmlTree {
    Element { name: Seq<u8>, closed: bool, children: Seq<XmlTree> },
    Comment,
    Text { raw: Seq<u8>, plain: bool },
}

/// Where the opening tag at the start of `b` ends, and the length of its name: `None` where
/// it does not end or an attribute cannot be read.
pub open spec fn tag_end(b: Seq<u8>) -> Option<(int, int)> {
    match name_end(b) {
        None => None,
        Some(ne) => {
            let result = if b[ne] == 62 {
                Ok::<(int, Seq<(Seq<u8>, Seq<u8>)>), Option<super::tag::AttributeParseError>>((ne + 1, Seq::<(Seq<u8>, Seq<u8>)>::empty()))
            } else {
                tag_loop(b, b.subrange(1, ne) == crate::text::ascii_bytes("xml"@), ne + 1, scan_start(), Seq::empty())
            };
            match result {
                Ok((end, _)) => Some((end, ne - 1)),
                Err(_) => None,
            }
        },
    }
}

/// `?xml`
pub open spec fn xml_declaration_name() -> Seq<u8> {
    seq![63u8, 120, 109, 108]
}

/// What reading one node at `s` of the top-level text `root`, within `n` bytes, gives: `None`
/// where reading fails, `Some(None)` where there is nothing to read, else the node and the
/// bytes it takes. Text runs to the next `<`; a comment or character data block runs to its
/// closer; an element that closes itself, or the XML declaration, is its opening tag; any
/// other element reads children up to a closing tag of its name.
pub open spec fn read_node(root: Seq<u8>, s: int, n: int) -> Option<Option<(XmlTree, int)>>
    decreases n, 2int, 0int,
{
    if !(0 <= s && 0 <= n && s + n <= root.len()) {
        None
    } else if n == 0 {
        Some(None)
    } else {
        let b = root.subrange(s, s + n);
        if b[0] != 60 {
            let e = text_end(b);
            Some(Some((XmlTree::Text { raw: b.subrange(0, e), plain: !b.subrange(0, e).contains(38u8) }, e)))
        } else if starts_with(b, opener_of(BlockKind::Comment)) {
            match block_after(BlockKind::Comment, root, s, n) {
                None => None,
                Some((_, l)) => Some(Some((XmlTree::Comment, l))),
            }
        } else if starts_with(b, opener_of(BlockKind::CharacterData)) {
            match block_after(BlockKind::CharacterData, root, s, n) {
                None => None,
                Some((st, l)) => Some(Some((XmlTree::Text {
                    raw: block_content(BlockKind::CharacterData, root.subrange(st, st + l)),
                    plain: true,
                }, l))),
            }
        } else {
            match tag_end(b) {
                None => None,
                Some((end, nl)) => match read_element(root, s, n, end, nl) {
                    None => None,
                    Some(x) => Some(Some(x)),
                },
            }
        }
    }
}

/// What reading the element whose opening tag, `end` bytes long with a name of `nl` bytes,
/// starts at `s` of `root` gives, within `n` bytes.
pub open spec fn read_element(root: Seq<u8>, s: int, n: int, end: int, nl: int) -> Option<(XmlTree, int)>
    decreases n, 1int, n + 1,
{
    let name = root.subrange(s + 1, s + nl + 1);
    if !(2 <= end <= n && 0 <= s && s + n <= root.len()) {
        None
    } else if root[s + end - 2] == 47 || name == xml_declaration_name() {
        Some((XmlTree::Element { name, closed: false, children: Seq::empty() }, end))
    } else {
        match read_children(root, s, n, end, name) {
            None => None,
            Some((kids, stop)) => Some((XmlTree::Element { name, closed: true, children: kids }, stop)),
        }
    }
}

/// What reading the children of an element named `name` that starts at `s` of `root`, from
/// `k` bytes in and within `n` bytes, gives: the children, and where the closing tag ends.
pub open spec fn read_children(root: Seq<u8>, s: int, n: int, k: int, name: Seq<u8>) -> Option<(Seq<XmlTree>, int)>
    decreases n, 1int, n - k,
{
    if !(0 < k <= n && 0 <= s && s + n <= root.len()) {
        None
    } else {
        let after = root.subrange(s + k, s + n);
        if after.len() >= 2 && after[0] == 60 && after[1] == 47 {
            match find_from(after, 62, 0) {
                None => None,
                Some(e) => if after.subrange(2, e) == name {
                    Some((Seq::empty(), k + e + 1))
                } else {
                    None
                },
            }
        } else {
            match read_node(root, s + k, n - k) {
                None => None,
                Some(None) => None,
                Some(Some((t, c))) => if c <= 0 || k + c > n {
                    None
                } else {
                    match read_children(root, s, n, k + c, name) {
                        None => None,
                        Some((more, stop)) => Some((seq![t] + more, stop)),
                    }
                },
            }
        }
    }
}

/// An element's name, as bytes.
pub open spec fn tag_name_of<'a>(e: Element<'a>) -> Seq<u8> {
    e.opener.span@.subrange(1, e.opener.name_len() + 1int)
}

/// The tree of the element `e`, whose children stand in `a` below `bound`.
pub open spec fn element_tree<'a>(a: Seq<Option<Node<'a>>>, e: Element<'a>, bound: int) -> XmlTree
    decreases bound, 1int,
{
    XmlTree::Element {
        name: tag_name_of(e),
        closed: e.closer is Some,
        children: Seq::new(e.children@.len(), |k: int|
            if 0 <= k < e.children@.len() && 0 <= e.children@[k].0 < bound { tree_of(a, e.children@[k].0 as int) } else { XmlTree::Comment }),
    }
}

/// The tree of the node at `i` of the arena `a`.
pub open spec fn tree_of<'a>(a: Seq<Option<Node<'a>>>, i: int) -> XmlTree
    decreases i, 2int,
{
    if !(0 <= i < a.len()) || a[i] is None {
        XmlTree::Comment
    } else {
        match a[i]->Some_0 {
            Node::Element(e) => element_tree(a, e, i),
            Node::Comment(_) => XmlTree::Comment,
            Node::Text(d, _) => XmlTree::Text { raw: bytes_of(character_data_raw(d)), plain: d is Plain },
        }
    }
}

/// The tree of a node stays as it was when the arena grows.
proof fn lemma_tree_of_extends<'a>(a: Seq<Option<Node<'a>>>, a2: Seq<Option<Node<'a>>>, i: int)
    requires
        arena_ok(a),
        extends(a, a2),
        0 <= i < a.len(),
    ensures
        tree_of(a2, i) == tree_of(a, i),
    decreases i,
{
    assert(a2[i] == a[i]);
    if let Some(Node::Element(e)) = a[i] {
        assert(children_below(Node::Element(e), i, a));
        assert forall|k: int| 0 <= k < e.children@.len() implies tree_of(a2, #[trigger] e.children@[k].0 as int) == tree_of(a, e.children@[k].0 as int) by {
            lemma_tree_of_extends(a, a2, e.children@[k].0 as int);
        }
        assert(element_tree(a2, e, i)->children =~= element_tree(a, e, i)->children);
    }
}

/// The trees of the nodes at `cs` in `a`.
pub open spec fn trees_at<'a>(a: Seq<Option<Node<'a>>>, cs: Seq<NodeIndex>) -> Seq<XmlTree> {
    Seq::new(cs.len(), |k: int| tree_of(a, cs[k].0 as int))
}

/// The children `ts` already read, put in front of what reading the rest gives.
pub open spec fn prepend_children(ts: Seq<XmlTree>, r: Option<(Seq<XmlTree>, int)>) -> Option<(Seq<XmlTree>, int)> {
    match r {
        None => None,
        Some((more, stop)) => Some((ts + more, stop)),
    }
}

/// Nothing read in front leaves the result as it is; one more child read moves to the front.
proof fn lemma_prepend_children(ts: Seq<XmlTree>, t: XmlTree, r: Option<(Seq<XmlTree>, int)>)
    ensures
        prepend_children(Seq::empty(), r) == r,
        prepend_children(ts, prepend_children(seq![t], r)) == prepend_children(ts.push(t), r),
{
    if let Some((more, stop)) = r {
        assert(Seq::<XmlTree>::empty() + more =~= more);
        assert(ts + (seq![t] + more) =~= ts.push(t) + more);
    }
}

/// The trees of nodes stored in an arena stay as they were when it grows.
proof fn lemma_trees_at_extends<'a>(a: Seq<Option<Node<'a>>>, a2: Seq<Option<Node<'a>>>, cs: Seq<NodeIndex>)
    requires
        arena_ok(a),
        extends(a, a2),
        forall|k: int| 0 <= k < cs.len() ==> (#[trigger] cs[k]).0 < a.len(),
    ensures
        trees_at(a2, cs) == trees_at(a, cs),
{
    assert forall|k: int| 0 <= k < cs.len() implies #[trigger] trees_at(a2, cs)[k] == trees_at(a, cs)[k] by {
        lemma_tree_of_extends(a, a2, cs[k].0 as int);
    }
    assert(trees_at(a2, cs) =~= trees_at(a, cs));
}

/// The tree of an element whose children are all stored in `a`.
proof fn lemma_element_tree_children<'a>(a: Seq<Option<Node<'a>>>, e: Element<'a>)
    requires
        forall|k: int| 0 <= k < e.children@.len() ==> (#[trigger] e.children@[k]).0 < a.len(),
    ensures
        element_tree(a, e, a.len() as int) == (XmlTree::Element {
            name: tag_name_of(e),
            closed: e.closer is Some,
            children: trees_at(a, e.children@),
        }),
{
    assert(element_tree(a, e, a.len() as int)->children =~= trees_at(a, e.children@));
}

/// Storing an element whose children are stored gives it the tree of those children.
proof fn lemma_element_tree_pushed<'a>(a: Seq<Option<Node<'a>>>, e: Element<'a>)
    requires
        arena_ok(a),
        children_below(Node::Element(e), a.len() as int, a),
    ensures
        tree_of(a.push(Some(Node::Element(e))), a.len() as int) == element_tree(a, e, a.len() as int),
{
    let a2 = a.push(Some(Node::Element(e)));
    assert(extends(a, a2));
    assert forall|k: int| 0 <= k < e.children@.len() implies tree_of(a2, #[trigger] e.children@[k].0 as int)
        == tree_of(a, e.children@[k].0 as int) by {
        lemma_tree_of_extends(a, a2, e.children@[k].0 as int);
    }
    assert(element_tree(a2, e, a.len() as int)->children =~= element_tree(a, e, a.len() as int)->children);
}

/// A block found after an opener at the start of some input lies at the start of that
/// input, within it, and ends in `>`, when the top-level text never doubles an opener.
proof fn lemma_block_in_input(k: BlockKind, root: Seq<u8>, o: int, len: int)
    requires
        openers_not_doubled(root),
        0 <= o,
        0 <= len,
        o + len <= root.len(),
        opener_of(k).len() <= len,
        root.subrange(o, o + opener_of(k).len()) == opener_of(k),
    ensures
        block_after(k, root, o, len) matches Some((s, l)) ==> s == o && 0 < l <= len && root[o + l - 1]
            == 62,
{
    lemma_block_lengths(k);
    reveal_strlit("-->");
    reveal_strlit("]]>");
    reveal_strlit("<!--");
    reveal_strlit("<![CDATA[");
    let ol = opener_of(k).len() as int;
    let eo = super::block::extended_start(k, o);
    let ext = root.subrange(eo, o + len);
    assert(crate::text::occurs_at(root, opener_of(k), o));
    if let Some((s, l)) = block_after(k, root, o, len) {
        assert(ext.subrange(0, ol) == opener_of(k));
        if o >= ol {
            assert(eo == o - ol);
            assert(root.subrange(o - ol, o) =~= ext.subrange(0, ol));
            assert(crate::text::occurs_at(root, opener_of(k), o - ol));
            assert(false);
        } else {
            assert(eo == 0);
            if o > 0 {
                assert(root[o] == 60) by {
                    assert(root.subrange(o, o + ol)[0] == root[o]);
                }
                assert(root[o] == ext.subrange(0, ol)[o]);
                assert(false);
            }
        }
        let c = find_seq_from(ext, closer_of(k), ol).unwrap();
        crate::text::lemma_find_seq_from_props(ext, closer_of(k), ol);
        assert(ext.subrange(c, c + 3)[2] == ext[c + 2]);
        assert(closer_of(k)[2] == 62);
    }
}

/// Every `</` in `b` has a `>` after it within `b`.
pub open spec fn closers_close(b: Seq<u8>) -> bool {
    forall|i: int|
        0 <= i && i + 1 < b.len() && b[i] == 60 && #[trigger] b[i + 1] == 47 ==> exists|j: int| i < j < b.len() && b[j] == 62
}

/// A tail of text whose closing tags close has closing tags that close.
proof fn lemma_closers_close_tail(b: Seq<u8>, k: int)
    requires
        closers_close(b),
        0 <= k <= b.len(),
    ensures
        closers_close(b.subrange(k, b.len() as int)),
{
    let s = b.subrange(k, b.len() as int);
    assert forall|i: int| 0 <= i && i + 1 < s.len() && s[i] == 60 && #[trigger] s[i + 1] == 47 implies exists|j: int| i < j < s.len() && s[j] == 62 by {
        assert(b[k + i] == 60 && b[k + i + 1] == 47);
        let j = choose|j: int| k + i < j < b.len() && b[j] == 62;
        assert(s[j - k] == 62);
    }
}

/// Reads a closing tag at the start of `span`: `None` unless it starts with `</`; the tag
/// runs to the first `>`.
pub fn parse_closing_tag<'a>(span: Span<'a>) -> (r: Option<ClosingTagSpan<'a>>)
    requires
        closers_close(span@),
    ensures
        !(span@.len() >= 2 && span@[0] == 60 && span@[1] == 47) ==> r is None,
        span@.len() >= 2 && span@[0] == 60 && span@[1] == 47 ==> (r matches Some(c) && find_from(span@, 62, 0)
            matches Some(e) && c.span@ == span@.subrange(0, e + 1) && c.name_length == e - 2 && c.wf()
            && c.span.start() == span.start() && c.span.root_text() == span.root_text()),
{
    let text = span.as_str();
    let b = text.as_bytes();
    if !(b.len() >= 2 && b[0] == 60 && b[1] == 47) {
        return None;
    }
    proof {
        lemma_find_from_props(b@, 62, 0);
        assert(b@[0] == 60 && b@[0int + 1] == 47);
    }
    let end = match find_byte_from(b, 62, 0) {
        Some(e) => e,
        None => vstd::pervasive::unreached(),
    };
    proof {
        crate::text::lemma_valid(text);
        crate::text::lemma_after_ascii_boundary(text, end + 1);
    }
    let tag = span.slice(0, end + 1);
    Some(ClosingTagSpan { span: tag, name_length: end - 2 })
}

impl<'a> Node<'a> {
    /// The text of the node.
    pub fn span(&self) -> (r: Span<'a>)
        requires
            node_wf(*self),
        ensures
            *self matches Node::Text(_, c) ==> r == cdata_raw_span(c),
            *self matches Node::Comment(c) ==> r == c.span(),
            *self matches Node::Element(e) ==> r.start() == e.opener.span.start() && r.root_text()
                == e.opener.span.root_text() && (e.closer matches Some(c) ==> r.start() + r@.len() == c.span.start()
                + c.span@.len() && (c.span@.len() > 0 ==> r@.len() > 0 && r@[r@.len() - 1] == c.span@[c.span@.len() - 1])) && (e.closer is None ==> r == e.opener.span),
    {
        match self {
            Self::Comment(span) => span.whole(),
            Self::Text(_, span) => span.as_raw_span(),
            Self::Element(element) => element.span(),
        }
    }

    /// Reads one node from the start of `input` into `arena`: text up to the next tag, a
    /// comment, character data, or an element with its children. `Ok(None)` when `input` is
    /// empty. What is read is `read_node` of the input, and the stored node's tree is the tree
    /// read.
    ///
    /// A comment or character data block is searched for from the opener's length before
    /// `input`; where the top-level text holds an opener right after the same opener, the block
    /// found starts before `input` and the byte count it gives can run past the end of `input`,
    /// where slicing the rest of the input would panic. Such text is left out by `requires`
    /// (`check_openers_not_doubled` tests for it), as is a closing tag without its `>`, on
    /// which the search for the `>` fails.
    pub fn parse(input: &Span<'a>, arena: &mut VecNodeArena<'a>) -> (r: Result<Option<Read<NodeIndex>>, NodeParseError<'a>>)
        requires
            closers_close(input@),
            openers_not_doubled(bytes_of(input.root_text())),
        ensures
            extends(old(arena)@, final(arena)@),
            arena_ok(old(arena)@) ==> arena_ok(final(arena)@),
            input@.len() == 0 ==> (r matches Ok(None) && final(arena)@ == old(arena)@),
            r matches Ok(None) ==> input@.len() == 0,
            r matches Ok(Some(rd)) ==> {
                &&& 0 < rd.consumed_bytes <= input@.len()
                &&& crate::text::ascii_cut(input@, rd.consumed_bytes as int)
                &&& rd.value.0 == final(arena)@.len() - 1
                &&& final(arena)@[rd.value.0 as int] matches Some(node)
                &&& node_wf(node)
            },
            input@.len() > 0 && input@[0] != 60 ==> {
                &&& r matches Ok(Some(rd))
                &&& rd.consumed_bytes == text_end(input@)
                &&& final(arena)@[rd.value.0 as int] matches Some(Node::Text(data, CharacterDataSpan::AbruptNode(s)))
                &&& s@ == input@.subrange(0, text_end(input@))
                &&& s.start() == input.start()
                &&& bytes_of(character_data_raw(data)) == s@
            },
            forall|e: SectionOpenerReadError<'a>| #[trigger] opener_read(*input, Err(e)) ==> (r matches Err(NodeParseError::BadSectionOpener(e2)) && e2 == e),
            input@.len() > 0 && input@[0] == 60 && starts_with(input@, opener_of(BlockKind::Comment)) ==> match block_after(
                BlockKind::Comment,
                bytes_of(input.root_text()),
                input.start() as int,
                input@.len() as int,
            ) {
                None => r matches Err(NodeParseError::NonNestingDidNotClose(s, NonNestingSection::Comment))
                    && s@ == opener_of(BlockKind::Comment),
                Some((st, l)) => (r matches Ok(Some(rd)) && rd.consumed_bytes == l && (final(arena)@[rd.value.0 as int] matches Some(Node::Comment(c))
                    && c.span().start() == st)),
            },
            arena_ok(old(arena)@) ==> match read_node(bytes_of(input.root_text()), input.start() as int, input@.len() as int) {
                None => r is Err,
                Some(None) => r matches Ok(None),
                Some(Some((t, c))) => r matches Ok(Some(rd)) && rd.consumed_bytes == c && tree_of(
                    final(arena)@,
                    rd.value.0 as int,
                ) == t,
            },
        decreases input@.len(), 1int,
    {
        let text = input.as_str();
        let b = text.as_bytes();
        let n = b.len();
        let o = input.offset();
        if n == 0 {
            return Ok(None);
        }
        proof {
            crate::text::lemma_valid(text);
            lemma_block_lengths(BlockKind::Comment);
            lemma_block_lengths(BlockKind::CharacterData);
        }
        let opened = SectionOpener::parse(input);
        let opened = match opened {
            Err(e) => return Err(NodeParseError::BadSectionOpener(e)),
            Ok(o) => o,
        };
        let node = match opened {
            Some(SectionOpener::Tag(opener)) => {
                match Element::parse_after_opening(input, opener, arena) {
                    Ok(element) => Node::Element(element),
                    Err(e) => return Err(e),
                }
            },
            Some(SectionOpener::Comment(opener)) => {
                proof {
                    assert(input@.subrange(0, 4) =~= bytes_of(input.root_text()).subrange(o as int, o + 4));
                    lemma_block_in_input(BlockKind::Comment, bytes_of(input.root_text()), o as int, n as int);
                }
                match CommentSpan::parse_after_opening(input) {
                    Ok(Some(c)) => Node::Comment(c),
                    _ => return Err(NodeParseError::NonNestingDidNotClose(opener, NonNestingSection::Comment)),
                }
            },
            Some(SectionOpener::CharacterData(opener)) => {
                proof {
                    assert(input@.subrange(0, 9) =~= bytes_of(input.root_text()).subrange(o as int, o + 9));
                    lemma_block_in_input(BlockKind::CharacterData, bytes_of(input.root_text()), o as int, n as int);
                }
                match CharacterDataBlockSpan::parse_after_opening(input) {
                    Ok(Some(c)) => {
                        let cw = c.whole();
                        let _ = cw.offset();
                        let content = c.content();
                        Node::Text(XmlCharacterData::Plain(content.as_str()), CharacterDataSpan::block(c))
                    },
                    _ => return Err(NodeParseError::NonNestingDidNotClose(opener, NonNestingSection::UnescapedCharacterData)),
                }
            },
            None => {
                proof { lemma_find_from_props(b@, 60, 0); }
                let end = match find_byte_from(b, 60, 0) {
                    Some(i) => i,
                    None => n,
                };
                proof { crate::text::lemma_ascii_boundary(text, end as int); }
                let t = input.slice(0, end);
                let t_text = t.as_str();
                Node::Text(XmlCharacterData::maybe_escaping(t_text), CharacterDataSpan::abrupt_node(t))
            },
        };
        proof {
            if arena_ok(old(arena)@) {
                lemma_arena_ok_push(arena@, node);
            }
        }
        let node_span = node.span();
        let _ = node_span.offset();
        let consumed = node_span.length();
        proof {
            assert(node_span.root_text() == input.root_text());
            assert(node_span.start() == input.start());
            assert(node_span@ =~= input@.subrange(0, consumed as int));
        }
        let ghost pre = arena@;
        let ghost g_node = node;
        let index = arena.add(node);
        proof {
            if arena_ok(old(arena)@) {
                if let Node::Element(e) = g_node {
                    lemma_element_tree_pushed(pre, e);
                }
            }
        }
        Ok(Some(Read { value: index, consumed_bytes: consumed }))
    }
}

impl<'a> Element<'a> {
    /// Reads the children and closing tag of the element whose opening tag starts `input`.
    fn parse_after_opening(input: &Span<'a>, opener: OpeningTagSpan<'a>, arena: &mut VecNodeArena<'a>) -> (r: Result<Element<'a>, NodeParseError<'a>>)
        requires
            closers_close(input@),
            openers_not_doubled(bytes_of(input.root_text())),
            opener.wf(),
            opener.span.start() == input.start(),
            opener.span.root_text() == input.root_text(),
            0 < opener.span@.len() <= input@.len(),
            opener.span@ == input@.subrange(0, opener.span@.len() as int),
            opener.span@[opener.span@.len() - 1] == 62,
        ensures
            extends(old(arena)@, final(arena)@),
            arena_ok(old(arena)@) ==> arena_ok(final(arena)@),
            r matches Ok(e) ==> children_below(Node::Element(e), final(arena)@.len() as int, final(arena)@),
            r matches Ok(e) ==> {
                &&& node_wf(Node::Element(e))
                &&& e.opener.span == opener.span
                &&& match e.closer {
                    None => true,
                    Some(c) => c.span.root_text() == input.root_text() && input.start() < c.span.start()
                        && c.span.start() + c.span@.len() <= input.start() + input@.len() && c.span@[c.span@.len() - 1] == 62,
                }
            },
            opener.span@[opener.span@.len() - 2] == 47 ==> (r matches Ok(e) && e.closer is None && e.children@.len() == 0),
            opener.span@.subrange(1, opener.name_len() + 1int) == seq![63u8, 120, 109, 108] ==> (r matches Ok(e) && e.closer is None
                && e.children@.len() == 0),
            r matches Ok(e) ==> (e.closer matches Some(c) ==> c.wf() && c.span@.subrange(2, c.name_length + 2)
                == opener.span@.subrange(1, opener.name_len() + 1int)),
            arena_ok(old(arena)@) ==> match read_element(
                bytes_of(input.root_text()),
                input.start() as int,
                input@.len() as int,
                opener.span@.len() as int,
                opener.name_len() as int,
            ) {
                None => r is Err,
                Some((t, c)) => r matches Ok(e) && element_tree(final(arena)@, e, final(arena)@.len() as int) == t
                    && (e.closer is None ==> c == opener.span@.len())
                    && (e.closer matches Some(cl) ==> cl.span.start() + cl.span@.len() == input.start() + c),
            },
        decreases input@.len(), 0int,
    {
        let text = input.as_str();
        let _ = input.offset();
        let ghost root = bytes_of(input.root_text());
        let ghost s = input.start() as int;
        let ghost n = input@.len() as int;
        let ghost name_b = opener.span@.subrange(1, opener.name_len() + 1int);
        proof {
            crate::text::lemma_valid(text);
            assert(root.subrange(s + 1, s + opener.name_len() + 1) =~= name_b);
            assert(root[s + opener.span@.len() - 2] == opener.span@[opener.span@.len() - 2]);
        }
        if opener.is_self_closing() {
            let e = Element { opener, closer: None, children: Vec::new() };
            proof {
                lemma_element_tree_children(arena@, e);
                assert(trees_at(arena@, e.children@) =~= Seq::empty());
            }
            return Ok(e);
        }
        let mut children: Vec<NodeIndex> = Vec::new();
        let _il = input.length();
        proof { vstd::utf8::is_char_boundary_start_end_of_seq(input@); }
        let ol = opener.span.length();
        proof {
            assert(input@[ol - 1] == opener.span@[ol - 1]);
            crate::text::lemma_after_ascii_boundary(text, ol as int);
        }
        let mut after = input.range(SpanSlicer::From(ol));
        let name = opener.get_name_span();
        let qxml = "?xml";
        proof {
            reveal_strlit("?xml");
            crate::text::lemma_ascii_bytes(qxml);
            assert(bytes_of(qxml) =~= seq![63u8, 120, 109, 108]);
        }
        if crate::text::str_eq(name.as_str(), qxml) {
            let e = Element { opener, closer: None, children };
            proof {
                assert(name_b == xml_declaration_name());
                lemma_element_tree_children(arena@, e);
                assert(trees_at(arena@, e.children@) =~= Seq::empty());
            }
            return Ok(e);
        }
        proof {
            lemma_prepend_children(Seq::empty(), XmlTree::Comment, read_children(root, s, n, ol as int, name_b));
            assert(trees_at(arena@, children@) =~= Seq::empty());
            assert(name_b != xml_declaration_name());
        }
        loop
            invariant
                root == bytes_of(input.root_text()),
                s == input.start(),
                n == input@.len(),
                input@ == root.subrange(s, s + n),
                0 <= s,
                s + n <= root.len(),
                name_b == opener.span@.subrange(1, opener.name_len() + 1int),
                ol == opener.span@.len(),
                read_element(root, s, n, ol as int, opener.name_len() as int) == match read_children(root, s, n, ol as int, name_b) {
                    None => None,
                    Some((kids, stop)) => Some((XmlTree::Element { name: name_b, closed: true, children: kids }, stop)),
                },
                arena_ok(old(arena)@) ==> read_children(root, s, n, ol as int, name_b) == prepend_children(
                    trees_at(arena@, children@),
                    read_children(root, s, n, after.start() - s, name_b),
                ),
                closers_close(input@),
                openers_not_doubled(bytes_of(input.root_text())),
                opener.wf(),
                opener.span.start() == input.start(),
                opener.span.root_text() == input.root_text(),
                after.root_text() == input.root_text(),
                input.start() < after.start(),
                after.start() + after@.len() == input.start() + input@.len(),
                after@ == input@.subrange(after.start() - input.start(), input@.len() as int),
                extends(old(arena)@, arena@),
                arena_ok(old(arena)@) ==> arena_ok(arena@),
                forall|k: int| 0 <= k < children@.len() ==> (#[trigger] children@[k]).0 < arena@.len() && arena@[children@[k].0 as int] is Some,
                opener.span@[opener.span@.len() - 2] != 47,
                opener.span@.subrange(1, opener.name_len() + 1int) != seq![63u8, 120, 109, 108],
            decreases after@.len(),
        {
            proof { lemma_closers_close_tail(input@, after.start() - input.start()); }
            proof { lemma_find_from_props(after@, 62, 0); }
            if let Some(closer) = parse_closing_tag(after) {
                let closer_name = closer.get_name_span();
                let opener_name = opener.get_name_span();
                proof {
                    assert(after@ =~= root.subrange(after.start() as int, s + n));
                    let e_end = find_from(after@, 62, 0)->Some_0;
                    assert(closer_name@ =~= after@.subrange(2, e_end));
                    assert(opener_name@ == name_b);
                    assert(read_children(root, s, n, after.start() - s, name_b) == if after@.subrange(2, e_end) == name_b {
                        Some((Seq::<XmlTree>::empty(), after.start() - s + e_end + 1))
                    } else {
                        None
                    });
                }
                if !crate::text::str_eq(closer_name.as_str(), opener_name.as_str()) {
                    return Err(NodeParseError::ElementDidNotClose(opener));
                }
                let e = Element { opener, closer: Some(closer), children };
                proof {
                    lemma_element_tree_children(arena@, e);
                    if let Some((more, stop)) = read_children(root, s, n, after.start() - s, name_b) {
                        assert(more =~= Seq::<XmlTree>::empty());
                        assert(trees_at(arena@, children@) + more =~= trees_at(arena@, children@));
                    }
                }
                return Ok(e);
            }
            let ghost before = arena@;
            proof {
                assert(after@ =~= root.subrange(after.start() as int, s + n));
            }
            match Node::parse(&after, arena) {
                Err(e) => return Err(e),
                Ok(None) => return Err(NodeParseError::ElementDidNotClose(opener)),
                Ok(Some(next)) => {
                    proof {
                        if arena_ok(old(arena)@) {
                            let t = tree_of(arena@, next.value.0 as int);
                            lemma_trees_at_extends(before, arena@, children@);
                            lemma_prepend_children(trees_at(before, children@), t,
                                read_children(root, s, n, after.start() - s + next.consumed_bytes, name_b));
                            assert(trees_at(arena@, children@.push(next.value)) =~= trees_at(arena@, children@).push(t));
                        }
                    }
                    let after_text = after.as_str();
                    let _al = after.length();
                    proof {
                        crate::text::lemma_valid(after_text);
                        crate::text::lemma_ascii_cut(after_text, next.consumed_bytes as int);
                        vstd::utf8::is_char_boundary_start_end_of_seq(after@);
                    }
                    after = after.range(SpanSlicer::From(next.consumed_bytes));
                    proof {
                        assert forall|k: int| 0 <= k < children@.len() implies (#[trigger] children@[k]).0 < arena@.len() && arena@[children@[k].0 as int] is Some by {
                            assert(before[children@[k].0 as int] is Some);
                        }
                    }
                    children.push(next.value);
                },
            }
        }
    }
}

/// Whether every `</` in `b` has a `>` after it.
pub fn check_closers_close(b: &[u8]) -> (r: bool)
    ensures
        r == closers_close(b@),
{
    let n = b.len();
    let mut i: usize = n;
    let mut gt = false;
    while i > 0
        invariant
            n == b@.len(),
            i <= n,
            gt == exists|j: int| i <= j < n && b@[j] == 62,
            forall|k: int| i <= k && k + 1 < n && b@[k] == 60 && #[trigger] b@[k + 1] == 47 ==> exists|j: int| k < j < n && b@[j] == 62,
        decreases i,
    {
        i = i - 1;
        if b[i] == 60 && i + 1 < n && b[i + 1] == 47 && !gt {
            assert(!closers_close(b@)) by {
                if closers_close(b@) {
                    assert(b@[i as int + 1] == 47);
                    let j = choose|j: int| i < j < n && b@[j] == 62;
                    assert(i + 1 <= j < n && b@[j] == 62);
                }
            }
            return false;
        }
        if b[i] == 62 {
            gt = true;
        }
    }
    true
}

/// Whether no block opener in `b` comes right after the same opener.
pub fn check_openers_not_doubled(b: &[u8]) -> (r: bool)
    ensures
        r == openers_not_doubled(b@),
{
    let comment = BlockKind::Comment.opener().as_bytes();
    let cdata = BlockKind::CharacterData.opener().as_bytes();
    proof {
        lemma_block_lengths(BlockKind::Comment);
        lemma_block_lengths(BlockKind::CharacterData);
    }
    let n = b.len();
    let mut o: usize = 0;
    while o < n
        invariant
            n == b@.len(),
            o <= n,
            comment@ == opener_of(BlockKind::Comment),
            cdata@ == opener_of(BlockKind::CharacterData),
            comment@.len() == 4,
            cdata@.len() == 9,
            forall|p: int| 0 <= p < o && crate::text::occurs_at(b@, opener_of(BlockKind::Comment), p) && p >= 4
                ==> !#[trigger] crate::text::occurs_at(b@, opener_of(BlockKind::Comment), p - 4),
            forall|p: int| 0 <= p < o && crate::text::occurs_at(b@, opener_of(BlockKind::CharacterData), p) && p >= 9
                ==> !#[trigger] crate::text::occurs_at(b@, opener_of(BlockKind::CharacterData), p - 9),
        decreases n - o,
    {
        if o >= 4 && crate::text::bytes_occur_at(b, comment, o) && crate::text::bytes_occur_at(b, comment, o - 4) {
            return false;
        }
        if o >= 9 && crate::text::bytes_occur_at(b, cdata, o) && crate::text::bytes_occur_at(b, cdata, o - 9) {
            return false;
        }
        o = o + 1;
    }
    proof {
        assert forall|p: int| #![trigger crate::text::occurs_at(b@, opener_of(BlockKind::Comment), p)]
            crate::text::occurs_at(b@, opener_of(BlockKind::Comment), p) && p >= 4 implies !crate::text::occurs_at(b@, opener_of(BlockKind::Comment), p - 4) by {
            assert(p < n);
        }
        assert forall|p: int| #![trigger crate::text::occurs_at(b@, opener_of(BlockKind::CharacterData), p)]
            crate::text::occurs_at(b@, opener_of(BlockKind::CharacterData), p) && p >= 9 implies !crate::text::occurs_at(b@, opener_of(BlockKind::CharacterData), p - 9) by {
            assert(p < n);
        }
    }
    true
}

} // verus!
