//! Block spans: comments (`<!-- … -->`) and unescaped character data (`<![CDATA[ … ]]>`),
//! which run from an opener to the first closer after it.
use vstd::prelude::*;
use vstd::utf8::is_char_boundary;
use vstd::slice::slice_subrange;
use crate::text::{
    ascii_bytes, bytes_of, find_seq_from, bytes_occur_at, find_bytes_from, lemma_ascii_bytes,
    lemma_find_seq_from_props, occurs_at,
};
use super::span::{Span, SpanSlicer, slicer_bounds, clamped_start, clamped_length};

verus! {

/// The two kinds of block.
#[derive(Debug, Clone, Copy, PartialEq, Eq, Structural)]
pub enum BlockKind {
    Comment,
    CharacterData,
}

/// The bytes that open a block.
pub open spec fn opener_of(k: BlockKind) -> Seq<u8> {
    match k {
        BlockKind::Comment => ascii_bytes("<!--"@),
        BlockKind::CharacterData => ascii_bytes("<![CDATA["@),
    }
}

/// The bytes that close a block.
pub open spec fn closer_of(k: BlockKind) -> Seq<u8> {
    match k {
        BlockKind::Comment => ascii_bytes("-->"@),
        BlockKind::CharacterData => ascii_bytes("]]>"@),
    }
}

/// The opener and closer lengths.
pub proof fn lemma_block_lengths(k: BlockKind)
    ensures
        opener_of(k).len() == (if k == BlockKind::Comment { 4int } else { 9int }),
        closer_of(k).len() == 3,
        opener_of(k)[0] == 60,
        forall|i: int| 0 <= i < opener_of(k).len() ==> #[trigger] opener_of(k)[i] < 128,
        forall|i: int| 0 <= i < closer_of(k).len() ==> #[trigger] closer_of(k)[i] < 128,
{
    reveal_strlit("<!--");
    reveal_strlit("<![CDATA[");
    reveal_strlit("-->");
    reveal_strlit("]]>");
}

impl BlockKind {
    /// The text that opens this kind of block.
    pub fn opener(self) -> (r: &'static str)
        ensures
            bytes_of(r) == opener_of(self),
    {
        proof {
            reveal_strlit("<!--");
            reveal_strlit("<![CDATA[");
            lemma_ascii_bytes("<!--");
            lemma_ascii_bytes("<![CDATA[");
        }
        match self {
            BlockKind::Comment => "<!--",
            BlockKind::CharacterData => "<![CDATA[",
        }
    }

    /// The text that closes this kind of block.
    pub fn closer(self) -> (r: &'static str)
        ensures
            bytes_of(r) == closer_of(self),
    {
        proof {
            reveal_strlit("-->");
            reveal_strlit("]]>");
            lemma_ascii_bytes("-->");
            lemma_ascii_bytes("]]>");
        }
        match self {
            BlockKind::Comment => "-->",
            BlockKind::CharacterData => "]]>",
        }
    }

    /// The name of this kind of block.
    pub fn name(self) -> (r: &'static str)
        ensures
            r@ == (match self {
                BlockKind::Comment => "comment"@,
                BlockKind::CharacterData => "cdata"@,
            }),
    {
        match self {
            BlockKind::Comment => "comment",
            BlockKind::CharacterData => "cdata",
        }
    }
}

/// An end of a block.
#[derive(Debug, Clone, Copy, PartialEq, Eq, Structural)]
pub enum Side {
    Opener,
    Closer,
}

/// The opening end of a block, as a type.
#[derive(Debug, Clone, Copy)]
pub struct Opener;

/// The closing end of a block, as a type.
#[derive(Debug, Clone, Copy)]
pub struct Closer;

impl Opener {
    /// The end this is.
    pub fn side(&self) -> (r: Side)
        ensures
            r == Side::Opener,
    {
        Side::Opener
    }

    /// The end's name.
    pub fn name(&self) -> (r: &'static str)
        ensures
            r@ == "opener"@,
    {
        "opener"
    }
}

impl Closer {
    /// The end this is.
    pub fn side(&self) -> (r: Side)
        ensures
            r == Side::Closer,
    {
        Side::Closer
    }

    /// The end's name.
    pub fn name(&self) -> (r: &'static str)
        ensures
            r@ == "closer"@,
    {
        "closer"
    }
}

/// A block whose opener or closer is not what it should be.
#[derive(Debug, Clone, Copy, PartialEq, Eq)]
pub struct BadBlockSpanSide<'a> {
    /// What was found where the opener or closer should be.
    pub got: Span<'a>,
    /// Which end was wrong.
    pub side: Side,
    /// The kind of block being read.
    pub kind: BlockKind,
}

impl<'a> BadBlockSpanSide<'a> {
    /// The error for `got` found at `side` of a `kind` block.
    pub fn new(got: Span<'a>, side: Side, kind: BlockKind) -> (r: Self)
        ensures
            r == (BadBlockSpanSide { got, side, kind }),
    {
        BadBlockSpanSide { got, side, kind }
    }
}

/// A block whose closer is wrong.
#[derive(Debug, Clone, Copy, PartialEq, Eq)]
pub enum CloserError<'a> {
    /// The closer also appears inside the block, at this index of the content.
    PresentWithin { starting_at: usize },
    /// The block does not end with the closer.
    NotTerminating(BadBlockSpanSide<'a>),
}

/// Why a span is not a block.
#[derive(Debug, Clone, Copy, PartialEq, Eq)]
pub enum BlockSpanConstructionError<'a> {
    Opener(BadBlockSpanSide<'a>),
    Closer(CloserError<'a>),
}

/// The inputs on which checking a block completes: the opener's length is a character
/// boundary; with the right opener, so is the closer's start; with the right closer, the
/// opener and closer do not overlap.
pub open spec fn block_checkable(k: BlockKind, b: Seq<u8>) -> bool {
    &&& opener_of(k).len() <= b.len()
    &&& is_char_boundary(b, opener_of(k).len() as int)
    &&& b.subrange(0, opener_of(k).len() as int) == opener_of(k) ==> {
        &&& closer_of(k).len() <= b.len()
        &&& is_char_boundary(b, b.len() - closer_of(k).len())
        &&& b.subrange(b.len() - closer_of(k).len(), b.len() as int) == closer_of(k) ==> opener_of(k).len()
            + closer_of(k).len() <= b.len()
    }
}

/// The content between opener and closer.
pub open spec fn block_content(k: BlockKind, b: Seq<u8>) -> Seq<u8> {
    b.subrange(opener_of(k).len() as int, b.len() - closer_of(k).len())
}

/// Whether `b` is a block: opener, then content without the closer, then closer.
pub open spec fn is_block(k: BlockKind, b: Seq<u8>) -> bool {
    &&& opener_of(k).len() + closer_of(k).len() <= b.len()
    &&& b.subrange(0, opener_of(k).len() as int) == opener_of(k)
    &&& b.subrange(b.len() - closer_of(k).len(), b.len() as int) == closer_of(k)
    &&& find_seq_from(block_content(k, b), closer_of(k), 0) is None
}

/// Checks that `span` is a `kind` block.
pub fn new_block<'a>(kind: BlockKind, span: Span<'a>) -> (r: Result<Span<'a>, BlockSpanConstructionError<'a>>)
    requires
        block_checkable(kind, span@),
    ensures
        r matches Ok(s) ==> s == span && is_block(kind, span@),
        r is Ok <==> is_block(kind, span@),
        span@.subrange(0, opener_of(kind).len() as int) != opener_of(kind) ==> (r matches Err(
            BlockSpanConstructionError::Opener(e),
        ) && e.side == Side::Opener && e.got@ == span@.subrange(0, opener_of(kind).len() as int)),
        r matches Err(BlockSpanConstructionError::Closer(CloserError::PresentWithin { starting_at })) ==>
            find_seq_from(block_content(kind, span@), closer_of(kind), 0) == Some(starting_at as int),
{
    let text = span.as_str();
    proof {
        lemma_block_lengths(kind);
        crate::text::lemma_valid(text);
        vstd::utf8::is_char_boundary_start_end_of_seq(span@);
    }
    let opener = kind.opener();
    let closer = kind.closer();
    let ol = opener.as_bytes().len();
    let cl = closer.as_bytes().len();
    let n = span.length();
    let supposed_opener = span.slice(0, ol);
    if !crate::text::bytes_eq(supposed_opener.as_str().as_bytes(), opener.as_bytes()) {
        return Err(BlockSpanConstructionError::Opener(BadBlockSpanSide::new(supposed_opener, Side::Opener, kind)));
    }
    let supposed_closer = span.slice(n - cl, cl);
    assert(span@.subrange((n - cl) as int, (n - cl) + cl) =~= span@.subrange(n - cl, n as int));
    if !crate::text::bytes_eq(supposed_closer.as_str().as_bytes(), closer.as_bytes()) {
        return Err(
            BlockSpanConstructionError::Closer(
                CloserError::NotTerminating(BadBlockSpanSide::new(supposed_closer, Side::Closer, kind)),
            ),
        );
    }
    let content = span.slice(ol, n - cl - ol);
    assert(content@ =~= block_content(kind, span@));
    match find_bytes_from(content.as_str().as_bytes(), closer.as_bytes(), 0) {
        Some(i) => Err(BlockSpanConstructionError::Closer(CloserError::PresentWithin { starting_at: i })),
        None => Ok(span),
    }
}


/// Where a block that is opened at the start of `input` begins: the opener's length before
/// the input's start, clamped to the start of the top-level text.
pub open spec fn extended_start(k: BlockKind, o: int) -> int {
    clamped_start(o, -(opener_of(k).len() as int))
}

/// The block found after an opener, where the input (starting at `o` in the top-level text `root`,
/// `l` bytes long) is first extended backwards by the opener's length: `None` when the
/// extended text does not start with the opener or holds no closer after it, else the extended
/// text up to and including the first closer, as `(start, length)` in `root`.
pub open spec fn block_after(k: BlockKind, root: Seq<u8>, o: int, l: int) -> Option<(int, int)> {
    let eo = extended_start(k, o);
    let ext = root.subrange(eo, o + l);
    if ext.len() < opener_of(k).len() || ext.subrange(0, opener_of(k).len() as int) != opener_of(k) {
        None
    } else {
        match find_seq_from(ext, closer_of(k), opener_of(k).len() as int) {
            None => None,
            Some(c) => Some((eo, c + closer_of(k).len())),
        }
    }
}

/// Finds the block that `input` opens, as [`CommentSpan::parse_after_opening`] and
/// [`CharacterDataBlockSpan::parse_after_opening`] do, with any failure as `None`.
pub fn block_after_opening<'a>(kind: BlockKind, input: &Span<'a>) -> (r: Option<Span<'a>>)
    ensures
        match block_after(kind, bytes_of(input.root_text()), input.start() as int, input@.len() as int) {
            None => r is None,
            Some((s, l)) => r matches Some(sp) && sp.root_text() == input.root_text() && sp.start() == s
                && sp@ == bytes_of(input.root_text()).subrange(s, s + l),
        },
{
    proof { lemma_block_lengths(kind); }
    let root = input.root();
    let o = input.offset();
    let l = input.length();
    let rb = root.as_bytes();
    let opener = kind.opener();
    let closer = kind.closer();
    let ol = opener.as_bytes().len();
    let cl = closer.as_bytes().len();
    let rn = rb.len();
    let eo = if o >= ol { o - ol } else { 0 };
    let end = o + l;
    let ext = slice_subrange(rb, eo, end);
    if ext.len() < ol {
        return None;
    }
    let head = slice_subrange(ext, 0, ol);
    assert(head@ =~= ext@.subrange(0, ol as int));
    if !crate::text::bytes_eq(head, opener.as_bytes()) {
        return None;
    }
    proof { lemma_find_seq_from_props(ext@, closer_of(kind), ol as int); }
    match find_bytes_from(ext, closer.as_bytes(), ol) {
        None => None,
        Some(c) => {
            proof {
                crate::text::lemma_valid(root);
                assert(rb@[eo as int] == ext@[0]);
                crate::text::lemma_ascii_boundary(root, eo as int);
                assert(ext@.subrange(c as int, c + cl) == closer_of(kind));
                assert(ext@[c + cl - 1] == closer_of(kind)[cl - 1]);
                assert(rb@[eo + c + cl - 1] == ext@[c + cl - 1]);
                crate::text::lemma_after_ascii_boundary(root, eo + c + cl);
            }
            let sp = Span::new_unchecked(root, eo, c + cl);
            Some(sp)
        },
    }
}

/// A span over a block of one kind.
pub trait BlockSpan<'a> {
    /// The kind of block.
    fn kind(&self) -> BlockKind;

    /// The whole block.
    fn as_span(&self) -> Span<'a>;
}

/// The opener, closer and content of a block span.
fn block_parts<'a>(kind: BlockKind, span: &Span<'a>) -> (r: (Span<'a>, Span<'a>, Span<'a>))
    requires
        is_block(kind, span@),
    ensures
        r.0@ == opener_of(kind),
        r.1@ == closer_of(kind),
        r.2@ == block_content(kind, span@),
        r.0.start() == span.start(),
        r.2.start() == span.start() + opener_of(kind).len(),
        r.1.start() == span.start() + span@.len() - closer_of(kind).len(),
{
    proof { lemma_block_lengths(kind); }
    let text = span.as_str();
    proof {
        crate::text::lemma_valid(text);
        vstd::utf8::is_char_boundary_start_end_of_seq(span@);
        assert(span@.subrange(0, opener_of(kind).len() as int)[opener_of(kind).len() - 1] == span@[opener_of(kind).len() - 1]);
        assert(span@.subrange(span@.len() - closer_of(kind).len(), span@.len() as int)[0] == span@[span@.len() - closer_of(kind).len()]);
        crate::text::lemma_after_ascii_boundary(text, opener_of(kind).len() as int);
        crate::text::lemma_ascii_boundary(text, span@.len() - closer_of(kind).len());
    }
    let ol = kind.opener().as_bytes().len();
    let cl = kind.closer().as_bytes().len();
    let n = span.length();
    let opener = span.slice(0, ol);
    let closer = span.slice(n - cl, cl);
    let content = span.slice(ol, n - cl - ol);
    assert(opener@ =~= opener_of(kind));
    assert(closer@ =~= closer_of(kind));
    (opener, closer, content)
}

/// A comment, `<!-- … -->`.
#[derive(Debug, Clone, Copy, PartialEq, Eq)]
pub struct CommentSpan<'a>(Span<'a>);

/// A block of unescaped character data, `<![CDATA[ … ]]>`.
#[derive(Debug, Clone, Copy, PartialEq, Eq)]
pub struct CharacterDataBlockSpan<'a>(Span<'a>);

impl<'a> BlockSpan<'a> for CommentSpan<'a> {
    fn kind(&self) -> BlockKind {
        BlockKind::Comment
    }

    fn as_span(&self) -> Span<'a> {
        self.whole()
    }
}

impl<'a> BlockSpan<'a> for CharacterDataBlockSpan<'a> {
    fn kind(&self) -> BlockKind {
        BlockKind::CharacterData
    }

    fn as_span(&self) -> Span<'a> {
        self.whole()
    }
}

impl<'a> CommentSpan<'a> {
    #[verifier::type_invariant]
    spec fn inv(self) -> bool {
        is_block(BlockKind::Comment, self.0@)
    }

    /// The whole comment.
    pub closed spec fn span(self) -> Span<'a> {
        self.0
    }

    /// The whole comment.
    pub fn whole(&self) -> (r: Span<'a>)
        ensures
            r == self.span(),
    {
        self.0
    }

    /// The comment that `span` is.
    pub fn new(span: Span<'a>) -> (r: Result<Self, BlockSpanConstructionError<'a>>)
        requires
            block_checkable(BlockKind::Comment, span@),
        ensures
            r is Ok <==> is_block(BlockKind::Comment, span@),
            r matches Ok(c) ==> c.span() == span,
    {
        match new_block(BlockKind::Comment, span) {
            Ok(s) => Ok(CommentSpan(s)),
            Err(e) => Err(e),
        }
    }

    /// The `<!--`.
    pub fn opener(&self) -> (r: Span<'a>)
        ensures
            r@ == opener_of(BlockKind::Comment),
            r.start() == self.span().start(),
    {
        proof { use_type_invariant(self); }
        block_parts(BlockKind::Comment, &self.0).0
    }

    /// The `-->`.
    pub fn closer(&self) -> (r: Span<'a>)
        ensures
            r@ == closer_of(BlockKind::Comment),
            r.start() == self.span().start() + self.span()@.len() - 3,
    {
        proof { use_type_invariant(self); lemma_block_lengths(BlockKind::Comment); }
        block_parts(BlockKind::Comment, &self.0).1
    }

    /// The text between opener and closer.
    pub fn content(&self) -> (r: Span<'a>)
        ensures
            r@ == block_content(BlockKind::Comment, self.span()@),
            r.start() == self.span().start() + 4,
    {
        proof { use_type_invariant(self); lemma_block_lengths(BlockKind::Comment); }
        block_parts(BlockKind::Comment, &self.0).2
    }

    /// Finds the comment that `input` opens: `input` is first extended backwards by the length of
    /// the opener, which must then start it.
    pub fn parse_after_opening(input: &Span<'a>) -> (r: Result<Option<Self>, BadBlockSpanSide<'a>>)
        requires
            input@.len() >= 4,
            input@.subrange(0, 4) == opener_of(BlockKind::Comment),
        ensures
            r matches Ok(Some(c)) ==> block_after(
                BlockKind::Comment,
                bytes_of(input.root_text()),
                input.start() as int,
                input@.len() as int,
            ) matches Some((s, l)) && c.span().start() == s && c.span()@.len() == l
                && c.span().root_text() == input.root_text(),
            r matches Ok(None) || r is Err ==> block_after(
                BlockKind::Comment,
                bytes_of(input.root_text()),
                input.start() as int,
                input@.len() as int,
            ) is None,
    {
        proof { lemma_block_lengths(BlockKind::Comment); }
        let _o = input.offset();
        match block_after_opening(BlockKind::Comment, input) {
            None => Ok(None),
            Some(sp) => {
                proof {
                    let (s, n) = block_after(BlockKind::Comment, bytes_of(input.root_text()), input.start() as int, input@.len() as int).unwrap();
                    lemma_found_block_is_block(BlockKind::Comment, bytes_of(input.root_text()), input.start() as int, input@.len() as int, s, n, sp@);
                }
                Ok(Some(CommentSpan(sp)))
            },
        }
    }
}

impl<'a> CharacterDataBlockSpan<'a> {
    #[verifier::type_invariant]
    spec fn inv(self) -> bool {
        is_block(BlockKind::CharacterData, self.0@)
    }

    /// The whole block.
    pub closed spec fn span(self) -> Span<'a> {
        self.0
    }

    /// The whole block.
    pub fn whole(&self) -> (r: Span<'a>)
        ensures
            r == self.span(),
    {
        self.0
    }

    /// The character data block that `span` is.
    pub fn new(span: Span<'a>) -> (r: Result<Self, BlockSpanConstructionError<'a>>)
        requires
            block_checkable(BlockKind::CharacterData, span@),
        ensures
            r is Ok <==> is_block(BlockKind::CharacterData, span@),
            r matches Ok(c) ==> c.span() == span,
    {
        match new_block(BlockKind::CharacterData, span) {
            Ok(s) => Ok(CharacterDataBlockSpan(s)),
            Err(e) => Err(e),
        }
    }

    /// The `<![CDATA[`.
    pub fn opener(&self) -> (r: Span<'a>)
        ensures
            r@ == opener_of(BlockKind::CharacterData),
            r.start() == self.span().start(),
    {
        proof { use_type_invariant(self); }
        block_parts(BlockKind::CharacterData, &self.0).0
    }

    /// The `]]>`.
    pub fn closer(&self) -> (r: Span<'a>)
        ensures
            r@ == closer_of(BlockKind::CharacterData),
            r.start() == self.span().start() + self.span()@.len() - 3,
    {
        proof { use_type_invariant(self); lemma_block_lengths(BlockKind::CharacterData); }
        block_parts(BlockKind::CharacterData, &self.0).1
    }

    /// The text between opener and closer.
    pub fn content(&self) -> (r: Span<'a>)
        ensures
            r@ == block_content(BlockKind::CharacterData, self.span()@),
            r.start() == self.span().start() + 9,
    {
        proof { use_type_invariant(self); lemma_block_lengths(BlockKind::CharacterData); }
        block_parts(BlockKind::CharacterData, &self.0).2
    }

    /// Finds the character data block that `input` opens: `input` is first extended backwards
    /// by the length of the opener, which must then start it.
    pub fn parse_after_opening(input: &Span<'a>) -> (r: Result<Option<Self>, BadBlockSpanSide<'a>>)
        requires
            input@.len() >= 9,
            input@.subrange(0, 9) == opener_of(BlockKind::CharacterData),
        ensures
            r matches Ok(Some(c)) ==> block_after(
                BlockKind::CharacterData,
                bytes_of(input.root_text()),
                input.start() as int,
                input@.len() as int,
            ) matches Some((s, l)) && c.span().start() == s && c.span()@.len() == l
                && c.span().root_text() == input.root_text(),
            r matches Ok(None) || r is Err ==> block_after(
                BlockKind::CharacterData,
                bytes_of(input.root_text()),
                input.start() as int,
                input@.len() as int,
            ) is None,
    {
        proof { lemma_block_lengths(BlockKind::CharacterData); }
        let _o = input.offset();
        match block_after_opening(BlockKind::CharacterData, input) {
            None => Ok(None),
            Some(sp) => {
                proof {
                    let (s, n) = block_after(BlockKind::CharacterData, bytes_of(input.root_text()), input.start() as int, input@.len() as int).unwrap();
                    lemma_found_block_is_block(BlockKind::CharacterData, bytes_of(input.root_text()), input.start() as int, input@.len() as int, s, n, sp@);
                }
                Ok(Some(CharacterDataBlockSpan(sp)))
            },
        }
    }
}

/// A block found after an opener is a well-formed block.
proof fn lemma_found_block_is_block(k: BlockKind, root: Seq<u8>, o: int, l: int, s: int, n: int, b: Seq<u8>)
    requires
        0 <= o,
        0 <= l,
        o + l <= root.len(),
        block_after(k, root, o, l) == Some((s, n)),
        b == root.subrange(s, s + n),
    ensures
        is_block(k, b),
        0 <= s,
        s + n <= root.len(),
        b.len() == n,
{
    lemma_block_lengths(k);
    let eo = extended_start(k, o);
    let ext = root.subrange(eo, o + l);
    let c = find_seq_from(ext, closer_of(k), opener_of(k).len() as int).unwrap();
    lemma_find_seq_from_props(ext, closer_of(k), opener_of(k).len() as int);
    let ol = opener_of(k).len() as int;
    let cl = closer_of(k).len() as int;
    assert(b =~= ext.subrange(0, c + cl));
    assert(b.subrange(0, ol) =~= ext.subrange(0, ol));
    assert(b.subrange(b.len() - cl, b.len() as int) =~= ext.subrange(c, c + cl));
    let content = block_content(k, b);
    lemma_find_seq_from_props(content, closer_of(k), 0);
    assert forall|j: int| 0 <= j implies !occurs_at(content, closer_of(k), j) by {
        if occurs_at(content, closer_of(k), j) {
            assert(content.subrange(j, j + cl) =~= ext.subrange(ol + j, ol + j + cl));
            assert(occurs_at(ext, closer_of(k), ol + j));
        }
    }
}

} // verus!
