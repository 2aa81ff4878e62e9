use am_osx_status::xml::block::{Closer, Opener, Side};
use am_osx_status::maybe_owned_string::MaybeOwnedString;
use am_osx_status::xml::arena::VecNodeArena;
use am_osx_status::xml::block::{BlockKind, BlockSpanConstructionError, CharacterDataBlockSpan, CloserError, CommentSpan};
use am_osx_status::xml::cdata::{
    unescape, CharDecodeResultOrStr, CharacterEntity, CharacterEntityDecodingError, Escape, EscapeChunksIterator,
    EscapeInfo, EscapeIterator, XmlCharacterData, XmlCharacterDataWithEscaping,
};
use am_osx_status::xml::node::{parse_closing_tag, Node, NodeParseError, Read};
use am_osx_status::xml::span::{InvalidCharacterBoundary, Span, SpanSliceError, SpanSlicer};
use am_osx_status::xml::tag::{AttributeParseError, SectionOpener, SectionOpenerReadError};

#[test]
fn cdata_basic() {
    let mut iter = EscapeChunksIterator::new("&gt;bottomless pit supervisor");
    assert_eq!(
        iter.next(),
        Some(CharDecodeResultOrStr::Char(Ok(EscapeInfo {
            character: Escape::Entity(CharacterEntity::GreaterThan),
            length: "&gt;".len(),
            position: 0
        })))
    );
    assert_eq!(iter.next(), Some(CharDecodeResultOrStr::Str("bottomless pit supervisor")));
    assert_eq!(iter.next(), None);

    let mut iter = EscapeChunksIterator::new("Alice &amp; Bob");
    assert_eq!(iter.next(), Some(CharDecodeResultOrStr::Str("Alice ")));
    assert_eq!(
        iter.next(),
        Some(CharDecodeResultOrStr::Char(Ok(EscapeInfo {
            character: Escape::Entity(CharacterEntity::Ampersand),
            length: "&amp;".len(),
            position: 6
        })))
    );
    assert_eq!(iter.next(), Some(CharDecodeResultOrStr::Str(" Bob")));
    assert_eq!(iter.next(), None);

    let mut iter = EscapeChunksIterator::new("&quot;Die!&quot;");
    assert_eq!(
        iter.next(),
        Some(CharDecodeResultOrStr::Char(Ok(EscapeInfo {
            character: Escape::Entity(CharacterEntity::QuotationMark),
            length: "&quot;".len(),
            position: 0
        })))
    );
    assert_eq!(iter.next(), Some(CharDecodeResultOrStr::Str("Die!")));
    assert_eq!(
        iter.next(),
        Some(CharDecodeResultOrStr::Char(Ok(EscapeInfo {
            character: Escape::Entity(CharacterEntity::QuotationMark),
            length: "&quot;".len(),
            position: 10
        })))
    );
    assert_eq!(iter.next(), None);

    let mut iter = EscapeChunksIterator::new("&apos;");
    assert_eq!(
        iter.next(),
        Some(CharDecodeResultOrStr::Char(Ok(EscapeInfo {
            character: Escape::Entity(CharacterEntity::Apostrophe),
            length: "&apos;".len(),
            position: 0
        })))
    );
    assert_eq!(iter.next(), None);
}

#[test]
fn empty() {
    let mut iter = EscapeChunksIterator::new("");
    assert_eq!(iter.next(), None);
}

#[test]
fn invalid_continuously_returns_error() {
    let mut iter = EscapeChunksIterator::new("&apos");
    assert_eq!(iter.next(), Some(CharDecodeResultOrStr::Char(Err(CharacterEntityDecodingError::DidNotTerminate))));
    assert_eq!(iter.next(), Some(CharDecodeResultOrStr::Char(Err(CharacterEntityDecodingError::DidNotTerminate))));
    assert_eq!(iter.next(), Some(CharDecodeResultOrStr::Char(Err(CharacterEntityDecodingError::DidNotTerminate))));
}

#[test]
fn escapes_and_unescaping() {
    let mut it = EscapeIterator::new("a&#65;b&#x42;&bogus;");
    assert_eq!(it.next(), Some(Ok(EscapeInfo { character: Escape::Codepoint('A'), length: 5, position: 1 })));
    assert_eq!(it.next(), Some(Ok(EscapeInfo { character: Escape::Codepoint('B'), length: 6, position: 7 })));
    assert!(matches!(it.next(), Some(Err(CharacterEntityDecodingError::UnknownEntity(_)))));
    assert!(matches!(
        EscapeIterator::new("&#xD800;").next(),
        Some(Err(CharacterEntityDecodingError::InvalidCharacter))
    ));
    assert!(matches!(EscapeIterator::new("&#zz;").next(), Some(Err(CharacterEntityDecodingError::InvalidForm(_)))));
    assert_eq!(unescape("Alice &amp; Bob").unwrap(), "Alice & Bob");
    assert_eq!(unescape("&quot;x").unwrap(), "\"x");
    assert_eq!(unescape("plain").unwrap(), "plain");
    assert_eq!(unescape("&amp"), Err(CharacterEntityDecodingError::DidNotTerminate));
    assert_eq!(CharacterEntity::try_from("lt"), Ok(CharacterEntity::LessThan));
    assert_eq!(CharacterEntity::LessThan.to_char(), '>');
    assert_eq!(CharacterEntity::Apostrophe.to_str(), "'");
}

#[test]
fn character_data() {
    let mut plain = XmlCharacterData::maybe_escaping("  \n\t");
    assert!(matches!(plain, XmlCharacterData::Plain(_)));
    assert_eq!(plain.is_just_whitespace(), Ok(true));
    let mut escaped = XmlCharacterData::maybe_escaping("a &amp; b");
    assert_eq!(escaped.raw(), "a &amp; b");
    assert_eq!(escaped.get(), Ok("a & b"));
    assert_eq!(escaped.is_just_whitespace(), Ok(false));
    match escaped.into_maybe_owned() {
        Ok(MaybeOwnedString::Owned(s)) => assert_eq!(s, "a & b"),
        _ => panic!(),
    }
    match XmlCharacterData::maybe_escaping("x").into_maybe_owned() {
        Ok(MaybeOwnedString::Borrowed(s)) => assert_eq!(s, "x"),
        _ => panic!(),
    }
}

#[test]
fn creation() {
    let str: &str = "jor";
    let span = Span::new_root(str);
    assert_eq!(span.root().as_ptr(), str.as_ptr(), "points to original string");
    assert_eq!(span.length(), str.len(), "has correct length");
    assert_eq!(span.offset(), 0, "contains no initial offset");
}

fn check_slice(span: Span<'_>, slice: &str, offset: usize) {
    assert_eq!(span.length(), slice.len(), "has correctly adjusted length");
    assert_eq!(span.offset(), offset, "has correctly adjusted offset");
    assert_eq!(span.as_str(), slice, "correctly formats the slice of the string");
}

#[test]
fn slicing() {
    let span = Span::new_root("123 abc xyz");
    check_slice(span.slice_with(SpanSlicer::Range(4, 7)), "abc", 4);
    check_slice(span.slice_with(SpanSlicer::Range(0, 3)), "123", 0);
    let skip_one = span.slice_with(SpanSlicer::From(4));
    check_slice(skip_one, "abc xyz", 4);
    check_slice(skip_one.slice_with(SpanSlicer::Range(0, 3)), "abc", 4);
    check_slice(skip_one.slice_with(SpanSlicer::From(4)), "xyz", 8);
}

#[test]
fn slicing_errors_and_locations() {
    let span = Span::new_root("aé b\nc");
    assert_eq!(span.try_slice(2, 1), Err(SpanSliceError::InvalidCharBoundary(InvalidCharacterBoundary::Start(2))));
    assert_eq!(span.try_slice(0, 2), Err(SpanSliceError::InvalidCharBoundary(InvalidCharacterBoundary::End(2))));
    assert_eq!(span.try_slice(0, 100), Err(SpanSliceError::InvalidCharBoundary(InvalidCharacterBoundary::End(100))));
    assert_eq!(span.try_slice(usize::MAX, 1), Err(SpanSliceError::EndIndexOverflow));
    assert_eq!(span.range(SpanSlicer::ToInclusive(2)).as_str(), "aé");
    assert_eq!(span.range(SpanSlicer::Inclusive(3, 4)).as_str(), " b");
    assert_eq!(span.range(SpanSlicer::To(1)).as_str(), "a");
    assert_eq!(span.range(SpanSlicer::Full).as_str(), "aé b\nc");
    let loc = span.start_location();
    assert_eq!((loc.line, loc.column), (1, 1));
    let back = span.slice(5, 2).slice_signed_clamping(-2, 10);
    assert_eq!((back.offset(), back.length()), (3, 4));
    assert_eq!(span.slice(1, 2).slice_signed_clamping(-5, 1).offset(), 0);
}

#[test]
fn lib_basic() {
    for kind in [BlockKind::Comment, BlockKind::CharacterData] {
        let content = "hello :3";
        let string = kind.opener().to_owned() + content + kind.closer();
        let span = Span::new_root(&string);
        let (opener, closer, inner) = match kind {
            BlockKind::Comment => {
                let block = CommentSpan::new(span).unwrap();
                (block.opener(), block.closer(), block.content())
            },
            BlockKind::CharacterData => {
                let block = CharacterDataBlockSpan::new(span).unwrap();
                (block.opener(), block.closer(), block.content())
            },
        };
        assert_eq!(opener, Span::new_root(kind.opener()));
        assert_eq!(closer.as_str(), kind.closer());
        assert_eq!(closer.offset(), kind.opener().len() + content.len());
        assert_eq!(inner.as_str(), content);
        assert_eq!(inner.offset(), kind.opener().len());
    }

    let p = |value: &'static str| SectionOpener::parse(&Span::new_root(value));
    assert!(matches!(p("jor"), Ok(None)));
    assert!(matches!(p(" <hogwash />"), Ok(None)));
    for (input, extracted) in [("<tag>", "tag"), ("<tag \n\r>", "tag"), ("<longer-tag-name>", "longer-tag-name")] {
        let Ok(Some(SectionOpener::Tag(tag))) = p(input) else { panic!("wasn't parsed as an opener tag") };
        assert_eq!(tag.get_name_span().as_str(), extracted);
        assert!(!tag.is_self_closing());
    }
    let input = "<gender>coolio</gender>";
    let Ok(Some(SectionOpener::Tag(output))) = SectionOpener::parse(&Span::new_root(input)) else { panic!() };
    assert_eq!(output.name_length(), 6);
    assert!(core::ptr::eq(output.span.root().as_ptr(), input.as_ptr()));
    assert_eq!(output.span.offset(), 0);
    assert_eq!(output.span.length(), 8);
    assert_eq!(output.get_name_span().as_str(), "gender");
    assert_eq!(output.get_name_span().offset(), 1);
    assert_eq!(output.get_name_span().length(), 6);
}

#[test]
fn self_closing() {
    for input in ["<tag/>", "<tag    \r\t />"] {
        let Ok(Some(SectionOpener::Tag(tag))) = SectionOpener::parse(&Span::new_root(input)) else {
            panic!("wasn't parsed as an opener tag")
        };
        assert_eq!(tag.get_name_span().as_str(), "tag");
        assert!(tag.is_self_closing());
    }
}

#[test]
fn attributes() {
    assert!(matches!(
        SectionOpener::parse(&Span::new_root("<asdf jor='ready up!'")),
        Err(SectionOpenerReadError::TagDidNotClose(..))
    ));
    assert!(matches!(
        SectionOpener::parse(&Span::new_root("<input disabled>)")),
        Err(SectionOpenerReadError::AttributeParseError(AttributeParseError::ExpectedDelimiterAfterKey))
    ));
    let valid = SectionOpener::parse(&Span::new_root("<tag attr=\"value\" another='value2'>")).unwrap().unwrap();
    let SectionOpener::Tag(tag) = valid else { panic!("wasn't parsed as an opener tag") };
    assert!(!tag.is_self_closing());
    assert_eq!(tag.get_name_span().as_str(), "tag");
    assert_eq!(tag.attributes.len(), 2);
    assert!(tag.attributes.contains_key("attr"));
    assert!(tag.attributes.contains_key("another"));
    assert_eq!(tag.attributes.get("another").unwrap().raw(), "value2");
    let repeated = SectionOpener::parse(&Span::new_root("<t a='1' a = \"2\"/>")).unwrap().unwrap();
    let SectionOpener::Tag(tag) = repeated else { panic!() };
    assert_eq!(tag.attributes.len(), 1);
    assert_eq!(tag.attributes.get("a").unwrap().raw(), "2");
    assert!(tag.is_self_closing());
    assert!(matches!(
        SectionOpener::parse(&Span::new_root("<t a=b>")),
        Err(SectionOpenerReadError::AttributeParseError(AttributeParseError::ExpectedValueAfterDelimiter))
    ));
}

#[test]
fn cdata() {
    let opened = SectionOpener::parse(&Span::new_root(BlockKind::CharacterData.opener())).unwrap().unwrap();
    let SectionOpener::CharacterData(span) = opened else { panic!() };
    assert_eq!((span.offset(), span.length()), (0, 9));
}

#[test]
fn comment() {
    let opened = SectionOpener::parse(&Span::new_root(BlockKind::Comment.opener())).unwrap().unwrap();
    let SectionOpener::Comment(span) = opened else { panic!() };
    assert_eq!((span.offset(), span.length()), (0, 4));
}

#[test]
fn several_in_a_row() {
    let input = "<tag>hello</tag><tag>world</tag>";
    let span = Span::new_root(input);
    let mut arena = VecNodeArena::default();
    let mut after = span;
    let mut children = Vec::new();
    while let Some(node) = Node::parse(&after, &mut arena).unwrap() {
        let Read { value: index, consumed_bytes } = node;
        after = after.range(SpanSlicer::From(consumed_bytes));
        children.push(index);
    }
    assert_eq!(children.len(), 2);
    for (index, expected_text) in [(children[0], "hello"), (children[1], "world")] {
        let element = arena.get(&index).as_element().expect("not an element");
        assert_eq!(element.tag_name(), "tag");
        assert_eq!(element.children.len(), 1);
        let child_index = *element.children.first().expect("no child");
        let mut text = arena.take(&child_index).into_cdata().expect("child not cdata");
        assert_eq!(text.get().unwrap(), expected_text);
    }
}

#[test]
fn nodes_and_errors() {
    let root = "<!--c--><![CDATA[x<y]]><a k='v'><b/></a>";
    let mut arena = VecNodeArena::new();
    let first = Node::parse(&Span::new_root(root), &mut arena).unwrap().unwrap();
    assert_eq!(first.consumed_bytes, 8);
    assert!(matches!(arena.get(&first.value), Node::Comment(_)));
    let rest = Span::new_root(root).slice_with(SpanSlicer::From(8));
    // A block is looked for from its opener's length before the input, which here is other text.
    assert!(matches!(
        Node::parse(&rest, &mut arena),
        Err(NodeParseError::NonNestingDidNotClose(..))
    ));
    let element = Span::new_root(root).slice_with(SpanSlicer::From(23));
    let read = Node::parse(&element, &mut arena).unwrap().unwrap();
    assert_eq!(read.consumed_bytes, 17);
    let a = arena.get(&read.value).as_element().unwrap();
    assert_eq!(a.tag_name(), "a");
    assert_eq!(a.attributes().get("k").unwrap().raw(), "v");
    assert_eq!(a.children.len(), 1);
    assert!(!a.is_self_closing());
    assert_eq!(a.span().as_str(), "<a k='v'><b/></a>");
    let mut arena = VecNodeArena::with_capacity(4);
    assert!(matches!(
        Node::parse(&Span::new_root("<a>x</b>"), &mut arena),
        Err(NodeParseError::ElementDidNotClose(_))
    ));
    assert!(matches!(Node::parse(&Span::new_root(""), &mut arena), Ok(None)));
    let text = Node::parse(&Span::new_root("abc<d/>"), &mut arena).unwrap().unwrap();
    assert_eq!(text.consumed_bytes, 3);
    assert!(matches!(Node::parse(&Span::new_root("<a"), &mut arena), Err(NodeParseError::BadSectionOpener(_))));
    let closing = parse_closing_tag(Span::new_root("</name>rest")).unwrap();
    assert_eq!(closing.get_name_span().as_str(), "name");
    assert!(parse_closing_tag(Span::new_root("<name>")).is_none());
    assert!(matches!(
        CommentSpan::new(Span::new_root("<!-- a --> -->")),
        Err(BlockSpanConstructionError::Closer(CloserError::PresentWithin { starting_at: 3 }))
    ));
    assert!(matches!(CommentSpan::new(Span::new_root("<!?- a -->")), Err(BlockSpanConstructionError::Opener(_))));
}

#[test]
fn block_sides() {
    assert_eq!(Opener.side(), Side::Opener);
    assert_eq!(Closer.side(), Side::Closer);
    assert_eq!(Opener.name(), "opener");
    assert_eq!(Closer.name(), "closer");
}

#[test]
fn escape_replaced_through_semicolon() {
    let mut x = XmlCharacterDataWithEscaping::new("Alice &amp; Bob");
    assert!(!x.did_unescape());
    assert_eq!(x.get(), Ok("Alice & Bob"));
    assert!(x.did_unescape());
    assert_eq!(x.get_unescaped(), "Alice &amp; Bob");
    assert_eq!(unescape("a&amp;b &#65;&#x42;").unwrap(), "a&b AB");
}
