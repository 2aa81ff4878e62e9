//! Spans: string slices that remember the top-level text they were cut from and where.
use vstd::prelude::*;
use vstd::utf8::*;
use crate::text::{bytes_of, substr, lemma_valid};

verus! {

/// A slice boundary that is not a character boundary. The index is never zero.
#[derive(Debug, Clone, Copy, PartialEq, Eq, Structural)]
pub enum InvalidCharacterBoundary {
    Start(usize),
    End(usize),
}

/// Why a span could not be sliced.
#[derive(Debug, Clone, Copy, PartialEq, Eq, Structural)]
pub enum SpanSliceError {
    InvalidCharBoundary(InvalidCharacterBoundary),
    OutOfBounds { by: usize },
    EndIndexOverflow,
}

/// An immutable string slice with a reference to the top-level string it was cut from.
///
/// Equality is by text, not by position.
#[derive(Clone, Copy, Debug)]
pub struct Span<'a> {
    root: &'a str,
    offset: usize,
    length: usize,
}

/// Whether `[offset, offset + length)` is a slice of the text `b` on character boundaries.
pub open spec fn valid_cut(b: Seq<u8>, offset: int, length: int) -> bool {
    &&& 0 <= offset
    &&& 0 <= length
    &&& offset + length <= b.len()
    &&& is_char_boundary(b, offset)
    &&& is_char_boundary(b, offset + length)
}

impl<'a> View for Span<'a> {
    type V = Seq<u8>;

    /// The bytes of the span's text.
    closed spec fn view(&self) -> Seq<u8> {
        bytes_of(self.root).subrange(self.offset as int, self.offset + self.length)
    }
}

impl<'a> Span<'a> {
    #[verifier::type_invariant]
    spec fn inv(self) -> bool {
        valid_cut(bytes_of(self.root), self.offset as int, self.length as int)
    }

    /// The top-level text.
    pub closed spec fn root_text(self) -> &'a str {
        self.root
    }

    /// Where the span starts in the top-level text.
    pub closed spec fn start(self) -> nat {
        self.offset as nat
    }

    /// A span over all of `str`.
    pub fn new_root(str: &'a str) -> (s: Self)
        ensures
            s@ == bytes_of(str),
            s.root_text() == str,
            s.start() == 0,
    {
        proof {
            lemma_valid(str);
            is_char_boundary_start_end_of_seq(bytes_of(str));
        }
        let length = str.as_bytes().len();
        assert(bytes_of(str).subrange(0, length as int) =~= bytes_of(str));
        Self { root: str, offset: 0, length }
    }

    /// A span over `[offset, offset + length)` of `root`, which must be a slice on character
    /// boundaries.
    pub fn new_unchecked(root: &'a str, offset: usize, length: usize) -> (s: Self)
        requires
            valid_cut(bytes_of(root), offset as int, length as int),
        ensures
            s@ == bytes_of(root).subrange(offset as int, offset + length),
            s.root_text() == root,
            s.start() == offset,
    {
        Self { root, offset, length }
    }

    /// The top-level text.
    pub fn root(&self) -> (r: &'a str)
        ensures
            r == self.root_text(),
    {
        self.root
    }

    /// Where the span starts in the top-level text, in bytes.
    pub fn offset(&self) -> (r: usize)
        ensures
            r == self.start(),
            valid_cut(bytes_of(self.root_text()), r as int, self@.len() as int),
            self@ == bytes_of(self.root_text()).subrange(r as int, r + self@.len()),
    {
        proof { use_type_invariant(self); }
        self.offset
    }

    /// The length of the span in bytes.
    pub fn length(&self) -> (r: usize)
        ensures
            r == self@.len(),
    {
        proof { use_type_invariant(self); }
        self.length
    }

    /// The text of the span.
    pub fn as_str(&self) -> (r: &'a str)
        ensures
            bytes_of(r) == self@,
    {
        proof { use_type_invariant(self); }
        let _total = self.root.as_bytes().len();
        substr(self.root, self.offset, self.offset + self.length)
    }

    /// Slices the span to `[start, start + length)` of its own text.
    pub fn try_slice(&self, start: usize, length: usize) -> (r: Result<Span<'a>, SpanSliceError>)
        ensures
            start + length > usize::MAX ==> r == Err::<Span<'a>, SpanSliceError>(
                SpanSliceError::EndIndexOverflow,
            ),
            start + length <= usize::MAX && !is_char_boundary(self@, start as int) ==> r == Err::<
                Span<'a>,
                SpanSliceError,
            >(SpanSliceError::InvalidCharBoundary(InvalidCharacterBoundary::Start(start))),
            start + length <= usize::MAX && is_char_boundary(self@, start as int) && !is_char_boundary(
                self@,
                start + length,
            ) ==> r == Err::<Span<'a>, SpanSliceError>(
                SpanSliceError::InvalidCharBoundary(InvalidCharacterBoundary::End((start + length) as usize)),
            ),
            start + length <= usize::MAX && is_char_boundary(self@, start as int) && is_char_boundary(
                self@,
                start + length,
            ) ==> (r matches Ok(s) && s@ == self@.subrange(start as int, start + length)
                && s.root_text() == self.root_text() && s.start() == self.start() + start),
    {
        proof { use_type_invariant(self); }
        let end = match start.checked_add(length) {
            Some(end) => end,
            None => return Err(SpanSliceError::EndIndexOverflow),
        };
        let text = self.as_str();
        proof { lemma_valid(text); }
        if !text.is_char_boundary(start) {
            return Err(SpanSliceError::InvalidCharBoundary(InvalidCharacterBoundary::Start(start)));
        }
        if !text.is_char_boundary(end) {
            return Err(SpanSliceError::InvalidCharBoundary(InvalidCharacterBoundary::End(end)));
        }
        proof {
            lemma_valid(self.root);
            lemma_cut_boundary(bytes_of(self.root), self.offset as int, self.length as int, start as int);
            lemma_cut_boundary(bytes_of(self.root), self.offset as int, self.length as int, end as int);
        }
        let _total = self.root.as_bytes().len();
        assert(start <= self.length) by {
            if start > self.length {
                assert(!is_char_boundary(bytes_of(text), start as int));
            }
        }
        let offset = self.offset + start;
        Ok(Span { root: self.root, offset, length })
    }

    /// Slices the span to `[start, start + length)` of its own text, on character boundaries.
    pub fn slice(&self, start: usize, length: usize) -> (r: Span<'a>)
        requires
            start + length <= self@.len(),
            is_char_boundary(self@, start as int),
            is_char_boundary(self@, start + length),
        ensures
            r@ == self@.subrange(start as int, start + length),
            r.root_text() == self.root_text(),
            r.start() == self.start() + start,
    {
        proof { use_type_invariant(self); }
        match self.try_slice(start, length) {
            Ok(s) => s,
            Err(_) => {
                assert(false);
                *self
            },
        }
    }

    /// Slices the span by a range of its own text.
    pub fn slice_with(&self, slicer: SpanSlicer) -> (r: Span<'a>)
        requires
            slicer_bounds(slicer, self@.len() as int) matches Some((s, e)) && is_char_boundary(self@, s)
                && is_char_boundary(self@, e),
        ensures
            slicer_bounds(slicer, self@.len() as int) matches Some((s, e)) && r@ == self@.subrange(s, e)
                && r.root_text() == self.root_text() && r.start() == self.start() + s,
    {
        let n = self.length();
        match slicer {
            SpanSlicer::Range(s, e) => self.slice(s, e - s),
            SpanSlicer::From(s) => self.slice(s, n - s),
            SpanSlicer::To(e) => self.slice(0, e),
            SpanSlicer::Full => {
                assert(self@.subrange(0, self@.len() as int) =~= self@);
                *self
            },
            SpanSlicer::Inclusive(s, e) => self.slice(s, e + 1 - s),
            SpanSlicer::ToInclusive(e) => self.slice(0, e + 1),
        }
    }

    /// The same as [`Self::slice_with`].
    pub fn range(&self, range: SpanSlicer) -> (r: Span<'a>)
        requires
            slicer_bounds(range, self@.len() as int) matches Some((s, e)) && is_char_boundary(self@, s)
                && is_char_boundary(self@, e),
        ensures
            slicer_bounds(range, self@.len() as int) matches Some((s, e)) && r@ == self@.subrange(s, e)
                && r.root_text() == self.root_text() && r.start() == self.start() + s,
    {
        self.slice_with(range)
    }

    /// Slices relative to the start of the span by a signed amount, which may move before it.
    /// A start before the top-level text is clamped to its beginning, and the length is
    /// clamped to the end of this span.
    pub fn slice_signed_clamping(&self, start: isize, length: usize) -> (r: Span<'a>)
        requires
            clamped_start(self.start() as int, start as int) <= self.start() + self@.len(),
            is_char_boundary(bytes_of(self.root_text()), clamped_start(self.start() as int, start as int)),
            is_char_boundary(
                bytes_of(self.root_text()),
                clamped_start(self.start() as int, start as int) + clamped_length(
                    self.start() as int,
                    self@.len() as int,
                    start as int,
                    length as int,
                ),
            ),
        ensures
            r.root_text() == self.root_text(),
            r.start() == clamped_start(self.start() as int, start as int),
            r@.len() == clamped_length(self.start() as int, self@.len() as int, start as int, length as int),
    {
        proof { use_type_invariant(self); }
        let _total = self.root.as_bytes().len();
        let offset = match self.offset.checked_add_signed(start) {
            Some(o) => o,
            None => 0,
        };
        let room = self.offset + self.length - offset;
        let length = if length < room { length } else { room };
        Span { root: self.root, offset, length }
    }

    /// The line and column reached after reading the span's text, counting from zero.
    pub fn start_location(&self) -> (r: SingleFileLocation)
        requires
            self@.len() <= u32::MAX,
        ensures
            (r.line as int, r.column as int) == line_column(decode_utf8(self@)),
    {
        let text = self.as_str();
        proof {
            crate::text::lemma_chars_of(text);
            lemma_valid(text);
            lemma_chars_bound(bytes_of(text));
        }
        let n = text.unicode_len();
        let mut line: u32 = 0;
        let mut column: u32 = 0;
        let mut i: usize = 0;
        while i < n
            invariant
                n == text@.len(),
                n <= u32::MAX,
                i <= n,
                (line as int, column as int) == line_column(text@.subrange(0, i as int)),
                line <= i,
                column <= i,
            decreases n - i,
        {
            assert(text@.subrange(0, i + 1).drop_last() =~= text@.subrange(0, i as int));
            let c = text.get_char(i);
            if c == '\n' {
                column = 0;
                line = line + 1;
            } else {
                column = column + 1;
            }
            i = i + 1;
        }
        assert(text@.subrange(0, n as int) =~= text@);
        SingleFileLocation { line, column }
    }
}

/// Decoding never yields more characters than there are bytes.
proof fn lemma_chars_bound(b: Seq<u8>)
    requires
        valid_utf8(b),
    ensures
        decode_utf8(b).len() <= b.len(),
    decreases b.len(),
{
    if b.len() > 0 {
        let t = pop_first_scalar(b);
        assert(t.len() < b.len());
        lemma_chars_bound(t);
    }
}

/// The start of a signed slice: the span's start moved by `delta`, or zero if that is negative.
pub open spec fn clamped_start(offset: int, delta: int) -> int {
    if offset + delta < 0 {
        0
    } else {
        offset + delta
    }
}

/// The length of a signed slice: `length`, or what is left up to the end of the span if less.
pub open spec fn clamped_length(offset: int, span_length: int, delta: int, length: int) -> int {
    let room = offset + span_length - clamped_start(offset, delta);
    if length < room {
        length
    } else {
        room
    }
}

/// A range of a span's text.
#[derive(Debug, Clone, Copy, PartialEq, Eq, Structural)]
pub enum SpanSlicer {
    /// `start..end`
    Range(usize, usize),
    /// `start..`
    From(usize),
    /// `..end`
    To(usize),
    /// `..`
    Full,
    /// `start..=end`
    Inclusive(usize, usize),
    /// `..=end`
    ToInclusive(usize),
}

/// The byte range `[start, end)` that a slicer selects from text of length `len`, if in bounds.
pub open spec fn slicer_bounds(slicer: SpanSlicer, len: int) -> Option<(int, int)> {
    let (s, e): (int, int) = match slicer {
        SpanSlicer::Range(s, e) => (s as int, e as int),
        SpanSlicer::From(s) => (s as int, len),
        SpanSlicer::To(e) => (0, e as int),
        SpanSlicer::Full => (0, len),
        SpanSlicer::Inclusive(s, e) => (s as int, e + 1),
        SpanSlicer::ToInclusive(e) => (0, e + 1),
    };
    if 0 <= s <= e <= len && e <= usize::MAX {
        Some((s, e))
    } else {
        None
    }
}

/// A character boundary of a slice cut on character boundaries is one of the whole text.
proof fn lemma_cut_boundary(b: Seq<u8>, offset: int, length: int, i: int)
    requires
        valid_utf8(b),
        valid_cut(b, offset, length),
        0 <= i <= length,
        is_char_boundary(b.subrange(offset, offset + length), i),
    ensures
        is_char_boundary(b, offset + i),
{
    let s = b.subrange(offset, offset + length);
    if i == length || i == 0 {
    } else {
        crate::text::lemma_boundary_in_suffix(b, offset, offset + length);
        let tail = b.subrange(offset, b.len() as int);
        valid_utf8_split(tail, length);
        assert(tail.subrange(0, length) =~= s);
        is_char_boundary_iff_is_leading_byte(s, i);
        is_char_boundary_iff_is_leading_byte(b, offset + i);
        assert(s[i] == b[offset + i]);
    }
}

impl<'a> PartialEq for Span<'a> {
    fn eq(&self, other: &Self) -> (r: bool) {
        crate::text::str_eq(self.as_str(), other.as_str())
    }
}

impl<'a> vstd::std_specs::cmp::PartialEqSpecImpl for Span<'a> {
    open spec fn obeys_eq_spec() -> bool {
        true
    }

    open spec fn eq_spec(&self, other: &Self) -> bool {
        self@ == other@
    }
}

impl<'a> Eq for Span<'a> {
}

/// The location of a character in a document, zero-indexed.
#[derive(Debug, Clone, Copy, PartialEq, Eq, Structural)]
pub struct SingleFileLocation {
    pub line: u32,
    pub column: u32,
}

/// The zero-indexed line and column reached after reading `s`.
pub open spec fn line_column(s: Seq<char>) -> (int, int)
    decreases s.len(),
{
    if s.len() == 0 {
        (0, 0)
    } else {
        let (line, column) = line_column(s.drop_last());
        if s.last() == '\n' {
            (line + 1, 0)
        } else {
            (line, column + 1)
        }
    }
}

} // verus!
