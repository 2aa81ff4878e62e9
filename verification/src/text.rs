//! Byte-level helpers for parsing UTF-8 text.
//!
//! Every string handled by the library is modelled by its UTF-8 bytes
//! (`s.spec_bytes()`); slicing only happens at character boundaries,
//! which every ASCII byte of a valid encoding is.
use vstd::prelude::*;
use vstd::utf8::*;
use vstd::string::*;

verus! {

broadcast use vstd::utf8::group_utf8_lib;

/// The UTF-8 bytes of a string slice.
pub open spec fn bytes_of(s: &str) -> Seq<u8> {
    s.spec_bytes()
}

/// Whether `b` is the ASCII encoding of a decimal digit.
pub open spec fn is_digit(b: u8) -> bool {
    48 <= b <= 57
}

/// Whether every byte of `s` is a decimal digit.
pub open spec fn all_digits(s: Seq<u8>) -> bool {
    forall|i: int| 0 <= i < s.len() ==> is_digit(#[trigger] s[i])
}

/// The index of the first occurrence of `b` in `s` at or after `from`, if any.
pub open spec fn find_from(s: Seq<u8>, b: u8, from: int) -> Option<int>
    decreases s.len() - from,
{
    if from < 0 || from >= s.len() {
        None
    } else if s[from] == b {
        Some(from)
    } else {
        find_from(s, b, from + 1)
    }
}

/// The index of the first occurrence of `b` in `s`, if any.
pub open spec fn find(s: Seq<u8>, b: u8) -> Option<int> {
    find_from(s, b, 0)
}

/// The index of the last occurrence of `b` in `s` before `end`, if any.
pub open spec fn rfind_before(s: Seq<u8>, b: u8, end: int) -> Option<int>
    decreases end,
{
    if end <= 0 || end > s.len() {
        None
    } else if s[end - 1] == b {
        Some(end - 1)
    } else {
        rfind_before(s, b, end - 1)
    }
}

/// The index of the last occurrence of `b` in `s`, if any.
pub open spec fn rfind(s: Seq<u8>, b: u8) -> Option<int> {
    rfind_before(s, b, s.len() as int)
}

/// The length of the longest prefix of `s` made of decimal digits.
pub open spec fn digit_run(s: Seq<u8>) -> int
    decreases s.len(),
{
    if s.len() == 0 || !is_digit(s[0]) {
        0
    } else {
        1 + digit_run(s.drop_first())
    }
}

/// The length of the longest prefix of `s` whose bytes all lie in `[lo, hi]`.
pub open spec fn range_run(s: Seq<u8>, lo: u8, hi: u8) -> int
    decreases s.len(),
{
    if s.len() == 0 || !(lo <= s[0] <= hi) {
        0
    } else {
        1 + range_run(s.drop_first(), lo, hi)
    }
}

pub proof fn lemma_range_run_props(s: Seq<u8>, lo: u8, hi: u8)
    ensures
        0 <= range_run(s, lo, hi) <= s.len(),
        forall|i: int| 0 <= i < range_run(s, lo, hi) ==> lo <= #[trigger] s[i] <= hi,
        range_run(s, lo, hi) < s.len() ==> !(lo <= s[range_run(s, lo, hi)] <= hi),
    decreases s.len(),
{
    if s.len() > 0 && lo <= s[0] <= hi {
        lemma_range_run_props(s.drop_first(), lo, hi);
        assert forall|i: int| 0 <= i < range_run(s, lo, hi) implies lo <= #[trigger] s[i] <= hi by {
            if i > 0 {
                assert(s[i] == s.drop_first()[i - 1]);
            }
        }
    }
}

/// Whether `needle` occurs in `s` at index `i`.
pub open spec fn occurs_at(s: Seq<u8>, needle: Seq<u8>, i: int) -> bool {
    0 <= i && i + needle.len() <= s.len() && s.subrange(i, i + needle.len()) == needle
}

/// The first index at or after `from` where `needle` occurs in `s`, if any.
pub open spec fn find_seq_from(s: Seq<u8>, needle: Seq<u8>, from: int) -> Option<int>
    decreases s.len() + 1 - from,
{
    if from < 0 || from + needle.len() > s.len() {
        None
    } else if occurs_at(s, needle, from) {
        Some(from)
    } else {
        find_seq_from(s, needle, from + 1)
    }
}

pub proof fn lemma_find_seq_from_props(s: Seq<u8>, needle: Seq<u8>, from: int)
    requires
        0 <= from,
    ensures
        find_seq_from(s, needle, from) matches Some(i) ==> from <= i && occurs_at(s, needle, i)
            && forall|j: int| from <= j < i ==> !occurs_at(s, needle, j),
        find_seq_from(s, needle, from) is None ==> forall|j: int| from <= j ==> !occurs_at(s, needle, j),
    decreases s.len() + 1 - from,
{
    if from + needle.len() <= s.len() && !occurs_at(s, needle, from) {
        lemma_find_seq_from_props(s, needle, from + 1);
    }
}

/// Whether `prefix` begins `s`.
pub open spec fn starts_with(s: Seq<u8>, prefix: Seq<u8>) -> bool {
    prefix.len() <= s.len() && s.subrange(0, prefix.len() as int) == prefix
}

pub proof fn lemma_find_from_props(s: Seq<u8>, b: u8, from: int)
    requires
        0 <= from,
    ensures
        find_from(s, b, from) matches Some(i) ==> from <= i < s.len() && s[i] == b && forall|
            j: int,
        |
            from <= j < i ==> s[j] != b,
        find_from(s, b, from) is None ==> forall|j: int| from <= j < s.len() ==> s[j] != b,
    decreases s.len() - from,
{
    if from < s.len() && s[from] != b {
        lemma_find_from_props(s, b, from + 1);
    }
}

/// Searching from `from` is searching the text that starts there.
pub proof fn lemma_find_from_shift(s: Seq<u8>, b: u8, from: int)
    requires
        0 <= from <= s.len(),
    ensures
        find_from(s, b, from) == (match find(s.skip(from), b) {
            Some(i) => Some(i + from),
            None => None::<int>,
        }),
    decreases s.len() - from,
{
    let t = s.skip(from);
    if from < s.len() && s[from] != b {
        lemma_find_from_shift(s, b, from + 1);
        lemma_find_from_shift(t, b, 1);
        assert(t.skip(1) =~= s.skip(from + 1));
    }
}

pub proof fn lemma_rfind_before_props(s: Seq<u8>, b: u8, end: int)
    requires
        end <= s.len(),
    ensures
        rfind_before(s, b, end) matches Some(i) ==> 0 <= i < end && s[i] == b && forall|j: int|
            i < j < end ==> s[j] != b,
        rfind_before(s, b, end) is None ==> forall|j: int| 0 <= j < end ==> s[j] != b,
    decreases end,
{
    if end > 0 && s[end - 1] != b {
        lemma_rfind_before_props(s, b, end - 1);
    }
}

pub proof fn lemma_digit_run_props(s: Seq<u8>)
    ensures
        0 <= digit_run(s) <= s.len(),
        all_digits(s.subrange(0, digit_run(s))),
        digit_run(s) < s.len() ==> !is_digit(s[digit_run(s)]),
    decreases s.len(),
{
    if s.len() > 0 && is_digit(s[0]) {
        lemma_digit_run_props(s.drop_first());
        let r = digit_run(s.drop_first());
        assert forall|i: int| 0 <= i < digit_run(s) implies is_digit(
            #[trigger] s.subrange(0, digit_run(s))[i],
        ) by {
            if i > 0 {
                assert(s.subrange(0, digit_run(s))[i] == s.drop_first().subrange(0, r)[i - 1]);
            }
        }
    }
}

/// The bytes of a string are a valid UTF-8 encoding.
pub proof fn lemma_valid(s: &str)
    ensures
        valid_utf8(bytes_of(s)),
{
    encode_utf8_valid_utf8(s@);
}

/// The start, the end, and an index that holds an ASCII byte are character boundaries.
pub proof fn lemma_ascii_boundary(s: &str, i: int)
    requires
        0 <= i <= bytes_of(s).len(),
        0 < i < bytes_of(s).len() ==> bytes_of(s)[i] < 128,
    ensures
        is_char_boundary(bytes_of(s), i),
{
    lemma_valid(s);
    if i == bytes_of(s).len() || i == 0 {
        is_char_boundary_start_end_of_seq(bytes_of(s));
    } else {
        is_char_boundary_iff_is_leading_byte(bytes_of(s), i);
    }
}

/// The bytes of ASCII text.
pub open spec fn ascii_bytes(s: Seq<char>) -> Seq<u8> {
    s.map_values(|c: char| c as u8)
}

/// The bytes of an ASCII string are its characters' codes.
pub proof fn lemma_ascii_bytes(s: &str)
    requires
        is_ascii_chars(s@),
    ensures
        bytes_of(s) == ascii_bytes(s@),
{
    is_ascii_spec_bytes(s);
    assert(bytes_of(s) =~= ascii_bytes(s@));
}

/// The index just after an ASCII byte is a character boundary.
pub proof fn lemma_after_ascii_boundary(s: &str, i: int)
    requires
        0 < i <= bytes_of(s).len(),
        bytes_of(s)[i - 1] < 128,
    ensures
        is_char_boundary(bytes_of(s), i),
{
    let b = bytes_of(s);
    lemma_valid(s);
    if i == b.len() {
        is_char_boundary_start_end_of_seq(b);
    } else {
        is_char_boundary_iff_is_leading_byte(b, i - 1);
        assert(is_leading_byte_width_1(b[i - 1]));
        assert(is_char_boundary(b, i - 1));
        valid_utf8_split(b, i - 1);
        let t = b.subrange(i - 1, b.len() as int);
        assert(valid_utf8(t));
        assert(t[0] == b[i - 1]);
        assert(length_of_first_scalar(t) == 1);
        let u = b.subrange(i, b.len() as int);
        assert(pop_first_scalar(t) =~= u);
        assert(valid_utf8(u));
        assert(u[0] == b[i]);
        assert(valid_first_scalar(u));
        is_char_boundary_iff_is_leading_byte(b, i);
    }
}

/// Character boundaries of a string are character boundaries of any of its boundary-delimited suffixes.
pub proof fn lemma_boundary_in_suffix(bytes: Seq<u8>, start: int, end: int)
    requires
        valid_utf8(bytes),
        0 <= start <= end <= bytes.len(),
        is_char_boundary(bytes, start),
        is_char_boundary(bytes, end),
    ensures
        valid_utf8(bytes.subrange(start, bytes.len() as int)),
        is_char_boundary(bytes.subrange(start, bytes.len() as int), end - start),
{
    let tail = bytes.subrange(start, bytes.len() as int);
    valid_utf8_split(bytes, start);
    if end == bytes.len() {
        is_char_boundary_start_end_of_seq(tail);
    } else {
        is_char_boundary_iff_is_leading_byte(bytes, end);
        is_char_boundary_iff_is_leading_byte(tail, end - start);
    }
}

/// Slices `s` to the bytes in `[start, end)`.
pub fn substr<'a>(s: &'a str, start: usize, end: usize) -> (r: &'a str)
    requires
        start <= end <= bytes_of(s).len(),
        is_char_boundary(bytes_of(s), start as int),
        is_char_boundary(bytes_of(s), end as int),
    ensures
        bytes_of(r) == bytes_of(s).subrange(start as int, end as int),
{
    proof {
        lemma_valid(s);
        lemma_boundary_in_suffix(bytes_of(s), start as int, end as int);
    }
    let (_, tail) = s.split_at(start);
    assert(bytes_of(tail) == bytes_of(s).subrange(start as int, bytes_of(s).len() as int));
    let (mid, _) = tail.split_at(end - start);
    assert(bytes_of(mid) =~= bytes_of(s).subrange(start as int, end as int));
    mid
}

/// Whether index `i` of `b` is at an ASCII byte, just after one, or at either end.
pub open spec fn ascii_cut(b: Seq<u8>, i: int) -> bool {
    ||| i == 0
    ||| i == b.len()
    ||| (0 < i < b.len() && (b[i] < 128 || b[i - 1] < 128))
}

pub proof fn lemma_ascii_cut(s: &str, i: int)
    requires
        0 <= i <= bytes_of(s).len(),
        ascii_cut(bytes_of(s), i),
    ensures
        is_char_boundary(bytes_of(s), i),
{
    if 0 < i < bytes_of(s).len() && bytes_of(s)[i] >= 128 {
        lemma_after_ascii_boundary(s, i);
    } else {
        lemma_ascii_boundary(s, i);
    }
}

/// Slices `s` at positions next to ASCII bytes (or at its start or end).
pub fn substr_ascii<'a>(s: &'a str, start: usize, end: usize) -> (r: &'a str)
    requires
        start <= end <= bytes_of(s).len(),
        ascii_cut(bytes_of(s), start as int),
        ascii_cut(bytes_of(s), end as int),
    ensures
        bytes_of(r) == bytes_of(s).subrange(start as int, end as int),
{
    proof {
        lemma_ascii_cut(s, start as int);
        lemma_ascii_cut(s, end as int);
    }
    substr(s, start, end)
}

/// The byte length of a string.
pub fn byte_len(s: &str) -> (n: usize)
    ensures
        n == bytes_of(s).len(),
{
    s.as_bytes().len()
}

/// Finds the first occurrence of the byte `b` at or after `from`.
pub fn find_byte_from(s: &[u8], b: u8, from: usize) -> (r: Option<usize>)
    ensures
        r matches Some(i) ==> find_from(s@, b, from as int) == Some(i as int),
        r is None ==> find_from(s@, b, from as int) is None,
{
    let mut i: usize = from;
    while i < s.len()
        invariant
            from <= i,
            find_from(s@, b, from as int) == find_from(s@, b, i as int),
        decreases s.len() - i,
    {
        if s[i] == b {
            return Some(i);
        }
        i = i + 1;
    }
    None
}

/// Finds the last occurrence of the byte `b`.
pub fn rfind_byte(s: &[u8], b: u8) -> (r: Option<usize>)
    ensures
        r matches Some(i) ==> rfind(s@, b) == Some(i as int),
        r is None ==> rfind(s@, b) is None,
{
    let mut end: usize = s.len();
    while end > 0
        invariant
            end <= s@.len(),
            rfind(s@, b) == rfind_before(s@, b, end as int),
        decreases end,
    {
        if s[end - 1] == b {
            return Some(end - 1);
        }
        end = end - 1;
    }
    None
}

/// The length of the longest run of decimal digits at the start of `s`.
pub fn count_digits(s: &[u8]) -> (n: usize)
    ensures
        n == digit_run(s@),
{
    let mut i: usize = 0;
    assert(s@.subrange(0, s@.len() as int) =~= s@);
    while i < s.len() && 48 <= s[i] && s[i] <= 57
        invariant
            i <= s@.len(),
            digit_run(s@) == i + digit_run(s@.subrange(i as int, s@.len() as int)),
        decreases s.len() - i,
    {
        assert(s@.subrange(i as int, s@.len() as int).drop_first() =~= s@.subrange(
            i + 1,
            s@.len() as int,
        ));
        i = i + 1;
    }
    i
}

/// The length of the longest run at the start of `s` of bytes in `[lo, hi]`.
pub fn count_range(s: &[u8], lo: u8, hi: u8) -> (n: usize)
    ensures
        n == range_run(s@, lo, hi),
{
    let mut i: usize = 0;
    assert(s@.subrange(0, s@.len() as int) =~= s@);
    while i < s.len() && lo <= s[i] && s[i] <= hi
        invariant
            i <= s@.len(),
            range_run(s@, lo, hi) == i + range_run(s@.subrange(i as int, s@.len() as int), lo, hi),
        decreases s.len() - i,
    {
        assert(s@.subrange(i as int, s@.len() as int).drop_first() =~= s@.subrange(
            i + 1,
            s@.len() as int,
        ));
        i = i + 1;
    }
    i
}

/// Whether `needle` occurs in `s` at index `i`.
pub fn bytes_occur_at(s: &[u8], needle: &[u8], i: usize) -> (r: bool)
    ensures
        r == occurs_at(s@, needle@, i as int),
{
    if needle.len() > s.len() || i > s.len() - needle.len() {
        return false;
    }
    let n = s.len();
    let mut j: usize = 0;
    while j < needle.len()
        invariant
            n == s@.len(),
            i + needle@.len() <= s@.len(),
            j <= needle@.len(),
            forall|k: int| 0 <= k < j ==> s@[i + k] == needle@[k],
        decreases needle.len() - j,
    {
        if s[i + j] != needle[j] {
            assert(s@.subrange(i as int, i + needle@.len())[j as int] != needle@[j as int]);
            return false;
        }
        j = j + 1;
    }
    assert(s@.subrange(i as int, i + needle@.len()) =~= needle@);
    true
}

/// The first index at or after `from` where `needle` occurs in `s`.
pub fn find_bytes_from(s: &[u8], needle: &[u8], from: usize) -> (r: Option<usize>)
    ensures
        r matches Some(i) ==> find_seq_from(s@, needle@, from as int) == Some(i as int),
        r is None ==> find_seq_from(s@, needle@, from as int) is None,
{
    if needle.len() > s.len() {
        return None;
    }
    let last = s.len() - needle.len();
    let mut i: usize = from;
    while i <= last
        invariant
            from <= i,
            last == s@.len() - needle@.len(),
            find_seq_from(s@, needle@, from as int) == find_seq_from(s@, needle@, i as int),
        decreases last + 1 - i,
    {
        if bytes_occur_at(s, needle, i) {
            return Some(i);
        }
        if i == last {
            assert(find_seq_from(s@, needle@, i + 1) is None);
            return None;
        }
        i = i + 1;
    }
    None
}

/// Whether every byte of `s` is a decimal digit.
pub fn all_digit_bytes(s: &[u8]) -> (r: bool)
    ensures
        r == all_digits(s@),
{
    let mut i: usize = 0;
    while i < s.len()
        invariant
            i <= s@.len(),
            forall|j: int| 0 <= j < i ==> is_digit(#[trigger] s@[j]),
        decreases s.len() - i,
    {
        if s[i] < 48 || s[i] > 57 {
            return false;
        }
        i = i + 1;
    }
    true
}

/// Whether the bytes of `s` begin with `prefix`.
pub fn bytes_start_with(s: &[u8], prefix: &[u8]) -> (r: bool)
    ensures
        r == starts_with(s@, prefix@),
{
    if prefix.len() > s.len() {
        return false;
    }
    let mut i: usize = 0;
    while i < prefix.len()
        invariant
            prefix@.len() <= s@.len(),
            i <= prefix@.len(),
            forall|j: int| 0 <= j < i ==> s@[j] == prefix@[j],
        decreases prefix.len() - i,
    {
        if s[i] != prefix[i] {
            assert(s@.subrange(0, prefix@.len() as int)[i as int] != prefix@[i as int]);
            return false;
        }
        i = i + 1;
    }
    assert(s@.subrange(0, prefix@.len() as int) =~= prefix@);
    true
}

/// Whether two byte sequences are equal.
pub fn bytes_eq(a: &[u8], b: &[u8]) -> (r: bool)
    ensures
        r == (a@ == b@),
{
    if a.len() != b.len() {
        return false;
    }
    let mut i: usize = 0;
    while i < a.len()
        invariant
            a@.len() == b@.len(),
            i <= a@.len(),
            forall|j: int| 0 <= j < i ==> a@[j] == b@[j],
        decreases a.len() - i,
    {
        if a[i] != b[i] {
            return false;
        }
        i = i + 1;
    }
    assert(a@ =~= b@);
    true
}

/// The characters of a string are the decoding of its bytes.
pub proof fn lemma_chars_of(s: &str)
    ensures
        s@ == decode_utf8(bytes_of(s)),
{
    encode_utf8_decode_utf8(s@);
}

/// Two strings have the same characters exactly when they have the same bytes.
pub proof fn lemma_bytes_eq_iff_chars_eq(a: &str, b: &str)
    ensures
        (bytes_of(a) == bytes_of(b)) <==> (a@ == b@),
{
    if bytes_of(a) == bytes_of(b) {
        encode_utf8_decode_utf8(a@);
        encode_utf8_decode_utf8(b@);
    }
}

/// Whether two strings hold the same text.
pub fn str_eq(a: &str, b: &str) -> (r: bool)
    ensures
        r == (a@ == b@),
        r == (bytes_of(a) == bytes_of(b)),
{
    proof {
        lemma_bytes_eq_iff_chars_eq(a, b);
    }
    bytes_eq(a.as_bytes(), b.as_bytes())
}

/// `core::str::from_utf8`: the text that `b` encodes, where `b` is valid UTF-8.
#[verifier::external_body]
pub fn utf8_str(b: &[u8]) -> (r: Option<&str>)
    ensures
        r is Some <==> valid_utf8(b@),
        r matches Some(s) ==> bytes_of(s) == b@,
{
    core::str::from_utf8(b).ok()
}

/// The characters that ASCII bytes encode.
pub open spec fn ascii_text(b: Seq<u8>) -> Seq<char> {
    b.map_values(|x: u8| x as char)
}

/// Text from ASCII bytes.
pub fn ascii_str(b: &[u8]) -> (r: &str)
    requires
        forall|i: int| 0 <= i < b@.len() ==> #[trigger] b@[i] < 128,
    ensures
        bytes_of(r) == b@,
        r@ == ascii_text(b@),
{
    let ghost chars = ascii_text(b@);
    proof {
        assert(vstd::utf8::is_ascii_chars(chars));
        vstd::utf8::is_ascii_chars_encode_utf8(chars);
        assert(vstd::utf8::encode_utf8(chars) =~= b@);
        vstd::utf8::encode_utf8_valid_utf8(chars);
    }
    let r = match utf8_str(b) {
        Some(s) => s,
        None => vstd::pervasive::unreached(),
    };
    proof {
        lemma_chars_of(r);
        vstd::utf8::encode_utf8_decode_utf8(chars);
    }
    r
}

/// The bytes of two texts one after the other are the bytes of each.
pub proof fn lemma_encode_utf8_concat(a: Seq<char>, b: Seq<char>)
    ensures
        vstd::utf8::encode_utf8(a + b) == vstd::utf8::encode_utf8(a) + vstd::utf8::encode_utf8(b),
    decreases a.len(),
{
    if a.len() > 0 {
        lemma_encode_utf8_concat(a.drop_first(), b);
        assert((a + b).drop_first() =~= a.drop_first() + b);
        assert((a + b)[0] == a[0]);
        assert(vstd::utf8::encode_utf8(a + b) =~= vstd::utf8::encode_scalar(a[0] as u32)
            + (vstd::utf8::encode_utf8(a.drop_first()) + vstd::utf8::encode_utf8(b)));
    } else {
        assert(a + b =~= b);
    }
}

} // verus!
