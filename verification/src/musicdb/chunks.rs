//! The chunks that make up the library view: section boundaries, lists and maps of
//! entities, and the albums, artists, accounts, tracks and collections themselves.
use vstd::prelude::*;
use crate::maybe_owned_string::MaybeOwnedString;
use crate::musicdb::boma::{
    boma_end, boma_fits, boma_read_at, subtype_of, Boma, BomaReadError, BomaSubtype, BomaUtf16, BomaUtf16Variant, BomaUtf8, BomaUtf8Variant,
    CollectionMember, TrackNumerics, UnknownBomaError,
};
use crate::musicdb::chunk::{
    enforce_length, le_bytes, read_header, ChunkCursor, ChunkHeader, CursorError, DidNotReadToEndError,
    HeaderError, LengthEnforcement, LengthFollower, Signature,
};
use crate::musicdb::id::{
    AccountKind, AlbumKind, ArtistKind, CloudCatalogId, CloudLibraryId, CollectionKind, PersistentId, TrackKind,
};
use crate::musicdb::version::AppleMusicVersion;
use crate::mzstatic::image::MzStaticImage;
use crate::num::ParseIntError;
use crate::unaligned_u16::utf16::Utf16Str;
use std::collections::HashMap;

verus! {

broadcast use vstd::std_specs::hash::group_hash_axioms;

/// Why the fixed part of a chunk could not be read.
#[derive(Debug, Clone, Copy)]
pub enum ChunkError {
    Io(CursorError),
    BadSignature { expected: Signature, found: Signature },
    DidNotReadToEnd(DidNotReadToEndError),
}

/// Lifts a cursor error.
fn io<T>(r: Result<T, CursorError>) -> (out: Result<T, ChunkError>)
    ensures
        r is Ok <==> out is Ok,
        r matches Ok(v) ==> out == Ok::<T, ChunkError>(v),
{
    match r {
        Ok(v) => Ok(v),
        Err(e) => Err(ChunkError::Io(e)),
    }
}

/// Lifts a header error.
fn header(r: Result<ChunkHeader, HeaderError>) -> (out: Result<ChunkHeader, ChunkError>)
    ensures
        r is Ok <==> out is Ok,
        r matches Ok(v) ==> out == Ok::<ChunkHeader, ChunkError>(v),
{
    match r {
        Ok(v) => Ok(v),
        Err(HeaderError::Io(e)) => Err(ChunkError::Io(e)),
        Err(HeaderError::BadSignature { expected, found }) => Err(ChunkError::BadSignature { expected, found }),
    }
}

/// Lifts a length check.
fn ended(r: Result<(), DidNotReadToEndError>) -> (out: Result<(), ChunkError>)
    ensures
        r is Ok <==> out is Ok,
{
    match r {
        Ok(()) => Ok(()),
        Err(e) => Err(ChunkError::DidNotReadToEnd(e)),
    }
}

/// Whether `count` bomas, one after the other from `p` of `b`, can be read in a library of
/// `version`.
pub open spec fn bomas_fit(b: Seq<u8>, p: int, count: nat, version: Option<AppleMusicVersion>) -> bool
    decreases count,
{
    if count == 0 {
        true
    } else {
        boma_fits(b, p, version) && bomas_fit(b, boma_end(b, p), (count - 1) as nat, version)
    }
}

/// Where `count` bomas, one after the other from `p` of `b`, end.
pub open spec fn bomas_end(b: Seq<u8>, p: int, count: nat) -> int
    decreases count,
{
    if count == 0 {
        p
    } else {
        bomas_end(b, boma_end(b, p), (count - 1) as nat)
    }
}

/// The subtype numbers of `count` bomas, one after the other from `p` of `b`.
pub open spec fn bomas_codes(b: Seq<u8>, p: int, count: nat) -> Seq<u32>
    decreases count,
{
    if count == 0 {
        Seq::empty()
    } else {
        seq![le_bytes(b, p + 12, 4) as u32] + bomas_codes(b, boma_end(b, p), (count - 1) as nat)
    }
}

/// Where the `i`th of the bomas that follow one another from `p` of `b` starts.
pub open spec fn boma_pos(b: Seq<u8>, p: int, i: nat) -> int
    decreases i,
{
    if i == 0 {
        p
    } else {
        boma_end(b, boma_pos(b, p, (i - 1) as nat))
    }
}

/// Whether `bs` are what the `count` bomas from `p` of `b` hold, one by one.
pub open spec fn bomas_read_at<'a>(b: Seq<u8>, p: int, count: nat, bs: Seq<Boma<'a>>) -> bool {
    &&& bs.len() == count
    &&& forall|i: int| 0 <= i < count ==> boma_read_at(b, boma_pos(b, p, i as nat), #[trigger] bs[i])
}

/// Reads `count` bomas one after the other.
pub fn read_bomas<'a>(cursor: &mut ChunkCursor<'a>, count: u32) -> (r: Result<Vec<Boma<'a>>, BomaReadError>)
    requires
        old(cursor).wf(),
    ensures
        final(cursor).wf(),
        final(cursor).bytes() == old(cursor).bytes(),
        final(cursor).app_version() == old(cursor).app_version(),
        r matches Ok(v) ==> v@.len() == count,
        r is Ok <==> bomas_fit(old(cursor).bytes(), old(cursor).pos(), count as nat, old(cursor).app_version()),
        r is Ok ==> final(cursor).pos() == bomas_end(old(cursor).bytes(), old(cursor).pos(), count as nat),
        r matches Ok(v) ==> bomas_codes(old(cursor).bytes(), old(cursor).pos(), count as nat).len() == count
            && forall|i: int| 0 <= i < count ==> (#[trigger] v@[i]).subtype()
            == subtype_of(bomas_codes(old(cursor).bytes(), old(cursor).pos(), count as nat)[i]),
        r matches Ok(v) ==> bomas_read_at(old(cursor).bytes(), old(cursor).pos(), count as nat, v@),
{
    let mut out: Vec<Boma<'a>> = Vec::new();
    let mut i: u32 = 0;
    let ghost mut done: Seq<u32> = Seq::empty();
    while i < count
        invariant
            cursor.wf(),
            cursor.bytes() == old(cursor).bytes(),
            cursor.app_version() == old(cursor).app_version(),
            out@.len() == i,
            i <= count,
            bomas_fit(old(cursor).bytes(), old(cursor).pos(), count as nat, old(cursor).app_version())
                == bomas_fit(cursor.bytes(), cursor.pos(), (count - i) as nat, cursor.app_version()),
            bomas_end(old(cursor).bytes(), old(cursor).pos(), count as nat) == bomas_end(cursor.bytes(), cursor.pos(), (count - i) as nat),
            bomas_codes(old(cursor).bytes(), old(cursor).pos(), count as nat)
                == done + bomas_codes(cursor.bytes(), cursor.pos(), (count - i) as nat),
            done.len() == i,
            forall|j: int| 0 <= j < i ==> (#[trigger] out@[j]).subtype() == subtype_of(done[j]),
            forall|j: int| 0 <= j < i ==> boma_read_at(old(cursor).bytes(), boma_pos(old(cursor).bytes(), old(cursor).pos(), j as nat), #[trigger] out@[j]),
            cursor.pos() == boma_pos(old(cursor).bytes(), old(cursor).pos(), i as nat),
        decreases count - i,
    {
        let ghost here = cursor.pos();
        let b = Boma::read(cursor)?;
        proof {
            let code = le_bytes(cursor.bytes(), here + 12, 4) as u32;
            let later = bomas_codes(cursor.bytes(), cursor.pos(), (count - i - 1) as nat);
            assert(done + (seq![code] + later) =~= done.push(code) + later);
            done = done.push(code);
        }
        out.push(b);
        i = i + 1;
    }
    proof {
        assert(done + bomas_codes(cursor.bytes(), cursor.pos(), 0) =~= done);
    }
    Ok(out)
}

/// The text of the last UTF-16 boma of `variant` among `bs`.
pub open spec fn last_text<'a>(bs: Seq<Boma<'a>>, variant: BomaUtf16Variant) -> Option<Utf16Str<'a>>
    decreases bs.len(),
{
    if bs.len() == 0 {
        None
    } else {
        match bs.last() {
            Boma::Utf16(t) => if t.1 == variant {
                Some(t.0)
            } else {
                last_text(bs.drop_last(), variant)
            },
            _ => last_text(bs.drop_last(), variant),
        }
    }
}

/// The numerics of the last numerics boma among `bs`.
pub open spec fn last_numerics<'a>(bs: Seq<Boma<'a>>) -> Option<TrackNumerics>
    decreases bs.len(),
{
    if bs.len() == 0 {
        None
    } else {
        match bs.last() {
            Boma::TrackNumerics(n) => Some(n),
            _ => last_numerics(bs.drop_last()),
        }
    }
}

/// The text of the last UTF-8 boma of `variant` among `bs`.
pub open spec fn last_utf8<'a>(bs: Seq<Boma<'a>>, variant: BomaUtf8Variant) -> Option<&'a str>
    decreases bs.len(),
{
    if bs.len() == 0 {
        None
    } else {
        match bs.last() {
            Boma::Utf8Xml(t) => if t.1 == variant {
                Some(t.0)
            } else {
                last_utf8(bs.drop_last(), variant)
            },
            _ => last_utf8(bs.drop_last(), variant),
        }
    }
}

/// The members among `bs`, in order.
pub open spec fn members<'a>(bs: Seq<Boma<'a>>) -> Seq<CollectionMember>
    decreases bs.len(),
{
    if bs.len() == 0 {
        Seq::empty()
    } else {
        match bs.last() {
            Boma::CollectionMember(m) => members(bs.drop_last()).push(m),
            _ => members(bs.drop_last()),
        }
    }
}

/// Whether the chunk at the cursor starts with `signature`, holds `fixed` bytes of fixed
/// fields, and ends, by the length it gives itself, within the bytes.
pub open spec fn fixed_chunk_fits<'a>(c: ChunkCursor<'a>, signature: Seq<u8>, fixed: int) -> bool {
    fixed_fits_at(c.bytes(), c.pos(), signature, fixed)
}

/// Whether the chunk at `p` of `b` starts with `signature`, holds `fixed` bytes of fixed
/// fields, and ends, by the length it gives itself, within `b`.
pub open spec fn fixed_fits_at(b: Seq<u8>, p: int, signature: Seq<u8>, fixed: int) -> bool {
    &&& fixed <= b.len() - p
    &&& b.subrange(p, b.len() as int).take(4) == signature
    &&& p + le_bytes(b, p + 4, 4) <= b.len()
}

/// Where the chunk at `p` of `b` ends by the length it gives itself.
pub open spec fn fixed_end(b: Seq<u8>, p: int) -> int {
    p + le_bytes(b, p + 4, 4)
}

/// The version that the repeated header at `p` of `b` records: the text within 32 bytes
/// after its first twelve, up to a NUL, where it is UTF-8 and reads as a version; else
/// `known`, the version known before.
pub open spec fn repeat_version(b: Seq<u8>, p: int, known: Option<AppleMusicVersion>) -> Option<AppleMusicVersion> {
    if p + 44 <= b.len() {
        match crate::text::find(b.subrange(p + 12, p + 44), 0) {
            Some(i) => {
                let t = b.subrange(p + 12, p + 12 + i);
                if vstd::utf8::valid_utf8(t) && crate::musicdb::version::version_of(t) is Ok {
                    Some(crate::musicdb::version::version_of(t)->Ok_0)
                } else {
                    known
                }
            },
            None => known,
        }
    } else {
        known
    }
}

/// A boundary between sections of the library.
#[derive(Debug, Clone, Copy)]
pub struct SectionBoundary {
    pub subtype: u32,
}

impl SectionBoundary {
    /// Reads a boundary: `hsma`, its length and its subtype, then up to its length.
    pub fn read(cursor: &mut ChunkCursor) -> (r: Result<Self, ChunkError>)
        requires
            old(cursor).wf(),
        ensures
            final(cursor).wf(),
            final(cursor).bytes() == old(cursor).bytes(),
            final(cursor).app_version() == old(cursor).app_version(),
            r is Ok <==> fixed_chunk_fits(*old(cursor), seq![104u8, 115, 109, 97], 12),
            r matches Ok(s) ==> {
                &&& old(cursor).rest().take(4) == seq![104u8, 115, 109, 97]
                &&& s.subtype == le_bytes(old(cursor).bytes(), old(cursor).pos() + 8, 4)
                &&& final(cursor).pos() == old(cursor).pos() + le_bytes(old(cursor).bytes(), old(cursor).pos() + 4, 4)
            },
    {
        let h = header(read_header(cursor, Signature([104u8, 115, 109, 97]), LengthFollower::Nothing))?;
        let subtype = io(cursor.read_u32())?;
        let end = h.offset as u128 + h.length as u128;
        if end > usize::MAX as u128 {
            return Err(ChunkError::Io(CursorError::SeekPastEnd));
        }
        io(cursor.set_position(end as usize))?;
        ended(enforce_length(LengthEnforcement::ToDefinedLength, Signature([104u8, 115, 109, 97]), h.offset, h.length, None, cursor.position()))?;
        Ok(SectionBoundary { subtype })
    }
}

/// Skips the copy of the file header that opens the decoded data, reading the version of
/// the application that wrote it into the cursor where it can be read.
pub fn read_header_repeat(cursor: &mut ChunkCursor) -> (r: Result<(), ChunkError>)
    requires
        old(cursor).wf(),
    ensures
        final(cursor).wf(),
        final(cursor).bytes() == old(cursor).bytes(),
        r is Ok <==> fixed_chunk_fits(*old(cursor), seq![104u8, 102, 109, 97], 12),
        r is Ok ==> final(cursor).app_version() == repeat_version(old(cursor).bytes(), old(cursor).pos(), old(cursor).app_version()),
        r is Ok ==> old(cursor).rest().take(4) == seq![104u8, 102, 109, 97]
            && final(cursor).pos() == old(cursor).pos() + le_bytes(old(cursor).bytes(), old(cursor).pos() + 4, 4),
{
    let ghost b = cursor.bytes();
    let ghost p = cursor.pos();
    let h = header(read_header(cursor, Signature([104u8, 102, 109, 97]), LengthFollower::Nothing))?;
    io(cursor.skip(4))?;
    proof {
        if p + 44 <= b.len() {
            assert(b.subrange(p + 12, b.len() as int).take(32) =~= b.subrange(p + 12, p + 44));
            crate::text::lemma_find_from_props(b.subrange(p + 12, p + 44), 0, 0);
            if let Some(i) = crate::text::find(b.subrange(p + 12, p + 44), 0) {
                assert(b.subrange(p + 12, b.len() as int).take(i) =~= b.subrange(p + 12, p + 12 + i));
            }
        }
    }
    if let Ok(text) = cursor.read_cstr_exact_with_max_length(32) {
        if let Some(s) = crate::text::utf8_str(text) {
            if let Ok(v) = crate::musicdb::version::AppleMusicVersion::from_str(s) {
                cursor.set_version(v);
            }
        }
    }
    let end = h.offset as u128 + h.length as u128;
    if end > usize::MAX as u128 {
        return Err(ChunkError::Io(CursorError::SeekPastEnd));
    }
    io(cursor.set_position(end as usize))?;
    Ok(())
}

/// Why an album, artist or account could not be read.
#[derive(Debug)]
pub enum EntityReadError {
    Chunk(ChunkError),
    Boma(BomaReadError),
    /// A boma of a kind the entity does not hold.
    UnexpectedBoma(Result<BomaSubtype, UnknownBomaError>),
}

/// Lifts a chunk error.
fn entity<T>(r: Result<T, ChunkError>) -> (out: Result<T, EntityReadError>)
    ensures
        r is Ok <==> out is Ok,
        r matches Ok(v) ==> out == Ok::<T, EntityReadError>(v),
{
    match r {
        Ok(v) => Ok(v),
        Err(e) => Err(EntityReadError::Chunk(e)),
    }
}

/// The fixed start of an album, artist, account, track or collection chunk: its header, with
/// the byte length including its bomas and their number, and its persistent id.
pub struct EntityStart {
    pub header: ChunkHeader,
    pub persistent_id: u64,
}

/// Reads the start of an entity chunk of signature `signature`.
fn read_entity_start(cursor: &mut ChunkCursor, signature: Signature) -> (r: Result<EntityStart, ChunkError>)
    requires
        old(cursor).wf(),
    ensures
        final(cursor).wf(),
        final(cursor).bytes() == old(cursor).bytes(),
        final(cursor).app_version() == old(cursor).app_version(),
        r is Ok <==> 24 <= old(cursor).rest().len() && old(cursor).rest().take(4) == signature.0@,
        r matches Ok(s) ==> {
            &&& s.header == crate::musicdb::chunk::header_at(old(cursor).bytes(), old(cursor).pos(), LengthFollower::ByteLengthAndQuantity)
            &&& s.header.offset == old(cursor).pos()
            &&& s.header.length == le_bytes(old(cursor).bytes(), old(cursor).pos() + 4, 4)
            &&& old(cursor).rest().take(4) == signature.0@
            &&& s.persistent_id == le_bytes(old(cursor).bytes(), old(cursor).pos() + 16, 8)
            &&& final(cursor).pos() == old(cursor).pos() + 24
            &&& s.header.count is Some
            &&& s.header.appendage_inclusive_byte_length is Some
        },
{
    let h = header(read_header(cursor, signature, LengthFollower::ByteLengthAndQuantity))?;
    let persistent_id = io(cursor.read_u64())?;
    Ok(EntityStart { header: h, persistent_id })
}

/// Whether an entity chunk with `signature` and `fixed` bytes of fixed fields starts at the
/// cursor and can be read with its bomas: its fixed part ends within the bytes, its bomas can
/// be read from there, and they end exactly at its byte length with appendages.
pub open spec fn entity_fits<'a>(c: ChunkCursor<'a>, signature: Seq<u8>, fixed: int) -> bool {
    entity_fits_at(c.bytes(), c.pos(), c.app_version(), signature, fixed)
}

/// Whether an entity chunk with `signature` and `fixed` bytes of fixed fields starts at `p`
/// of `b` and can be read with its bomas in a library of `version`.
pub open spec fn entity_fits_at(b: Seq<u8>, p: int, version: Option<AppleMusicVersion>, signature: Seq<u8>, fixed: int) -> bool {
    let length = le_bytes(b, p + 4, 4) as int;
    let count = (le_bytes(b, p + 12, 4) as u32) as nat;
    &&& fixed <= b.len() - p
    &&& b.subrange(p, b.len() as int).take(4) == signature
    &&& p + length <= b.len()
    &&& bomas_fit(b, p + length, count, version)
    &&& bomas_end(b, p + length, count) == p + (le_bytes(b, p + 8, 4) as u32)
}

/// Where the entity chunk at `p` of `b` ends: at its byte length with appendages.
pub open spec fn entity_end(b: Seq<u8>, p: int) -> int {
    p + (le_bytes(b, p + 8, 4) as u32)
}

/// The subtype numbers of the bomas of the entity chunk at the cursor.
pub open spec fn entity_codes<'a>(c: ChunkCursor<'a>) -> Seq<u32> {
    entity_codes_at(c.bytes(), c.pos())
}

/// The subtype numbers of the bomas of the entity chunk at `p` of `b`.
pub open spec fn entity_codes_at(b: Seq<u8>, p: int) -> Seq<u32> {
    bomas_codes(b, p + le_bytes(b, p + 4, 4), (le_bytes(b, p + 12, 4) as u32) as nat)
}

/// Whether an album chunk at `p` of `b` can be read in a library of `version`.
pub open spec fn album_fits_at(b: Seq<u8>, p: int, version: Option<AppleMusicVersion>) -> bool {
    &&& entity_fits_at(b, p, version, seq![105u8, 97, 109, 97], 24)
    &&& forall|i: int| 0 <= i < entity_codes_at(b, p).len() ==> album_kind(subtype_of(#[trigger] entity_codes_at(b, p)[i]))
}

/// Whether an artist chunk at `p` of `b` can be read in a library of `version`.
pub open spec fn artist_fits_at(b: Seq<u8>, p: int, version: Option<AppleMusicVersion>) -> bool {
    &&& entity_fits_at(b, p, version, seq![105u8, 65, 109, 97], 56)
    &&& forall|i: int| 0 <= i < entity_codes_at(b, p).len() ==> artist_kind(subtype_of(#[trigger] entity_codes_at(b, p)[i]))
}

/// Whether an album chunk can be read at a position of `b`.
pub open spec fn album_fits_fn(b: Seq<u8>, version: Option<AppleMusicVersion>) -> spec_fn(int) -> bool {
    |q: int| album_fits_at(b, q, version)
}

/// Whether an artist chunk can be read at a position of `b`.
pub open spec fn artist_fits_fn(b: Seq<u8>, version: Option<AppleMusicVersion>) -> spec_fn(int) -> bool {
    |q: int| artist_fits_at(b, q, version)
}

/// Whether an account chunk can be read at a position of `b`.
pub open spec fn account_fits_fn(b: Seq<u8>, version: Option<AppleMusicVersion>) -> spec_fn(int) -> bool {
    |q: int| entity_fits_at(b, q, version, seq![105u8, 115, 109, 97], 24)
}

/// Whether `count` entity chunks, one after the other from `p` of `b`, can each be read, as
/// `fits` says of one at a position.
pub open spec fn entities_fit(b: Seq<u8>, p: int, count: nat, fits: spec_fn(int) -> bool) -> bool
    decreases count,
{
    if count == 0 {
        true
    } else {
        fits(p) && entities_fit(b, entity_end(b, p), (count - 1) as nat, fits)
    }
}

/// Where `count` entity chunks, one after the other from `p` of `b`, end.
pub open spec fn entities_end(b: Seq<u8>, p: int, count: nat) -> int
    decreases count,
{
    if count == 0 {
        p
    } else {
        entities_end(b, entity_end(b, p), (count - 1) as nat)
    }
}

/// Where the `i`th of the entity chunks that follow one another from `start` of `b` starts.
pub open spec fn entity_pos(b: Seq<u8>, start: int, i: int) -> int
    decreases i,
{
    if i <= 0 {
        start
    } else {
        entity_end(b, entity_pos(b, start, i - 1))
    }
}

/// The persistent id that the entity chunk at `q` of `b` gives, after its header.
pub open spec fn id_at(b: Seq<u8>, q: int) -> nat {
    le_bytes(b, q + 16, 8)
}

/// Whether the item at `i`, among `count` entity chunks from `start` of `b`, is the last that
/// gives the id `k`.
pub open spec fn last_with_id(b: Seq<u8>, start: int, count: int, i: int, k: u64) -> bool {
    &&& 0 <= i < count
    &&& k == id_at(b, entity_pos(b, start, i))
    &&& forall|j: int| i < j < count ==> k != id_at(b, #[trigger] entity_pos(b, start, j))
}

/// Whether `m` maps the id of each of the `count` entity chunks from `start` of `b` to what
/// `at` says is read there; where ids repeat, the last chunk with the id gives the entry.
pub open spec fn map_holds<V>(b: Seq<u8>, start: int, count: int, m: Map<u64, V>, at: spec_fn(int, V) -> bool) -> bool {
    &&& forall|k: u64| #[trigger] m.dom().contains(k) <==> exists|i: int| 0 <= i < count && k == id_at(b, #[trigger] entity_pos(b, start, i))
    &&& forall|k: u64| #[trigger] m.dom().contains(k) ==> exists|i: int| #[trigger] last_with_id(b, start, count, i, k)
        && at(entity_pos(b, start, i), m[k])
}

/// Whether `s` holds, in order, what `at` says is read from each of the `count` entity
/// chunks from `start` of `b`.
pub open spec fn seq_holds<V>(b: Seq<u8>, start: int, count: int, s: Seq<V>, at: spec_fn(int, V) -> bool) -> bool {
    &&& s.len() == count
    &&& forall|i: int| 0 <= i < count ==> at(entity_pos(b, start, i), #[trigger] s[i])
}

/// Adding the entry of one more chunk keeps a map that holds the chunks before it.
proof fn lemma_map_holds_insert<V>(b: Seq<u8>, start: int, i: int, m: Map<u64, V>, at: spec_fn(int, V) -> bool, k0: u64, v: V)
    requires
        0 <= i,
        map_holds(b, start, i, m, at),
        k0 == id_at(b, entity_pos(b, start, i)),
        at(entity_pos(b, start, i), v),
    ensures
        map_holds(b, start, i + 1, m.insert(k0, v), at),
{
    let m2 = m.insert(k0, v);
    assert forall|k: u64| #[trigger] m2.dom().contains(k) <==> exists|j: int| 0 <= j < i + 1 && k == id_at(b, #[trigger] entity_pos(b, start, j)) by {
        if m2.dom().contains(k) {
            if k == k0 {
                assert(0 <= i < i + 1 && k == id_at(b, entity_pos(b, start, i)));
            } else {
                assert(m.dom().contains(k));
                let j = choose|j: int| 0 <= j < i && k == id_at(b, #[trigger] entity_pos(b, start, j));
                assert(0 <= j < i + 1 && k == id_at(b, entity_pos(b, start, j)));
            }
        }
        if exists|j: int| 0 <= j < i + 1 && k == id_at(b, #[trigger] entity_pos(b, start, j)) {
            let j = choose|j: int| 0 <= j < i + 1 && k == id_at(b, #[trigger] entity_pos(b, start, j));
            if j < i {
                assert(m.dom().contains(k));
            }
        }
    }
    assert forall|k: u64| #[trigger] m2.dom().contains(k) implies exists|j: int| #[trigger] last_with_id(b, start, i + 1, j, k)
        && at(entity_pos(b, start, j), m2[k]) by {
        if k == k0 {
            assert(last_with_id(b, start, i + 1, i, k));
        } else {
            assert(m.dom().contains(k));
            let j = choose|j: int| #[trigger] last_with_id(b, start, i, j, k) && at(entity_pos(b, start, j), m[k]);
            assert forall|j2: int| j < j2 < i + 1 implies k != id_at(b, #[trigger] entity_pos(b, start, j2)) by {
                if j2 < i {
                    assert(last_with_id(b, start, i, j, k));
                }
            }
            assert(last_with_id(b, start, i + 1, j, k));
        }
    }
}

/// Whether `a` is the album read from the chunk at `q` of `b`.
pub open spec fn album_at<'a>(b: Seq<u8>, q: int, a: Album<'a>) -> bool {
    &&& a.persistent_id.0 == id_at(b, q)
    &&& exists|bs: Seq<Boma<'a>>| #[trigger] entity_bomas(b, q, bs) && album_fields(a, bs)
}

/// Whether an album is the one read at a position of `b`.
pub open spec fn album_at_fn<'a>(b: Seq<u8>) -> spec_fn(int, Album<'a>) -> bool {
    |q: int, a: Album<'a>| album_at(b, q, a)
}

/// Whether `a` is the artist read from the chunk at `q` of `b`.
pub open spec fn artist_at<'a>(b: Seq<u8>, q: int, a: Artist<'a>) -> bool {
    &&& a.persistent_id.0 == id_at(b, q)
    &&& (a.cloud_catalog_id matches Some(c) ==> c.raw() == le_bytes(b, q + 52, 4))
    &&& exists|bs: Seq<Boma<'a>>| #[trigger] entity_bomas(b, q, bs) && artist_fields(a, bs)
}

/// Whether an artist is the one read at a position of `b`.
pub open spec fn artist_at_fn<'a>(b: Seq<u8>) -> spec_fn(int, Artist<'a>) -> bool {
    |q: int, a: Artist<'a>| artist_at(b, q, a)
}

/// Whether `a` is the account read from the chunk at `q` of `b`.
pub open spec fn account_at<'a>(b: Seq<u8>, q: int, a: Account<'a>) -> bool {
    &&& a.persistent_id.0 == id_at(b, q)
    &&& entity_bomas(b, q, a.bomas@)
}

/// Whether an account is the one read at a position of `b`.
pub open spec fn account_at_fn<'a>(b: Seq<u8>) -> spec_fn(int, Account<'a>) -> bool {
    |q: int, a: Account<'a>| account_at(b, q, a)
}

/// Whether `t` is the track read from the chunk at `q` of `b`.
pub open spec fn track_at<'a>(b: Seq<u8>, q: int, t: Track<'a>) -> bool {
    &&& t.persistent_id.0 == id_at(b, q)
    &&& t.album_id.0 == le_bytes(b, q + 172, 8)
    &&& t.artist_id.0 == le_bytes(b, q + 180, 8)
    &&& exists|bs: Seq<Boma<'a>>| #[trigger] entity_bomas(b, q, bs) && track_fields(t, bs)
}

/// Whether a track is the one read at a position of `b`.
pub open spec fn track_at_fn<'a>(b: Seq<u8>) -> spec_fn(int, Track<'a>) -> bool {
    |q: int, t: Track<'a>| track_at(b, q, t)
}

/// Whether `c` is the collection read from the chunk at `q` of `b`.
pub open spec fn collection_at<'a>(b: Seq<u8>, q: int, c: Collection<'a>) -> bool {
    &&& c.persistent_id.0 == le_bytes(b, q + 30, 8)
    &&& c.modification_date == crate::musicdb::boma::timestamp_of(le_bytes(b, q + 138, 4) as u32)
    &&& c.creation_date == crate::musicdb::boma::timestamp_of(le_bytes(b, q + 302, 4) as u32)
    &&& exists|bs: Seq<Boma<'a>>| #[trigger] entity_bomas(b, q, bs) && collection_fields(c, bs)
}

/// Whether a collection is the one read at a position of `b`.
pub open spec fn collection_at_fn<'a>(b: Seq<u8>) -> spec_fn(int, Collection<'a>) -> bool {
    |q: int, c: Collection<'a>| collection_at(b, q, c)
}

/// The number of items the list chunk at `p` of `b` holds.
pub open spec fn list_count(b: Seq<u8>, p: int) -> int {
    (le_bytes(b, p + 8, 4) as u32) as int
}

/// Where the items of the list chunk at `p` of `b` end.
pub open spec fn list_end(b: Seq<u8>, p: int) -> int {
    entities_end(b, fixed_end(b, p), (le_bytes(b, p + 8, 4) as u32) as nat)
}

/// Whether the master list chunk at `p` of `b` can be read in a library of `version`: its
/// fixed part within the bytes, its bomas, and its end past its fixed part.
pub open spec fn master_fits(b: Seq<u8>, p: int, version: Option<AppleMusicVersion>) -> bool {
    let start = fixed_end(b, p);
    let count = (le_bytes(b, p + 8, 4) as u32) as nat;
    &&& fixed_fits_at(b, p, seq![112u8, 108, 109, 97], 12)
    &&& bomas_fit(b, start, count, version)
    &&& bomas_end(b, start, count) >= start
}

/// Where the bomas of the master list chunk at `p` of `b` end.
pub open spec fn master_end(b: Seq<u8>, p: int) -> int {
    bomas_end(b, fixed_end(b, p), (le_bytes(b, p + 8, 4) as u32) as nat)
}

/// Whether a list chunk with `signature` at `p` of `b` can be read, its `count` items as
/// `fits` says: its fixed part within the bytes, its items, and its end past its fixed part.
pub open spec fn list_fits(b: Seq<u8>, p: int, signature: Seq<u8>, fits: spec_fn(int) -> bool) -> bool {
    let start = p + le_bytes(b, p + 4, 4);
    let count = (le_bytes(b, p + 8, 4) as u32) as nat;
    &&& 12 <= b.len() - p
    &&& b.subrange(p, b.len() as int).take(4) == signature
    &&& start <= b.len()
    &&& entities_fit(b, start, count, fits)
    &&& entities_end(b, start, count) >= start
}

/// Whether a boma of subtype `s` belongs to an album.
pub open spec fn album_kind(s: Option<BomaSubtype>) -> bool {
    s matches Some(BomaSubtype::Utf16(v)) && (v == BomaUtf16Variant::IamaAlbum || v == BomaUtf16Variant::IamaAlbumArtist
        || v == BomaUtf16Variant::IamaAlbumArtistCloud || v == BomaUtf16Variant::IamaAlbumCloudId)
}

/// Whether a boma of subtype `s` belongs to an artist.
pub open spec fn artist_kind(s: Option<BomaSubtype>) -> bool {
    ||| s matches Some(BomaSubtype::Utf16(v)) && (v == BomaUtf16Variant::ArtistsArtistName
        || v == BomaUtf16Variant::ArtistsArtistNameSorted || v == BomaUtf16Variant::ArtistsArtistCloudId)
    ||| s matches Some(BomaSubtype::Utf8Xml(v)) && v == BomaUtf8Variant::PlistArtworkURL
}

/// Moves to the end of the fixed part of a chunk.
fn skip_to_end(cursor: &mut ChunkCursor, h: &ChunkHeader) -> (r: Result<(), ChunkError>)
    requires
        old(cursor).wf(),
    ensures
        final(cursor).wf(),
        final(cursor).bytes() == old(cursor).bytes(),
        final(cursor).app_version() == old(cursor).app_version(),
        r is Ok <==> h.offset + h.length <= old(cursor).bytes().len(),
        r is Ok ==> final(cursor).pos() == h.offset + h.length,
{
    let end = h.offset as u128 + h.length as u128;
    if end > usize::MAX as u128 {
        return Err(ChunkError::Io(CursorError::SeekPastEnd));
    }
    io(cursor.set_position(end as usize))?;
    Ok(())
}

/// An album.
#[derive(Debug)]
pub struct Album<'a> {
    pub persistent_id: PersistentId<AlbumKind>,
    pub album_name: Option<Utf16Str<'a>>,
    pub artist_name: Option<Utf16Str<'a>>,
    pub artist_name_cloud: Option<Utf16Str<'a>>,
    /// The cloud library id, as written.
    pub cloud_library_id: Option<Utf16Str<'a>>,
}

/// Whether the names of the album `a` are those its bomas `bs` give: each from the last
/// boma that holds it.
pub open spec fn album_fields<'a>(a: Album<'a>, bs: Seq<Boma<'a>>) -> bool {
    &&& a.album_name == last_text(bs, BomaUtf16Variant::IamaAlbum)
    &&& a.artist_name == last_text(bs, BomaUtf16Variant::IamaAlbumArtist)
    &&& a.artist_name_cloud == last_text(bs, BomaUtf16Variant::IamaAlbumArtistCloud)
    &&& a.cloud_library_id == last_text(bs, BomaUtf16Variant::IamaAlbumCloudId)
}

/// The bytes of a text, where there is one.
pub open spec fn opt_str_bytes(o: Option<&str>) -> Option<Seq<u8>> {
    match o {
        Some(s) => Some(crate::text::bytes_of(s)),
        None => None,
    }
}

/// The artwork address that an artist's artwork property list `v` holds, where
/// `artwork_url_of` finds one.
pub open spec fn artwork_of_text(v: Seq<u8>) -> Option<Seq<u8>> {
    let head = crate::text::bytes_of(ARTWORK_PLIST_HEAD).len() as int;
    let key = crate::text::bytes_of(ARTWORK_KEY);
    let tail = crate::text::bytes_of(ARTWORK_PLIST_TAIL).len() as int;
    if artwork_address(v, head, key, tail) is Some && artwork_cut_ok(v, head + key.len(), v.len() - tail) {
        artwork_address(v, head, key, tail)
    } else {
        None
    }
}

/// The artwork address of the last artwork property list among `bs` that holds one.
pub open spec fn last_artwork<'a>(bs: Seq<Boma<'a>>) -> Option<Seq<u8>>
    decreases bs.len(),
{
    if bs.len() == 0 {
        None
    } else {
        match bs.last() {
            Boma::Utf8Xml(t) => if t.1 == BomaUtf8Variant::PlistArtworkURL && artwork_of_text(crate::text::bytes_of(t.0)) is Some {
                artwork_of_text(crate::text::bytes_of(t.0))
            } else {
                last_artwork(bs.drop_last())
            },
            _ => last_artwork(bs.drop_last()),
        }
    }
}

/// Whether the names and artwork of the artist `a` are those its bomas `bs` give: each
/// from the last boma that holds it.
pub open spec fn artist_fields<'a>(a: Artist<'a>, bs: Seq<Boma<'a>>) -> bool {
    &&& a.name == last_text(bs, BomaUtf16Variant::ArtistsArtistName)
    &&& a.name_sorted == last_text(bs, BomaUtf16Variant::ArtistsArtistNameSorted)
    &&& a.cloud_library_id == last_text(bs, BomaUtf16Variant::ArtistsArtistCloudId)
    &&& opt_str_bytes(a.artwork_url) == last_artwork(bs)
}

/// Whether `bs` are what the bomas of the entity chunk at `p` of `b` hold.
pub open spec fn entity_bomas<'a>(b: Seq<u8>, p: int, bs: Seq<Boma<'a>>) -> bool {
    bomas_read_at(b, p + le_bytes(b, p + 4, 4), (le_bytes(b, p + 12, 4) as u32) as nat, bs)
}

impl<'a> Album<'a> {
    /// The album that `bomas` describe: each name from the last boma that holds it. A boma
    /// of another kind is refused.
    #[verifier::loop_isolation(false)]
    pub fn from_parts(persistent_id: u64, bomas: Vec<Boma<'a>>) -> (r: Result<Self, EntityReadError>)
        ensures
            r matches Ok(a) ==> {
                &&& a.persistent_id.0 == persistent_id
                &&& a.album_name == last_text(bomas@, BomaUtf16Variant::IamaAlbum)
                &&& a.artist_name == last_text(bomas@, BomaUtf16Variant::IamaAlbumArtist)
                &&& a.artist_name_cloud == last_text(bomas@, BomaUtf16Variant::IamaAlbumArtistCloud)
                &&& a.cloud_library_id == last_text(bomas@, BomaUtf16Variant::IamaAlbumCloudId)
            },
            (forall|i: int| 0 <= i < bomas@.len() ==> (#[trigger] bomas@[i] matches Boma::Utf16(t) && (t.1
                == BomaUtf16Variant::IamaAlbum || t.1 == BomaUtf16Variant::IamaAlbumArtist || t.1
                == BomaUtf16Variant::IamaAlbumArtistCloud || t.1 == BomaUtf16Variant::IamaAlbumCloudId))) <==> r is Ok,
    {
        let ghost all = bomas@;
        let mut bomas = bomas;
        let mut album_name: Option<Utf16Str<'a>> = None;
        let mut artist_name: Option<Utf16Str<'a>> = None;
        let mut artist_name_cloud: Option<Utf16Str<'a>> = None;
        let mut cloud_library_id: Option<Utf16Str<'a>> = None;
        let ghost mut k: int = 0;
        while bomas.len() > 0
            invariant
                0 <= k <= all.len(),
                bomas@ == all.skip(k),
                album_name == last_text(all.take(k), BomaUtf16Variant::IamaAlbum),
                artist_name == last_text(all.take(k), BomaUtf16Variant::IamaAlbumArtist),
                artist_name_cloud == last_text(all.take(k), BomaUtf16Variant::IamaAlbumArtistCloud),
                cloud_library_id == last_text(all.take(k), BomaUtf16Variant::IamaAlbumCloudId),
                forall|i: int| 0 <= i < k ==> (#[trigger] all[i] matches Boma::Utf16(t) && (t.1
                    == BomaUtf16Variant::IamaAlbum || t.1 == BomaUtf16Variant::IamaAlbumArtist || t.1
                    == BomaUtf16Variant::IamaAlbumArtistCloud || t.1 == BomaUtf16Variant::IamaAlbumCloudId)),
            decreases bomas@.len(),
        {
            let b = bomas.remove(0);
            let ghost bk = b;
            proof {
                assert(bk == all[k]);
                assert(all.take(k + 1) =~= all.take(k).push(all[k]));
                assert(all.take(k + 1).drop_last() =~= all.take(k));
                assert(all.skip(k + 1) =~= all.skip(k).drop_first());
            }
            match b {
                Boma::Utf16(BomaUtf16(value, BomaUtf16Variant::IamaAlbum)) => album_name = Some(value),
                Boma::Utf16(BomaUtf16(value, BomaUtf16Variant::IamaAlbumArtist)) => artist_name = Some(value),
                Boma::Utf16(BomaUtf16(value, BomaUtf16Variant::IamaAlbumArtistCloud)) => artist_name_cloud = Some(value),
                Boma::Utf16(BomaUtf16(value, BomaUtf16Variant::IamaAlbumCloudId)) => cloud_library_id = Some(value),
                other => {
                    proof {
                        assert(!(all[k] matches Boma::Utf16(t) && (t.1 == BomaUtf16Variant::IamaAlbum || t.1
                            == BomaUtf16Variant::IamaAlbumArtist || t.1 == BomaUtf16Variant::IamaAlbumArtistCloud
                            || t.1 == BomaUtf16Variant::IamaAlbumCloudId)));
                    }
                    return Err(EntityReadError::UnexpectedBoma(other.get_subtype()));
                },
            }
            proof { k = k + 1; }
        }
        proof {
            assert(all.take(k) =~= all);
        }
        Ok(Album { persistent_id: PersistentId::new(persistent_id), album_name, artist_name, artist_name_cloud, cloud_library_id })
    }

}

/// The text that opens the artwork property list of an artist, before the key.
pub const ARTWORK_PLIST_HEAD: &'static str = "<?xml version=\"1.0\" encoding=\"UTF-8\"?>\n<!DOCTYPE plist PUBLIC \"-//Apple//DTD PLIST 1.0//EN\" \"http://www.apple.com/DTDs/PropertyList-1.0.dtd\">\n<plist version=\"1.0\">\n<dict>\n";

/// The key of an artist's artwork address, with the opening of its value.
pub const ARTWORK_KEY: &'static str = "\t<key>artwork-url</key>\n\t<string>";

/// The text that closes the artwork property list of an artist.
pub const ARTWORK_PLIST_TAIL: &'static str = "</string>\n</dict>\n</plist>\n";

/// The artwork address in an artist's artwork property list: what follows the fixed head and
/// the key, up to the fixed tail. `None` where the key does not follow the head, or the text
/// is too short to hold them.
pub open spec fn artwork_address(v: Seq<u8>, head: int, key: Seq<u8>, tail: int) -> Option<Seq<u8>> {
    if head <= v.len() && crate::text::starts_with(v.skip(head), key) && head + key.len() + tail <= v.len() {
        Some(v.subrange(head + key.len(), v.len() - tail))
    } else {
        None
    }
}

/// Whether the address that `artwork_address` finds between `start` and `end` of `v` can be
/// cut out where a character boundary is sure: at the text's end, empty, or beside an ASCII
/// byte.
pub open spec fn artwork_cut_ok(v: Seq<u8>, start: int, end: int) -> bool {
    end == v.len() || end == start || (0 < end < v.len() && (v[end] < 128 || v[end - 1] < 128))
}

impl<'a> Album<'a> {
    /// Reads an album chunk (`iama`): its header, persistent id and bomas.
    pub fn read(cursor: &mut ChunkCursor<'a>) -> (r: Result<Self, EntityReadError>)
        requires
            old(cursor).wf(),
        ensures
            final(cursor).wf(),
            final(cursor).bytes() == old(cursor).bytes(),
            final(cursor).app_version() == old(cursor).app_version(),
            r is Ok ==> final(cursor).pos() == entity_end(old(cursor).bytes(), old(cursor).pos()),
            r is Ok <==> entity_fits(*old(cursor), seq![105u8, 97, 109, 97], 24)
                && forall|i: int| 0 <= i < entity_codes(*old(cursor)).len() ==> album_kind(subtype_of(#[trigger] entity_codes(*old(cursor))[i])),
            r matches Ok(value) ==> exists|bs: Seq<Boma<'a>>| #[trigger] entity_bomas(old(cursor).bytes(), old(cursor).pos(), bs)
                && album_fields(value, bs),
            r matches Ok(value) ==> {
                old(cursor).rest().take(4) == seq![105u8, 97, 109, 97]
                && value.persistent_id.0 == le_bytes(old(cursor).bytes(), old(cursor).pos() + 16, 8)
            },
    {
        let start = entity(read_entity_start(cursor, Signature([105u8, 97, 109, 97])))?;
        entity(skip_to_end(cursor, &start.header))?;
        let bomas = match read_bomas(cursor, start.header.count.unwrap()) {
            Ok(b) => b,
            Err(e) => { return Err(EntityReadError::Boma(e)); },
        };
        proof {
            assert forall|i: int| 0 <= i < bomas@.len() implies (album_kind(subtype_of(entity_codes(*old(cursor))[i]))
                <==> (#[trigger] bomas@[i] matches Boma::Utf16(t) && (t.1 == BomaUtf16Variant::IamaAlbum
                || t.1 == BomaUtf16Variant::IamaAlbumArtist || t.1 == BomaUtf16Variant::IamaAlbumArtistCloud
                || t.1 == BomaUtf16Variant::IamaAlbumCloudId))) by {
                assert(bomas@[i].subtype() == subtype_of(entity_codes(*old(cursor))[i]));
            }
        }
        let ghost bs = bomas@;
        let album = Album::from_parts(start.persistent_id, bomas)?;
        proof {
            assert(entity_bomas(old(cursor).bytes(), old(cursor).pos(), bs));
            assert forall|i: int| 0 <= i < entity_codes(*old(cursor)).len() implies album_kind(
                subtype_of(#[trigger] entity_codes(*old(cursor))[i])) by {
                assert(bs[i].subtype() == subtype_of(entity_codes(*old(cursor))[i]));
            }
        }
        entity(ended(enforce_length(
            LengthEnforcement::ToDefinedLengthPlusAppendagesByteLength,
            Signature([105u8, 97, 109, 97]),
            start.header.offset,
            start.header.length,
            start.header.appendage_inclusive_byte_length,
            cursor.position(),
        )))?;
        Ok(album)
    }
}


/// The artwork address within an artist's artwork property list, found by the fixed layout
/// the application writes.
pub fn artwork_url_of<'a>(value: &'a str) -> (r: Option<&'a str>)
    ensures
        r matches Some(s) ==> Some(crate::text::bytes_of(s)) == artwork_address(
            crate::text::bytes_of(value),
            crate::text::bytes_of(ARTWORK_PLIST_HEAD).len() as int,
            crate::text::bytes_of(ARTWORK_KEY),
            crate::text::bytes_of(ARTWORK_PLIST_TAIL).len() as int,
        ),
        r is Some <==> ({
            let v = crate::text::bytes_of(value);
            let head = crate::text::bytes_of(ARTWORK_PLIST_HEAD).len() as int;
            let key = crate::text::bytes_of(ARTWORK_KEY);
            let tail = crate::text::bytes_of(ARTWORK_PLIST_TAIL).len() as int;
            artwork_address(v, head, key, tail) is Some && artwork_cut_ok(v, head + key.len(), v.len() - tail)
        }),
{
    let head = crate::text::byte_len(ARTWORK_PLIST_HEAD);
    let key = ARTWORK_KEY.as_bytes();
    let tail = crate::text::byte_len(ARTWORK_PLIST_TAIL);
    let b = value.as_bytes();
    let n = b.len();
    if head > n || (key.len() as u128) + (head as u128) + (tail as u128) > n as u128 {
        return None;
    }
    let rest = vstd::slice::slice_subrange(b, head, n);
    if !crate::text::bytes_start_with(rest, key) {
        return None;
    }
    let start = head + key.len();
    let end = n - tail;
    proof {
        assert(rest@ =~= b@.skip(head as int));
        reveal_strlit("\t<key>artwork-url</key>\n\t<string>");
        crate::text::lemma_ascii_bytes(ARTWORK_KEY);
        assert(key@[key@.len() - 1] == 62);
        assert(b@[start - 1] == rest@[key@.len() - 1]);
    }
    if !(end == n || end == start || (0 < end && end < n && (b[end] < 128 || b[end - 1] < 128))) {
        return None;
    }
    Some(crate::text::substr_ascii(value, start, end))
}

/// An artist.
#[derive(Debug)]
pub struct Artist<'a> {
    pub persistent_id: PersistentId<ArtistKind>,
    /// The id in the Apple Music catalog, such as 1147783278.
    pub cloud_catalog_id: Option<CloudCatalogId<ArtistKind>>,
    /// The id in the user's cloud library, such as "r.y8mMT7t", as written.
    pub cloud_library_id: Option<Utf16Str<'a>>,
    pub name: Option<Utf16Str<'a>>,
    /// The name for sorted lists, such as without a leading "The".
    pub name_sorted: Option<Utf16Str<'a>>,
    /// The address of the artist's artwork.
    pub artwork_url: Option<&'a str>,
}

/// Whether a boma is one an artist holds.
pub open spec fn artist_boma<'a>(b: Boma<'a>) -> bool {
    ||| b matches Boma::Utf16(t) && (t.1 == BomaUtf16Variant::ArtistsArtistName || t.1 == BomaUtf16Variant::ArtistsArtistNameSorted
        || t.1 == BomaUtf16Variant::ArtistsArtistCloudId)
    ||| b matches Boma::Utf8Xml(t) && t.1 == BomaUtf8Variant::PlistArtworkURL
}

impl<'a> Artist<'a> {
    /// The artist that `bomas` describe: each name from the last boma that holds it, the
    /// artwork from the last artwork list that holds an address. A boma of another kind is
    /// refused.
    #[verifier::loop_isolation(false)]
    pub fn from_parts(persistent_id: u64, cloud_catalog_id: u32, bomas: Vec<Boma<'a>>) -> (r: Result<Self, EntityReadError>)
        ensures
            r matches Ok(a) ==> {
                &&& a.persistent_id.0 == persistent_id
                &&& (a.cloud_catalog_id is Some <==> cloud_catalog_id != 0)
                &&& a.cloud_catalog_id matches Some(c) ==> c.raw() == cloud_catalog_id
                &&& a.name == last_text(bomas@, BomaUtf16Variant::ArtistsArtistName)
                &&& a.name_sorted == last_text(bomas@, BomaUtf16Variant::ArtistsArtistNameSorted)
                &&& a.cloud_library_id == last_text(bomas@, BomaUtf16Variant::ArtistsArtistCloudId)
            },
            r matches Ok(a) ==> artist_fields(a, bomas@),
            (forall|i: int| 0 <= i < bomas@.len() ==> artist_boma(#[trigger] bomas@[i])) <==> r is Ok,
    {
        let ghost all = bomas@;
        let mut bomas = bomas;
        let mut name: Option<Utf16Str<'a>> = None;
        let mut name_sorted: Option<Utf16Str<'a>> = None;
        let mut cloud_library_id: Option<Utf16Str<'a>> = None;
        let mut artwork_url: Option<&'a str> = None;
        let ghost mut k: int = 0;
        while bomas.len() > 0
            invariant
                0 <= k <= all.len(),
                bomas@ == all.skip(k),
                name == last_text(all.take(k), BomaUtf16Variant::ArtistsArtistName),
                name_sorted == last_text(all.take(k), BomaUtf16Variant::ArtistsArtistNameSorted),
                cloud_library_id == last_text(all.take(k), BomaUtf16Variant::ArtistsArtistCloudId),
                opt_str_bytes(artwork_url) == last_artwork(all.take(k)),
                forall|i: int| 0 <= i < k ==> artist_boma(#[trigger] all[i]),
            decreases bomas@.len(),
        {
            let b = bomas.remove(0);
            let ghost bk = b;
            proof {
                assert(bk == all[k]);
                assert(all.take(k + 1) =~= all.take(k).push(all[k]));
                assert(all.take(k + 1).drop_last() =~= all.take(k));
                assert(all.skip(k + 1) =~= all.skip(k).drop_first());
            }
            match b {
                Boma::Utf16(BomaUtf16(value, BomaUtf16Variant::ArtistsArtistName)) => name = Some(value),
                Boma::Utf16(BomaUtf16(value, BomaUtf16Variant::ArtistsArtistNameSorted)) => name_sorted = Some(value),
                Boma::Utf16(BomaUtf16(value, BomaUtf16Variant::ArtistsArtistCloudId)) => cloud_library_id = Some(value),
                Boma::Utf8Xml(BomaUtf8(value, BomaUtf8Variant::PlistArtworkURL)) => {
                    if let Some(url) = artwork_url_of(value) {
                        artwork_url = Some(url);
                    }
                },
                other => {
                    proof {
                        assert(!artist_boma(all[k]));
                    }
                    return Err(EntityReadError::UnexpectedBoma(other.get_subtype()));
                },
            }
            proof { k = k + 1; }
        }
        proof {
            assert(all.take(k) =~= all);
        }
        Ok(Artist {
            persistent_id: PersistentId::new(persistent_id),
            cloud_catalog_id: CloudCatalogId::new(cloud_catalog_id),
            cloud_library_id,
            name,
            name_sorted,
            artwork_url,
        })
    }

}

/// An Apple Music account associated with the library.
#[derive(Debug)]
pub struct Account<'a> {
    pub bomas: Vec<Boma<'a>>,
    pub persistent_id: PersistentId<AccountKind>,
}

impl<'a> Artist<'a> {
    /// Reads an artist chunk (`iAma`): its header, persistent id, catalog id and bomas.
    pub fn read(cursor: &mut ChunkCursor<'a>) -> (r: Result<Self, EntityReadError>)
        requires
            old(cursor).wf(),
        ensures
            final(cursor).wf(),
            final(cursor).bytes() == old(cursor).bytes(),
            final(cursor).app_version() == old(cursor).app_version(),
            r is Ok ==> final(cursor).pos() == entity_end(old(cursor).bytes(), old(cursor).pos()),
            r is Ok <==> entity_fits(*old(cursor), seq![105u8, 65, 109, 97], 56)
                && forall|i: int| 0 <= i < entity_codes(*old(cursor)).len() ==> artist_kind(subtype_of(#[trigger] entity_codes(*old(cursor))[i])),
            r matches Ok(value) ==> exists|bs: Seq<Boma<'a>>| #[trigger] entity_bomas(old(cursor).bytes(), old(cursor).pos(), bs)
                && artist_fields(value, bs),
            r matches Ok(value) ==> (value.cloud_catalog_id matches Some(c)
                ==> c.raw() == le_bytes(old(cursor).bytes(), old(cursor).pos() + 52, 4)),
            r matches Ok(value) ==> {
                &&& old(cursor).rest().take(4) == seq![105u8, 65, 109, 97]
                &&& value.persistent_id.0 == le_bytes(old(cursor).bytes(), old(cursor).pos() + 16, 8)
                &&& (value.cloud_catalog_id is Some <==> le_bytes(old(cursor).bytes(), old(cursor).pos() + 52, 4) != 0)
            },
    {
        let start = entity(read_entity_start(cursor, Signature([105u8, 65, 109, 97])))?;
        entity(io(cursor.skip(28)))?;
        let cloud_catalog_id = entity(io(cursor.read_u32()))?;
        entity(skip_to_end(cursor, &start.header))?;
        let bomas = match read_bomas(cursor, start.header.count.unwrap()) {
            Ok(b) => b,
            Err(e) => { return Err(EntityReadError::Boma(e)); },
        };
        proof {
            assert forall|i: int| 0 <= i < bomas@.len() implies (artist_kind(subtype_of(entity_codes(*old(cursor))[i]))
                <==> artist_boma(#[trigger] bomas@[i])) by {
                assert(bomas@[i].subtype() == subtype_of(entity_codes(*old(cursor))[i]));
            }
        }
        let ghost bs = bomas@;
        let artist = Artist::from_parts(start.persistent_id, cloud_catalog_id, bomas)?;
        proof {
            assert(entity_bomas(old(cursor).bytes(), old(cursor).pos(), bs));
            assert forall|i: int| 0 <= i < entity_codes(*old(cursor)).len() implies artist_kind(
                subtype_of(#[trigger] entity_codes(*old(cursor))[i])) by {
                assert(bs[i].subtype() == subtype_of(entity_codes(*old(cursor))[i]));
                assert(artist_boma(bs[i]));
            }
        }
        entity(ended(enforce_length(
            LengthEnforcement::ToDefinedLengthPlusAppendagesByteLength,
            Signature([105u8, 65, 109, 97]),
            start.header.offset,
            start.header.length,
            start.header.appendage_inclusive_byte_length,
            cursor.position(),
        )))?;
        Ok(artist)
    }
}


impl<'a> Account<'a> {
}

/// Why a track could not be read.
#[derive(Debug)]
pub enum TrackReadError<'a> {
    Io(ChunkError),
    Boma(BomaReadError),
    /// A boma every track has was missing.
    LackingBoma(BomaSubtype),
    /// A property list could not be read.
    Deserialization(crate::plist::Error<'a>),
    /// A property list held nothing.
    EmptyPropertyList,
    /// A property list held something else than a dictionary of text where text was expected.
    UnexpectedPropertyListShape,
}

impl<'a> Account<'a> {
    /// Reads an account chunk (`isma`): its header, persistent id and bomas, all kept.
    pub fn read(cursor: &mut ChunkCursor<'a>) -> (r: Result<Self, EntityReadError>)
        requires
            old(cursor).wf(),
        ensures
            final(cursor).wf(),
            final(cursor).bytes() == old(cursor).bytes(),
            final(cursor).app_version() == old(cursor).app_version(),
            r is Ok ==> final(cursor).pos() == entity_end(old(cursor).bytes(), old(cursor).pos()),
            r is Ok <==> entity_fits(*old(cursor), seq![105u8, 115, 109, 97], 24),
            r matches Ok(value) ==> {
                &&& old(cursor).rest().take(4) == seq![105u8, 115, 109, 97]
                &&& value.persistent_id.0 == le_bytes(old(cursor).bytes(), old(cursor).pos() + 16, 8)
                &&& value.bomas@.len() == le_bytes(old(cursor).bytes(), old(cursor).pos() + 12, 4) as u32
                &&& entity_bomas(old(cursor).bytes(), old(cursor).pos(), value.bomas@)
            },
    {
        let start = entity(read_entity_start(cursor, Signature([105u8, 115, 109, 97])))?;
        entity(skip_to_end(cursor, &start.header))?;
        let bomas = match read_bomas(cursor, start.header.count.unwrap()) {
            Ok(b) => b,
            Err(e) => { return Err(EntityReadError::Boma(e)); },
        };
        entity(ended(enforce_length(
            LengthEnforcement::ToDefinedLengthPlusAppendagesByteLength,
            Signature([105u8, 115, 109, 97]),
            start.header.offset,
            start.header.length,
            start.header.appendage_inclusive_byte_length,
            cursor.position(),
        )))?;
        Ok(Account { bomas, persistent_id: PersistentId::new(start.persistent_id) })
    }
}


/// Whether the entry at `i` of `entries` is the first named `key`.
pub open spec fn first_entry_at(entries: Seq<(String, crate::plist::Value)>, key: Seq<char>, i: int) -> bool {
    &&& 0 <= i < entries.len()
    &&& entries[i].0@ == key
    &&& forall|j: int| 0 <= j < i ==> (#[trigger] entries[j]).0@ != key
}

/// The first entry named `key` among `es` is what the text of the entry reads to, among
/// their mathematical values `vs`.
proof fn lemma_entry_text(es: Seq<(String, crate::plist::Value)>, key: Seq<char>, vs: Seq<(Seq<char>, crate::plist::PlistValue)>)
    requires
        vs.len() == es.len(),
        forall|i: int| 0 <= i < es.len() ==> #[trigger] vs[i] == (es[i].0@, crate::plist::value_view(es[i].1)),
    ensures
        (forall|i: int| 0 <= i < es.len() ==> (#[trigger] es[i]).0@ != key) ==> crate::plist::entry_text(vs, key)
            == Ok::<Option<Seq<char>>, ()>(None),
        forall|i: int| #[trigger] first_entry_at(es, key, i) ==> crate::plist::entry_text(vs, key) == match es[i].1 {
            crate::plist::Value::String(s) => Ok::<Option<Seq<char>>, ()>(Some(s@)),
            _ => Err(()),
        },
    decreases es.len(),
{
    if es.len() > 0 {
        let es2 = es.drop_first();
        let vs2 = vs.drop_first();
        assert(vs[0] == (es[0].0@, crate::plist::value_view(es[0].1)));
        assert forall|i: int| 0 <= i < es2.len() implies #[trigger] vs2[i] == (es2[i].0@, crate::plist::value_view(es2[i].1)) by {
            assert(vs[i + 1] == (es[i + 1].0@, crate::plist::value_view(es[i + 1].1)));
        }
        lemma_entry_text(es2, key, vs2);
        if forall|i: int| 0 <= i < es.len() ==> (#[trigger] es[i]).0@ != key {
            assert(es[0].0@ != key);
            assert forall|i: int| 0 <= i < es2.len() implies (#[trigger] es2[i]).0@ != key by {
                assert(es[i + 1].0@ != key);
            }
        }
        assert forall|i: int| #[trigger] first_entry_at(es, key, i) implies crate::plist::entry_text(vs, key) == match es[i].1 {
            crate::plist::Value::String(s) => Ok::<Option<Seq<char>>, ()>(Some(s@)),
            _ => Err(()),
        } by {
            if i > 0 {
                assert(es[0].0@ != key);
                assert forall|j: int| 0 <= j < i - 1 implies (#[trigger] es2[j]).0@ != key by {
                    assert(es[j + 1].0@ != key);
                }
                assert(first_entry_at(es2, key, i - 1));
            }
        }
    }
}

/// Whether `text` starts with the property-list header.
pub open spec fn has_prelude(text: Seq<u8>) -> bool {
    crate::text::starts_with(text, crate::text::bytes_of(crate::plist::PRELUDE))
}

/// What follows the property-list header in `text`.
pub open spec fn plist_body(text: Seq<u8>) -> Seq<u8> {
    text.skip(crate::text::bytes_of(crate::plist::PRELUDE).len() as int)
}

/// Whether the tags after the header are well formed as far as a property list is checked
/// before it is read: every closing tag ends, and no block opener follows another.
pub open spec fn plist_tags_ok(text: Seq<u8>) -> bool {
    crate::xml::node::closers_close(plist_body(text)) && crate::xml::node::openers_not_doubled(plist_body(text))
}

/// The text of the entry `key` in the dictionary `v`: `None` where there is no such entry.
pub fn dictionary_text(v: &crate::plist::Value, key: &str) -> (r: Result<Option<String>, ()>)
    ensures
        !(v is Dict) ==> r is Err,
        v matches crate::plist::Value::Dict(es) ==> ((forall|i: int| 0 <= i < es@.len() ==> (#[trigger] es@[i]).0@ != key@)
            <==> r == Ok::<Option<String>, ()>(None)),
        v matches crate::plist::Value::Dict(es) ==> forall|i: int| #[trigger] first_entry_at(es@, key@, i) ==> match es@[i].1 {
            crate::plist::Value::String(s) => r matches Ok(Some(t)) && t@ == s@,
            _ => r is Err,
        },
        match crate::plist::value_view(*v) {
            crate::plist::PlistValue::Dict(es) => match crate::plist::entry_text(es, key@) {
                Ok(None) => r == Ok::<Option<String>, ()>(None),
                Ok(Some(t)) => r matches Ok(Some(s)) && s@ == t,
                Err(_) => r is Err,
            },
            _ => r is Err,
        },
{
    proof {
        if v is Dict {
            let es = v->Dict_0;
            let vs = crate::plist::value_view(*v)->Dict_0;
            assert forall|i: int| 0 <= i < es@.len() implies #[trigger] vs[i] == (es@[i].0@, crate::plist::value_view(es@[i].1)) by {}
            lemma_entry_text(es@, key@, vs);
            if !(forall|i: int| 0 <= i < es@.len() ==> (#[trigger] es@[i]).0@ != key@) {
                let i = choose|i: int| 0 <= i < es@.len() && (#[trigger] es@[i]).0@ == key@;
                let f = first_index(es@, key@, i);
                assert(first_entry_at(es@, key@, f));
            }
        }
    }
    match v {
        crate::plist::Value::Dict(es) => match v.get(key) {
            None => Ok(None),
            Some(found) => {
                proof {
                    let i0 = choose|i: int| 0 <= i < es@.len() && (#[trigger] es@[i]).0@ == key@
                        && *found == es@[i].1 && forall|j: int| 0 <= j < i ==> (#[trigger] es@[j]).0@ != key@;
                    assert forall|i: int| #[trigger] first_entry_at(es@, key@, i) implies i == i0 by {
                        if i < i0 {
                            assert(es@[i].0@ != key@);
                        } else if i0 < i {
                            assert(es@[i0].0@ != key@);
                        }
                    }
                }
                match found {
                    crate::plist::Value::String(s) => Ok(Some(String::from_str(s.as_str()))),
                    _ => Err(()),
                }
            },
        },
        _ => Err(()),
    }
}

/// The text of the entry `key` in the property list `text`, which must hold a dictionary.
fn plist_field<'a>(text: &'a str, key: &str) -> (r: Result<Option<String>, TrackReadError<'a>>)
    ensures
        !has_prelude(crate::text::bytes_of(text)) ==> r matches Err(TrackReadError::Deserialization(crate::plist::Error::MissingPrelude)),
        has_prelude(crate::text::bytes_of(text)) && !plist_tags_ok(crate::text::bytes_of(text))
            ==> r matches Err(TrackReadError::Deserialization(crate::plist::Error::Malformed)),
        has_prelude(crate::text::bytes_of(text)) && plist_body(crate::text::bytes_of(text)).len() == 0
            ==> r matches Err(TrackReadError::EmptyPropertyList),
        match crate::plist::plist_entry_text(crate::text::bytes_of(text), key@) {
            Ok(None) => r == Ok::<Option<String>, TrackReadError<'a>>(None),
            Ok(Some(t)) => r matches Ok(Some(s)) && s@ == t,
            Err(_) => r is Err,
        },
{
    match crate::plist::parse(text) {
        Err(e) => Err(TrackReadError::Deserialization(e)),
        Ok(None) => Err(TrackReadError::EmptyPropertyList),
        Ok(Some(v)) => match dictionary_text(&v, key) {
            Ok(s) => Ok(s),
            Err(()) => Err(TrackReadError::UnexpectedPropertyListShape),
        },
    }
}

/// The first index at or below `i` whose entry is named `key`, where `i`'s is.
proof fn first_index(es: Seq<(String, crate::plist::Value)>, key: Seq<char>, i: int) -> (f: int)
    requires
        0 <= i < es.len(),
        es[i].0@ == key,
    ensures
        first_entry_at(es, key, f),
    decreases i,
{
    if exists|j: int| 0 <= j < i && (#[trigger] es[j]).0@ == key {
        let j = choose|j: int| 0 <= j < i && (#[trigger] es[j]).0@ == key;
        first_index(es, key, j)
    } else {
        i
    }
}

/// Whether `text` passes the checks made before a property list is read: the header is
/// there, the tags after it are well formed, and something follows it.
pub open spec fn plist_text_ok(text: Seq<u8>) -> bool {
    has_prelude(text) && plist_tags_ok(text) && plist_body(text).len() > 0
}

/// Whether a boma holds a property list that a track reads: its cloud information or its
/// cloud download information.
pub open spec fn track_plist_boma<'a>(bm: Boma<'a>) -> bool {
    bm matches Boma::Utf8Xml(t) && (t.1 == BomaUtf8Variant::PlistTrackCloudInformation
        || t.1 == BomaUtf8Variant::PlistCloudDownloadInformation)
}

/// Whether a boma holds a collection's information list.
pub open spec fn collection_plist_boma<'a>(bm: Boma<'a>) -> bool {
    bm matches Boma::Utf8Xml(t) && t.1 == BomaUtf8Variant::PlistPlaylistInfo
}

/// Whether a boma of subtype `s` holds a property list that a track reads.
pub open spec fn track_plist_kind(s: Option<BomaSubtype>) -> bool {
    s == Some(BomaSubtype::Utf8Xml(BomaUtf8Variant::PlistTrackCloudInformation))
        || s == Some(BomaSubtype::Utf8Xml(BomaUtf8Variant::PlistCloudDownloadInformation))
}

/// Whether, among the bomas of the entity chunk at `p` of `b`, one is of subtype `s`.
pub open spec fn entity_has(b: Seq<u8>, p: int, s: BomaSubtype) -> bool {
    exists|i: int| 0 <= i < entity_codes_at(b, p).len() && subtype_of(#[trigger] entity_codes_at(b, p)[i]) == Some(s)
}

/// What reading a track chunk at `p` of `b` needs: the chunk with its bomas, among them
/// its numerics.
pub open spec fn track_needed_at(b: Seq<u8>, p: int, version: Option<AppleMusicVersion>) -> bool {
    entity_fits_at(b, p, version, seq![105u8, 116, 109, 97], 188) && entity_has(b, p, BomaSubtype::TrackNumerics)
}

/// What is enough for reading a track chunk at `p` of `b`: what it needs, and no property
/// list to read.
pub open spec fn track_plain_at(b: Seq<u8>, p: int, version: Option<AppleMusicVersion>) -> bool {
    &&& track_needed_at(b, p, version)
    &&& forall|i: int| 0 <= i < entity_codes_at(b, p).len() ==> !track_plist_kind(subtype_of(#[trigger] entity_codes_at(b, p)[i]))
}

/// What reading a collection chunk at `p` of `b` needs: the chunk with its fixed fields and
/// its bomas, among them its name.
pub open spec fn collection_needed_at(b: Seq<u8>, p: int, version: Option<AppleMusicVersion>) -> bool {
    entity_fits_at(b, p, version, seq![108u8, 112, 109, 97], 306)
        && entity_has(b, p, BomaSubtype::Utf16(BomaUtf16Variant::PlaylistName))
}

/// What is enough for reading a collection chunk at `p` of `b`: what it needs, and no
/// information list to read.
pub open spec fn collection_plain_at(b: Seq<u8>, p: int, version: Option<AppleMusicVersion>) -> bool {
    &&& collection_needed_at(b, p, version)
    &&& forall|i: int| 0 <= i < entity_codes_at(b, p).len() ==> subtype_of(#[trigger] entity_codes_at(b, p)[i])
        != Some(BomaSubtype::Utf8Xml(BomaUtf8Variant::PlistPlaylistInfo))
}

/// What reading a track chunk needs, at a position of `b`.
pub open spec fn track_needed_fn(b: Seq<u8>, version: Option<AppleMusicVersion>) -> spec_fn(int) -> bool {
    |q: int| track_needed_at(b, q, version)
}

/// What is enough for reading a track chunk, at a position of `b`.
pub open spec fn track_plain_fn(b: Seq<u8>, version: Option<AppleMusicVersion>) -> spec_fn(int) -> bool {
    |q: int| track_plain_at(b, q, version)
}

/// What reading a collection chunk needs, at a position of `b`.
pub open spec fn collection_needed_fn(b: Seq<u8>, version: Option<AppleMusicVersion>) -> spec_fn(int) -> bool {
    |q: int| collection_needed_at(b, q, version)
}

/// What is enough for reading a collection chunk, at a position of `b`.
pub open spec fn collection_plain_fn(b: Seq<u8>, version: Option<AppleMusicVersion>) -> spec_fn(int) -> bool {
    |q: int| collection_plain_at(b, q, version)
}

/// There are numerics among `bs` exactly when one of them is numerics.
proof fn lemma_last_numerics_some<'a>(bs: Seq<Boma<'a>>)
    ensures
        last_numerics(bs) is Some <==> exists|i: int| 0 <= i < bs.len() && (#[trigger] bs[i]) is TrackNumerics,
    decreases bs.len(),
{
    if bs.len() > 0 {
        lemma_last_numerics_some(bs.drop_last());
        if exists|i: int| 0 <= i < bs.len() && (#[trigger] bs[i]) is TrackNumerics {
            let i = choose|i: int| 0 <= i < bs.len() && (#[trigger] bs[i]) is TrackNumerics;
            if i < bs.len() - 1 {
                assert(bs.drop_last()[i] is TrackNumerics);
            }
        }
        if exists|i: int| 0 <= i < bs.drop_last().len() && (#[trigger] bs.drop_last()[i]) is TrackNumerics {
            let i = choose|i: int| 0 <= i < bs.drop_last().len() && (#[trigger] bs.drop_last()[i]) is TrackNumerics;
            assert(bs[i] is TrackNumerics);
        }
    }
}

/// There is a text of `v` among `bs` exactly when one of them is such a text.
proof fn lemma_last_text_some<'a>(bs: Seq<Boma<'a>>, v: BomaUtf16Variant)
    ensures
        last_text(bs, v) is Some <==> exists|i: int| 0 <= i < bs.len() && (#[trigger] bs[i]).subtype() == Some(BomaSubtype::Utf16(v)),
    decreases bs.len(),
{
    if bs.len() > 0 {
        lemma_last_text_some(bs.drop_last(), v);
        if exists|i: int| 0 <= i < bs.len() && (#[trigger] bs[i]).subtype() == Some(BomaSubtype::Utf16(v)) {
            let i = choose|i: int| 0 <= i < bs.len() && (#[trigger] bs[i]).subtype() == Some(BomaSubtype::Utf16(v));
            if i < bs.len() - 1 {
                assert(bs.drop_last()[i].subtype() == Some(BomaSubtype::Utf16(v)));
            }
        }
        if exists|i: int| 0 <= i < bs.drop_last().len() && (#[trigger] bs.drop_last()[i]).subtype() == Some(BomaSubtype::Utf16(v)) {
            let i = choose|i: int| 0 <= i < bs.drop_last().len() && (#[trigger] bs.drop_last()[i]).subtype() == Some(BomaSubtype::Utf16(v));
            assert(bs[i].subtype() == Some(BomaSubtype::Utf16(v)));
        }
    }
}

/// The text of the entry `key` in the last property list of kind `v` among `bs`: `None`
/// where there is no such list or it has no such entry.
pub open spec fn last_plist_entry<'a>(bs: Seq<Boma<'a>>, v: BomaUtf8Variant, key: Seq<char>) -> Option<Seq<char>>
    decreases bs.len(),
{
    if bs.len() == 0 {
        None
    } else {
        match bs.last() {
            Boma::Utf8Xml(t) => if t.1 == v {
                match crate::plist::plist_entry_text(crate::text::bytes_of(t.0), key) {
                    Ok(o) => o,
                    Err(_) => None,
                }
            } else {
                last_plist_entry(bs.drop_last(), v, key)
            },
            _ => last_plist_entry(bs.drop_last(), v, key),
        }
    }
}

/// Whether the artwork token `token` names an image: a pool, then a slash and an ASCII byte
/// (or nothing) after it.
pub open spec fn token_image_ok(token: Seq<char>) -> bool {
    let b = vstd::utf8::encode_utf8(token);
    crate::mzstatic::pool::pool_read_spec(b) matches Ok(pr) && pr.bytes + 1 <= b.len() && b[pr.bytes as int] < 128
}

/// Whether `a` is the artwork that the artwork token `token` gives: an image in the token's
/// pool with the rest of the token as its asset, where the token names one; else none.
pub open spec fn artwork_from_token<'a>(a: Option<MzStaticImage<'a>>, token: Option<Seq<char>>) -> bool {
    if token is Some && token_image_ok(token->Some_0) {
        let b = vstd::utf8::encode_utf8(token->Some_0);
        let pr = crate::mzstatic::pool::pool_read_spec(b)->Ok_0;
        a matches Some(img) && img.pool == crate::mzstatic::image::PoolOrSagaSpecifier::Pool(pr.value)
            && vstd::utf8::encode_utf8(img.asset_token@) == b.subrange(pr.bytes + 1, b.len() as int)
    } else {
        a is None
    }
}

/// Whether `c` is the cloud id that `id` gives.
pub open spec fn cloud_id_from<T>(c: Option<CloudLibraryId<T>>, id: Option<Seq<char>>) -> bool {
    match id {
        None => c is None,
        Some(i) => c matches Some(x) && x.value@ == i,
    }
}

/// Whether a boma that a track reads as a property list holds one with a dictionary whose
/// entry for the track, if any, is text: the artwork token in cloud information, the cloud
/// id in cloud download information.
pub open spec fn track_plist_readable<'a>(bm: Boma<'a>) -> bool {
    match bm {
        Boma::Utf8Xml(t) => if t.1 == BomaUtf8Variant::PlistTrackCloudInformation {
            crate::plist::plist_entry_text(crate::text::bytes_of(t.0), "cloud-artwork-token"@) is Ok
        } else if t.1 == BomaUtf8Variant::PlistCloudDownloadInformation {
            crate::plist::plist_entry_text(crate::text::bytes_of(t.0), "cloud-universal-library-id"@) is Ok
        } else {
            true
        },
        _ => true,
    }
}

/// Whether the text fields and numerics of the track `t` are those its bomas `bs` give:
/// each from the last boma that holds it; the artwork and cloud id come from the last
/// property list of cloud information and of cloud download information.
pub open spec fn track_fields<'a>(t: Track<'a>, bs: Seq<Boma<'a>>) -> bool {
    &&& last_numerics(bs) == Some(t.numerics)
    &&& artwork_from_token(t.artwork, last_plist_entry(bs, BomaUtf8Variant::PlistTrackCloudInformation, "cloud-artwork-token"@))
    &&& cloud_id_from(t.cloud_id, last_plist_entry(bs, BomaUtf8Variant::PlistCloudDownloadInformation, "cloud-universal-library-id"@))
    &&& t.album_name == last_text(bs, BomaUtf16Variant::Album)
    &&& t.album_artist_name == last_text(bs, BomaUtf16Variant::AlbumArtist)
    &&& t.artist_name == last_text(bs, BomaUtf16Variant::Artist)
    &&& t.composer == last_text(bs, BomaUtf16Variant::Composer)
    &&& t.copyright == last_text(bs, BomaUtf16Variant::CopyrightHolder)
    &&& t.name == last_text(bs, BomaUtf16Variant::TrackTitle)
    &&& t.kind == last_text(bs, BomaUtf16Variant::Kind)
    &&& t.genre == last_text(bs, BomaUtf16Variant::Genre)
    &&& t.sort_order_name == last_text(bs, BomaUtf16Variant::SortOrderTrackTitle)
    &&& t.sort_order_artist_name == last_text(bs, BomaUtf16Variant::SortOrderArtist)
    &&& t.sort_order_album_name == last_text(bs, BomaUtf16Variant::SortOrderAlbum)
    &&& t.sort_order_album_artist_name == last_text(bs, BomaUtf16Variant::SortOrderAlbumArtist)
    &&& t.sort_order_composer == last_text(bs, BomaUtf16Variant::SortOrderComposer)
    &&& t.comment == last_text(bs, BomaUtf16Variant::Comment)
    &&& t.purchaser_email == last_text(bs, BomaUtf16Variant::PurchaserEmail)
    &&& t.purchaser_name == last_text(bs, BomaUtf16Variant::PurchaserName)
    &&& t.grouping == last_text(bs, BomaUtf16Variant::Grouping)
    &&& t.classical_movement_title == last_text(bs, BomaUtf16Variant::ClassicalMovementTitle)
    &&& t.classical_work_name == last_text(bs, BomaUtf16Variant::ClassicalWorkName)
    &&& t.fairplay_info == last_text(bs, BomaUtf16Variant::FairPlayInfo)
    &&& t.local_file_path == last_text(bs, BomaUtf16Variant::TrackLocalFilePath)
}

/// A track.
#[derive(Debug)]
pub struct Track<'a> {
    pub persistent_id: PersistentId<TrackKind>,
    /// The id in the user's cloud library.
    pub cloud_id: Option<CloudLibraryId<TrackKind>>,
    /// Always names an album, which may hold no information.
    pub album_id: PersistentId<AlbumKind>,
    /// Always names an artist, which may hold no information.
    pub artist_id: PersistentId<ArtistKind>,
    pub artwork: Option<MzStaticImage<'a>>,
    pub numerics: TrackNumerics,
    pub album_name: Option<Utf16Str<'a>>,
    pub album_artist_name: Option<Utf16Str<'a>>,
    pub artist_name: Option<Utf16Str<'a>>,
    pub composer: Option<Utf16Str<'a>>,
    pub copyright: Option<Utf16Str<'a>>,
    pub name: Option<Utf16Str<'a>>,
    pub kind: Option<Utf16Str<'a>>,
    pub genre: Option<Utf16Str<'a>>,
    pub sort_order_name: Option<Utf16Str<'a>>,
    pub sort_order_artist_name: Option<Utf16Str<'a>>,
    pub sort_order_album_name: Option<Utf16Str<'a>>,
    pub sort_order_album_artist_name: Option<Utf16Str<'a>>,
    pub sort_order_composer: Option<Utf16Str<'a>>,
    pub comment: Option<Utf16Str<'a>>,
    pub purchaser_email: Option<Utf16Str<'a>>,
    pub purchaser_name: Option<Utf16Str<'a>>,
    pub grouping: Option<Utf16Str<'a>>,
    pub classical_movement_title: Option<Utf16Str<'a>>,
    pub classical_work_name: Option<Utf16Str<'a>>,
    pub fairplay_info: Option<Utf16Str<'a>>,
    pub local_file_path: Option<Utf16Str<'a>>,
}

impl<'a> Track<'a> {
    /// The track that `bomas` describe: each text from the last boma that holds it, the
    /// numerics from the last numerics boma (which must be there), the artwork and cloud id
    /// from the property lists of cloud information. Other bomas are passed over.
    #[verifier::loop_isolation(false)]
    #[verifier::rlimit(60)]
    pub fn from_parts(persistent_id: u64, album_id: u64, artist_id: u64, bomas: Vec<Boma<'a>>) -> (r: Result<Self, TrackReadError<'a>>)
        ensures
            last_numerics(bomas@) is None ==> r is Err,
            last_numerics(bomas@) is Some && (forall|i: int| 0 <= i < bomas@.len() ==> !track_plist_boma(#[trigger] bomas@[i])) ==> r is Ok,
            r is Ok <==> last_numerics(bomas@) is Some && forall|i: int| 0 <= i < bomas@.len() ==> track_plist_readable(#[trigger] bomas@[i]),
            r is Ok ==> forall|i: int| 0 <= i < bomas@.len() && track_plist_boma(#[trigger] bomas@[i])
                ==> plist_text_ok(crate::text::bytes_of(bomas@[i]->Utf8Xml_0.0)),
            r matches Ok(t) ==> track_fields(t, bomas@),
            r matches Ok(t) ==> {
                &&& t.persistent_id.0 == persistent_id
                &&& t.album_id.0 == album_id
                &&& t.artist_id.0 == artist_id
                &&& last_numerics(bomas@) == Some(t.numerics)
                &&& t.album_name == last_text(bomas@, BomaUtf16Variant::Album)
                &&& t.album_artist_name == last_text(bomas@, BomaUtf16Variant::AlbumArtist)
                &&& t.artist_name == last_text(bomas@, BomaUtf16Variant::Artist)
                &&& t.composer == last_text(bomas@, BomaUtf16Variant::Composer)
                &&& t.copyright == last_text(bomas@, BomaUtf16Variant::CopyrightHolder)
                &&& t.name == last_text(bomas@, BomaUtf16Variant::TrackTitle)
                &&& t.kind == last_text(bomas@, BomaUtf16Variant::Kind)
                &&& t.genre == last_text(bomas@, BomaUtf16Variant::Genre)
                &&& t.sort_order_name == last_text(bomas@, BomaUtf16Variant::SortOrderTrackTitle)
                &&& t.sort_order_artist_name == last_text(bomas@, BomaUtf16Variant::SortOrderArtist)
                &&& t.sort_order_album_name == last_text(bomas@, BomaUtf16Variant::SortOrderAlbum)
                &&& t.sort_order_album_artist_name == last_text(bomas@, BomaUtf16Variant::SortOrderAlbumArtist)
                &&& t.sort_order_composer == last_text(bomas@, BomaUtf16Variant::SortOrderComposer)
                &&& t.comment == last_text(bomas@, BomaUtf16Variant::Comment)
                &&& t.purchaser_email == last_text(bomas@, BomaUtf16Variant::PurchaserEmail)
                &&& t.purchaser_name == last_text(bomas@, BomaUtf16Variant::PurchaserName)
                &&& t.grouping == last_text(bomas@, BomaUtf16Variant::Grouping)
                &&& t.classical_movement_title == last_text(bomas@, BomaUtf16Variant::ClassicalMovementTitle)
                &&& t.classical_work_name == last_text(bomas@, BomaUtf16Variant::ClassicalWorkName)
                &&& t.fairplay_info == last_text(bomas@, BomaUtf16Variant::FairPlayInfo)
                &&& t.local_file_path == last_text(bomas@, BomaUtf16Variant::TrackLocalFilePath)
            },
    {
        let ghost all = bomas@;
        let mut bomas = bomas;
        let mut album_name: Option<Utf16Str<'a>> = None;
        let mut album_artist_name: Option<Utf16Str<'a>> = None;
        let mut artist_name: Option<Utf16Str<'a>> = None;
        let mut composer: Option<Utf16Str<'a>> = None;
        let mut copyright: Option<Utf16Str<'a>> = None;
        let mut name: Option<Utf16Str<'a>> = None;
        let mut kind: Option<Utf16Str<'a>> = None;
        let mut genre: Option<Utf16Str<'a>> = None;
        let mut sort_order_name: Option<Utf16Str<'a>> = None;
        let mut sort_order_artist_name: Option<Utf16Str<'a>> = None;
        let mut sort_order_album_name: Option<Utf16Str<'a>> = None;
        let mut sort_order_album_artist_name: Option<Utf16Str<'a>> = None;
        let mut sort_order_composer: Option<Utf16Str<'a>> = None;
        let mut comment: Option<Utf16Str<'a>> = None;
        let mut purchaser_email: Option<Utf16Str<'a>> = None;
        let mut purchaser_name: Option<Utf16Str<'a>> = None;
        let mut grouping: Option<Utf16Str<'a>> = None;
        let mut classical_movement_title: Option<Utf16Str<'a>> = None;
        let mut classical_work_name: Option<Utf16Str<'a>> = None;
        let mut fairplay_info: Option<Utf16Str<'a>> = None;
        let mut local_file_path: Option<Utf16Str<'a>> = None;
        let mut numerics: Option<TrackNumerics> = None;
        let mut artwork: Option<MzStaticImage<'a>> = None;
        let mut cloud_id: Option<CloudLibraryId<TrackKind>> = None;
        let ghost mut k: int = 0;
        while bomas.len() > 0
            invariant
                0 <= k <= all.len(),
                bomas@ == all.skip(k),
                numerics == last_numerics(all.take(k)),
                forall|i: int| 0 <= i < k && track_plist_boma(#[trigger] all[i]) ==> plist_text_ok(crate::text::bytes_of(all[i]->Utf8Xml_0.0)),
                album_name == last_text(all.take(k), BomaUtf16Variant::Album),
                album_artist_name == last_text(all.take(k), BomaUtf16Variant::AlbumArtist),
                artist_name == last_text(all.take(k), BomaUtf16Variant::Artist),
                composer == last_text(all.take(k), BomaUtf16Variant::Composer),
                copyright == last_text(all.take(k), BomaUtf16Variant::CopyrightHolder),
                name == last_text(all.take(k), BomaUtf16Variant::TrackTitle),
                kind == last_text(all.take(k), BomaUtf16Variant::Kind),
                genre == last_text(all.take(k), BomaUtf16Variant::Genre),
                sort_order_name == last_text(all.take(k), BomaUtf16Variant::SortOrderTrackTitle),
                sort_order_artist_name == last_text(all.take(k), BomaUtf16Variant::SortOrderArtist),
                sort_order_album_name == last_text(all.take(k), BomaUtf16Variant::SortOrderAlbum),
                sort_order_album_artist_name == last_text(all.take(k), BomaUtf16Variant::SortOrderAlbumArtist),
                sort_order_composer == last_text(all.take(k), BomaUtf16Variant::SortOrderComposer),
                comment == last_text(all.take(k), BomaUtf16Variant::Comment),
                purchaser_email == last_text(all.take(k), BomaUtf16Variant::PurchaserEmail),
                purchaser_name == last_text(all.take(k), BomaUtf16Variant::PurchaserName),
                grouping == last_text(all.take(k), BomaUtf16Variant::Grouping),
                classical_movement_title == last_text(all.take(k), BomaUtf16Variant::ClassicalMovementTitle),
                classical_work_name == last_text(all.take(k), BomaUtf16Variant::ClassicalWorkName),
                fairplay_info == last_text(all.take(k), BomaUtf16Variant::FairPlayInfo),
                local_file_path == last_text(all.take(k), BomaUtf16Variant::TrackLocalFilePath),
                artwork_from_token(artwork, last_plist_entry(all.take(k), BomaUtf8Variant::PlistTrackCloudInformation, "cloud-artwork-token"@)),
                forall|i: int| 0 <= i < k ==> track_plist_readable(#[trigger] all[i]),
                cloud_id_from(cloud_id, last_plist_entry(all.take(k), BomaUtf8Variant::PlistCloudDownloadInformation, "cloud-universal-library-id"@)),
            decreases bomas@.len(),
        {
            let b = bomas.remove(0);
            let ghost bk = b;
            proof {
                assert(bk == all[k]);
                assert(all.take(k + 1) =~= all.take(k).push(all[k]));
                assert(all.take(k + 1).drop_last() =~= all.take(k));
                assert(all.skip(k + 1) =~= all.skip(k).drop_first());
            }
            match b {
                Boma::Utf16(BomaUtf16(value, BomaUtf16Variant::Album)) => album_name = Some(value),
                Boma::Utf16(BomaUtf16(value, BomaUtf16Variant::AlbumArtist)) => album_artist_name = Some(value),
                Boma::Utf16(BomaUtf16(value, BomaUtf16Variant::Artist)) => artist_name = Some(value),
                Boma::Utf16(BomaUtf16(value, BomaUtf16Variant::Composer)) => composer = Some(value),
                Boma::Utf16(BomaUtf16(value, BomaUtf16Variant::CopyrightHolder)) => copyright = Some(value),
                Boma::Utf16(BomaUtf16(value, BomaUtf16Variant::TrackTitle)) => name = Some(value),
                Boma::Utf16(BomaUtf16(value, BomaUtf16Variant::Kind)) => kind = Some(value),
                Boma::Utf16(BomaUtf16(value, BomaUtf16Variant::Genre)) => genre = Some(value),
                Boma::Utf16(BomaUtf16(value, BomaUtf16Variant::SortOrderTrackTitle)) => sort_order_name = Some(value),
                Boma::Utf16(BomaUtf16(value, BomaUtf16Variant::SortOrderArtist)) => sort_order_artist_name = Some(value),
                Boma::Utf16(BomaUtf16(value, BomaUtf16Variant::SortOrderAlbum)) => sort_order_album_name = Some(value),
                Boma::Utf16(BomaUtf16(value, BomaUtf16Variant::SortOrderAlbumArtist)) => sort_order_album_artist_name = Some(value),
                Boma::Utf16(BomaUtf16(value, BomaUtf16Variant::SortOrderComposer)) => sort_order_composer = Some(value),
                Boma::Utf16(BomaUtf16(value, BomaUtf16Variant::Comment)) => comment = Some(value),
                Boma::Utf16(BomaUtf16(value, BomaUtf16Variant::PurchaserEmail)) => purchaser_email = Some(value),
                Boma::Utf16(BomaUtf16(value, BomaUtf16Variant::PurchaserName)) => purchaser_name = Some(value),
                Boma::Utf16(BomaUtf16(value, BomaUtf16Variant::Grouping)) => grouping = Some(value),
                Boma::Utf16(BomaUtf16(value, BomaUtf16Variant::ClassicalMovementTitle)) => classical_movement_title = Some(value),
                Boma::Utf16(BomaUtf16(value, BomaUtf16Variant::ClassicalWorkName)) => classical_work_name = Some(value),
                Boma::Utf16(BomaUtf16(value, BomaUtf16Variant::FairPlayInfo)) => fairplay_info = Some(value),
                Boma::Utf16(BomaUtf16(value, BomaUtf16Variant::TrackLocalFilePath)) => local_file_path = Some(value),
                Boma::TrackNumerics(value) => numerics = Some(value),
                Boma::Utf8Xml(BomaUtf8(value, BomaUtf8Variant::PlistTrackCloudInformation)) => {
                    artwork = match plist_field(value, "cloud-artwork-token")? {
                        Some(token) => match MzStaticImage::try_with_pool_and_token(MaybeOwnedString::Owned(token)) {
                            Some(Ok(image)) => Some(image),
                            _ => None,
                        },
                        None => None,
                    };
                },
                Boma::Utf8Xml(BomaUtf8(value, BomaUtf8Variant::PlistCloudDownloadInformation)) => {
                    cloud_id = match plist_field(value, "cloud-universal-library-id")? {
                        Some(id) => Some(CloudLibraryId::new_unchecked(id)),
                        None => None,
                    };
                },
                _ => {},
            }
            proof { k = k + 1; }
        }
        proof {
            assert(all.take(k) =~= all);
        }
        let numerics = match numerics {
            Some(n) => n,
            None => { return Err(TrackReadError::LackingBoma(BomaSubtype::TrackNumerics)); },
        };
        Ok(Track {
            persistent_id: PersistentId::new(persistent_id),
            cloud_id,
            album_id: PersistentId::new(album_id),
            artist_id: PersistentId::new(artist_id),
            artwork,
            numerics,
            album_name,
            album_artist_name,
            artist_name,
            composer,
            copyright,
            name,
            kind,
            genre,
            sort_order_name,
            sort_order_artist_name,
            sort_order_album_name,
            sort_order_album_artist_name,
            sort_order_composer,
            comment,
            purchaser_email,
            purchaser_name,
            grouping,
            classical_movement_title,
            classical_work_name,
            fairplay_info,
            local_file_path,
        })
    }

}

/// Why a collection could not be read.
#[derive(Debug)]
pub enum CollectionReadError<'a> {
    Io(ChunkError),
    Boma(BomaReadError),
    /// A boma every collection has was missing.
    LackingBoma(BomaSubtype),
    /// The property list of the collection's information could not be read.
    Deserialization(crate::plist::Error<'a>),
    /// The property list of the collection's information held nothing.
    EmptyPropertyList,
    /// The property list held something else than a dictionary of text where text was expected.
    UnexpectedPropertyListShape,
    /// The owner's id was not a number.
    BadOwnerId(ParseIntError),
}

impl<'a> Track<'a> {
    /// Reads a track chunk (`itma`): its header, persistent id, the ids of its album and
    /// artist, and its bomas.
    pub fn read(cursor: &mut ChunkCursor<'a>) -> (r: Result<Self, TrackReadError<'a>>)
        requires
            old(cursor).wf(),
        ensures
            final(cursor).wf(),
            final(cursor).bytes() == old(cursor).bytes(),
            final(cursor).app_version() == old(cursor).app_version(),
            r is Ok ==> final(cursor).pos() == entity_end(old(cursor).bytes(), old(cursor).pos()),
            r is Ok ==> track_needed_at(old(cursor).bytes(), old(cursor).pos(), old(cursor).app_version()),
            track_plain_at(old(cursor).bytes(), old(cursor).pos(), old(cursor).app_version()) ==> r is Ok,
            track_needed_at(old(cursor).bytes(), old(cursor).pos(), old(cursor).app_version()) && (forall|bs: Seq<Boma<'a>>|
                #[trigger] entity_bomas(old(cursor).bytes(), old(cursor).pos(), bs) ==> forall|i: int| 0 <= i < bs.len()
                ==> track_plist_readable(#[trigger] bs[i])) ==> r is Ok,
            r matches Ok(value) ==> exists|bs: Seq<Boma<'a>>| #[trigger] entity_bomas(old(cursor).bytes(), old(cursor).pos(), bs)
                && track_fields(value, bs),
            r matches Ok(value) ==> {
                &&& old(cursor).rest().take(4) == seq![105u8, 116, 109, 97]
                &&& value.persistent_id.0 == le_bytes(old(cursor).bytes(), old(cursor).pos() + 16, 8)
                &&& value.album_id.0 == le_bytes(old(cursor).bytes(), old(cursor).pos() + 172, 8)
                &&& value.artist_id.0 == le_bytes(old(cursor).bytes(), old(cursor).pos() + 180, 8)
            },
    {
        let start = match read_entity_start(cursor, Signature([105u8, 116, 109, 97])) {
            Ok(s) => s,
            Err(e) => { return Err(TrackReadError::Io(e)); },
        };
        match cursor.skip(148) { Ok(_) => {}, Err(e) => { return Err(TrackReadError::Io(ChunkError::Io(e))); } }
        let album_id = match cursor.read_u64() { Ok(v) => v, Err(e) => { return Err(TrackReadError::Io(ChunkError::Io(e))); } };
        let artist_id = match cursor.read_u64() { Ok(v) => v, Err(e) => { return Err(TrackReadError::Io(ChunkError::Io(e))); } };
        match skip_to_end(cursor, &start.header) { Ok(_) => {}, Err(e) => { return Err(TrackReadError::Io(e)); } }
        let bomas = match read_bomas(cursor, start.header.count.unwrap()) {
            Ok(b) => b,
            Err(e) => { return Err(TrackReadError::Boma(e)); },
        };
        let ghost bs = bomas@;
        let ghost b = old(cursor).bytes();
        let ghost p = old(cursor).pos();
        proof {
            lemma_last_numerics_some(bs);
            assert forall|i: int| 0 <= i < bs.len() implies (#[trigger] bs[i]).subtype() == subtype_of(entity_codes_at(b, p)[i]) by {}
            if entity_has(b, p, BomaSubtype::TrackNumerics) {
                let i = choose|i: int| 0 <= i < entity_codes_at(b, p).len() && subtype_of(#[trigger] entity_codes_at(b, p)[i]) == Some(BomaSubtype::TrackNumerics);
                assert(bs[i] is TrackNumerics);
            }
            if exists|i: int| 0 <= i < bs.len() && (#[trigger] bs[i]) is TrackNumerics {
                let i = choose|i: int| 0 <= i < bs.len() && (#[trigger] bs[i]) is TrackNumerics;
                assert(subtype_of(entity_codes_at(b, p)[i]) == Some(BomaSubtype::TrackNumerics));
            }
            if track_plain_at(b, p, old(cursor).app_version()) {
                assert forall|i: int| 0 <= i < bs.len() implies !track_plist_boma(#[trigger] bs[i]) by {
                    assert(!track_plist_kind(subtype_of(entity_codes_at(b, p)[i])));
                }
            }
        }
        proof {
            assert(entity_bomas(b, p, bs));
        }
        let track = Track::from_parts(start.persistent_id, album_id, artist_id, bomas)?;
        match ended(enforce_length(
            LengthEnforcement::ToDefinedLengthPlusAppendagesByteLength,
            Signature([105u8, 116, 109, 97]),
            start.header.offset,
            start.header.length,
            start.header.appendage_inclusive_byte_length,
            cursor.position(),
        )) {
            Ok(()) => {},
            Err(e) => { return Err(TrackReadError::Io(e)); },
        }
        Ok(track)
    }
}


/// What a collection's information list says of it.
#[derive(Debug)]
pub struct CollectionInfo {
    /// The owner's id, where there is one, and name; absent for the user's own playlists.
    pub owner: Option<(Option<u32>, String)>,
    pub description: Option<String>,
}

impl CollectionInfo {
    /// Reads the information list of a collection: its description, and its owner's name and
    /// id where it names an owner.
    pub fn try_from<'a>(value: &'a str) -> (r: Result<Self, CollectionReadError<'a>>)
        ensures
            !has_prelude(crate::text::bytes_of(value)) ==> r matches Err(CollectionReadError::Deserialization(crate::plist::Error::MissingPrelude)),
            has_prelude(crate::text::bytes_of(value)) && !plist_tags_ok(crate::text::bytes_of(value))
                ==> r matches Err(CollectionReadError::Deserialization(crate::plist::Error::Malformed)),
            has_prelude(crate::text::bytes_of(value)) && plist_body(crate::text::bytes_of(value)).len() == 0
                ==> r matches Err(CollectionReadError::EmptyPropertyList),
            match info_read(crate::text::bytes_of(value)) {
                Ok((d, o)) => r matches Ok(ci) && opt_text_view(ci.description) == d && owner_view(ci.owner) == o,
                Err(Some(e)) => r matches Err(CollectionReadError::BadOwnerId(x)) && x == e,
                Err(None) => r is Err && !(r matches Err(CollectionReadError::BadOwnerId(_))),
            },
    {
        let plist = match crate::plist::parse(value) {
            Err(e) => { return Err(CollectionReadError::Deserialization(e)); },
            Ok(None) => { return Err(CollectionReadError::EmptyPropertyList); },
            Ok(Some(v)) => v,
        };
        let description = match dictionary_text(&plist, "description") {
            Ok(d) => d,
            Err(()) => { return Err(CollectionReadError::UnexpectedPropertyListShape); },
        };
        let owner_id = match dictionary_text(&plist, "ownerID") {
            Ok(d) => d,
            Err(()) => { return Err(CollectionReadError::UnexpectedPropertyListShape); },
        };
        let owner_name = match dictionary_text(&plist, "ownerName") {
            Ok(d) => d,
            Err(()) => { return Err(CollectionReadError::UnexpectedPropertyListShape); },
        };
        let owner = match owner_name {
            Some(name) => {
                let id = match owner_id {
                    Some(text) => match crate::num::parse_u32(text.as_str()) {
                        Ok(n) => Some(n),
                        Err(e) => { return Err(CollectionReadError::BadOwnerId(e)); },
                    },
                    None => None,
                };
                Some((id, name))
            },
            None => None,
        };
        Ok(CollectionInfo { owner, description })
    }
}

/// The owner that a collection's information gives from the texts of its entries `ownerName`
/// and `ownerID`: none without a name; else the name, with the id read as a decimal `u32`
/// where there is one.
pub open spec fn info_owner(name: Option<Seq<char>>, id: Option<Seq<char>>) -> Result<Option<(Option<nat>, Seq<char>)>, ParseIntError> {
    match name {
        None => Ok(None),
        Some(n) => match id {
            None => Ok(Some((None, n))),
            Some(t) => match crate::num::parse_result(vstd::utf8::encode_utf8(t), 10, 0xffff_ffff) {
                Ok(v) => Ok(Some((Some(v), n))),
                Err(e) => Err(e),
            },
        },
    }
}

/// What the information list `text` of a collection gives: its description and owner; an
/// owner id that is not a number as `Err(Some(..))`, any other failure as `Err(None)`.
pub open spec fn info_read(text: Seq<u8>) -> Result<(Option<Seq<char>>, Option<(Option<nat>, Seq<char>)>), Option<ParseIntError>> {
    match (
        crate::plist::plist_entry_text(text, "description"@),
        crate::plist::plist_entry_text(text, "ownerID"@),
        crate::plist::plist_entry_text(text, "ownerName"@),
    ) {
        (Ok(d), Ok(oid), Ok(on)) => match info_owner(on, oid) {
            Ok(o) => Ok((d, o)),
            Err(e) => Err(Some(e)),
        },
        _ => Err(None),
    }
}

/// The characters of an optional text.
pub open spec fn opt_text_view(o: Option<String>) -> Option<Seq<char>> {
    match o {
        Some(s) => Some(s@),
        None => None,
    }
}

/// An owner as mathematics.
pub open spec fn owner_view(o: Option<(Option<u32>, String)>) -> Option<(Option<nat>, Seq<char>)> {
    match o {
        None => None,
        Some((id, n)) => Some((
            match id {
                Some(v) => Some(v as nat),
                None => None,
            },
            n@,
        )),
    }
}

/// Whether the name, information presence and members of the collection `c` are those its
/// bomas `bs` give: the name and information from the last boma that holds each, the
/// members in order.
pub open spec fn collection_fields<'a>(c: Collection<'a>, bs: Seq<Boma<'a>>) -> bool {
    &&& last_text(bs, BomaUtf16Variant::PlaylistName) == Some(c.name)
    &&& c.tracks@ == members(bs)
    &&& (c.info is Some <==> last_utf8(bs, BomaUtf8Variant::PlistPlaylistInfo) is Some)
    &&& info_from(c.info, last_utf8(bs, BomaUtf8Variant::PlistPlaylistInfo))
}

/// Whether `ci` is the information that the information list `text` gives, where there is one.
pub open spec fn info_from(ci: Option<CollectionInfo>, text: Option<&str>) -> bool {
    match text {
        None => ci is None,
        Some(t) => ci matches Some(x) && info_read(crate::text::bytes_of(t)) matches Ok((d, o))
            && opt_text_view(x.description) == d && owner_view(x.owner) == o,
    }
}

/// Whether a boma that a collection reads as its information list holds a readable one.
pub open spec fn collection_plist_readable<'a>(bm: Boma<'a>) -> bool {
    collection_plist_boma(bm) ==> info_read(crate::text::bytes_of(bm->Utf8Xml_0.0)) is Ok
}

/// A collection of tracks, such as a playlist.
#[derive(Debug)]
pub struct Collection<'a> {
    pub name: Utf16Str<'a>,
    /// Absent on some internal collections.
    pub info: Option<CollectionInfo>,
    pub tracks: Vec<CollectionMember>,
    pub persistent_id: PersistentId<CollectionKind>,
    /// When the collection was made, in seconds since the Unix epoch.
    pub creation_date: Option<i64>,
    /// When the collection was last changed, in seconds since the Unix epoch.
    pub modification_date: Option<i64>,
}

impl<'a> Collection<'a> {
    /// The collection that `bomas` describe: its name from the last name boma (which must be
    /// there), its information from the last information list, and its members in order.
    /// Other bomas are passed over.
    #[verifier::loop_isolation(false)]
    pub fn from_parts(persistent_id: u64, creation_date: Option<i64>, modification_date: Option<i64>, bomas: Vec<Boma<'a>>) -> (r: Result<Self, CollectionReadError<'a>>)
        ensures
            last_text(bomas@, BomaUtf16Variant::PlaylistName) is None ==> r is Err,
            last_text(bomas@, BomaUtf16Variant::PlaylistName) is Some
                && (forall|i: int| 0 <= i < bomas@.len() ==> !collection_plist_boma(#[trigger] bomas@[i])) ==> r is Ok,
            r is Ok ==> forall|i: int| 0 <= i < bomas@.len() && collection_plist_boma(#[trigger] bomas@[i])
                ==> plist_text_ok(crate::text::bytes_of(bomas@[i]->Utf8Xml_0.0)),
            r matches Ok(c) ==> {
                &&& c.persistent_id.0 == persistent_id
                &&& c.creation_date == creation_date
                &&& c.modification_date == modification_date
                &&& last_text(bomas@, BomaUtf16Variant::PlaylistName) == Some(c.name)
                &&& c.tracks@ == members(bomas@)
                &&& (c.info is Some <==> last_utf8(bomas@, BomaUtf8Variant::PlistPlaylistInfo) is Some)
                &&& info_from(c.info, last_utf8(bomas@, BomaUtf8Variant::PlistPlaylistInfo))
            },
            r is Ok <==> last_text(bomas@, BomaUtf16Variant::PlaylistName) is Some && forall|i: int| 0 <= i < bomas@.len()
                ==> collection_plist_readable(#[trigger] bomas@[i]),
    {
        let ghost all = bomas@;
        let mut bomas = bomas;
        let mut name: Option<Utf16Str<'a>> = None;
        let mut info: Option<CollectionInfo> = None;
        let mut tracks: Vec<CollectionMember> = Vec::new();
        let ghost mut k: int = 0;
        while bomas.len() > 0
            invariant
                0 <= k <= all.len(),
                bomas@ == all.skip(k),
                name == last_text(all.take(k), BomaUtf16Variant::PlaylistName),
                tracks@ == members(all.take(k)),
                info is Some <==> last_utf8(all.take(k), BomaUtf8Variant::PlistPlaylistInfo) is Some,
                info_from(info, last_utf8(all.take(k), BomaUtf8Variant::PlistPlaylistInfo)),
                forall|i: int| 0 <= i < k ==> collection_plist_readable(#[trigger] all[i]),
                forall|i: int| 0 <= i < k && collection_plist_boma(#[trigger] all[i]) ==> plist_text_ok(crate::text::bytes_of(all[i]->Utf8Xml_0.0)),
            decreases bomas@.len(),
        {
            let b = bomas.remove(0);
            let ghost bk = b;
            proof {
                assert(bk == all[k]);
                assert(all.take(k + 1) =~= all.take(k).push(all[k]));
                assert(all.take(k + 1).drop_last() =~= all.take(k));
                assert(all.skip(k + 1) =~= all.skip(k).drop_first());
            }
            match b {
                Boma::Utf16(BomaUtf16(value, BomaUtf16Variant::PlaylistName)) => name = Some(value),
                Boma::Utf8Xml(BomaUtf8(value, BomaUtf8Variant::PlistPlaylistInfo)) => {
                    info = Some(CollectionInfo::try_from(value)?);
                },
                Boma::CollectionMember(member) => tracks.push(member),
                _ => {},
            }
            proof { k = k + 1; }
        }
        proof {
            assert(all.take(k) =~= all);
        }
        let name = match name {
            Some(n) => n,
            None => { return Err(CollectionReadError::LackingBoma(BomaSubtype::Utf16(BomaUtf16Variant::PlaylistName))); },
        };
        Ok(Collection {
            name,
            info,
            tracks,
            persistent_id: PersistentId::new(persistent_id),
            creation_date,
            modification_date,
        })
    }


    /// Reads the fixed fields after a collection's header: the persistent id, and the
    /// modification and creation times.
    fn read_fixed(cursor: &mut ChunkCursor<'a>) -> (r: Result<(u64, Option<i64>, Option<i64>), CursorError>)
        requires
            old(cursor).wf(),
        ensures
            final(cursor).wf(),
            final(cursor).bytes() == old(cursor).bytes(),
            final(cursor).app_version() == old(cursor).app_version(),
            r is Ok <==> 290 <= old(cursor).rest().len(),
            r is Ok ==> final(cursor).pos() == old(cursor).pos() + 290,
            r matches Ok(v) ==> {
                let o = old(cursor).pos() - 16;
                &&& v.0 == le_bytes(old(cursor).bytes(), o + 30, 8)
                &&& v.1 == crate::musicdb::boma::timestamp_of(le_bytes(old(cursor).bytes(), o + 138, 4) as u32)
                &&& v.2 == crate::musicdb::boma::timestamp_of(le_bytes(old(cursor).bytes(), o + 302, 4) as u32)
            },
    {
        let _track_count = cursor.read_u32()?;
        cursor.skip(10)?;
        let persistent_id = cursor.read_u64()?;
        cursor.skip(6)?;
        let _is_master = cursor.read_u8()?;
        cursor.skip(93)?;
        let modification_date = crate::musicdb::boma::convert_timestamp(cursor.read_u32()?);
        cursor.skip(48)?;
        cursor.skip(112)?;
        let creation_date = crate::musicdb::boma::convert_timestamp(cursor.read_u32()?);
        Ok((persistent_id, modification_date, creation_date))
    }
}

impl<'a> Collection<'a> {
    /// Reads a collection chunk (`lpma`): its header, its fixed fields and its bomas.
    pub fn read(cursor: &mut ChunkCursor<'a>) -> (r: Result<Self, CollectionReadError<'a>>)
        requires
            old(cursor).wf(),
        ensures
            final(cursor).wf(),
            final(cursor).bytes() == old(cursor).bytes(),
            final(cursor).app_version() == old(cursor).app_version(),
            r is Ok ==> final(cursor).pos() == entity_end(old(cursor).bytes(), old(cursor).pos()),
            r is Ok ==> collection_needed_at(old(cursor).bytes(), old(cursor).pos(), old(cursor).app_version()),
            collection_plain_at(old(cursor).bytes(), old(cursor).pos(), old(cursor).app_version()) ==> r is Ok,
            collection_needed_at(old(cursor).bytes(), old(cursor).pos(), old(cursor).app_version()) && (forall|bs: Seq<Boma<'a>>|
                #[trigger] entity_bomas(old(cursor).bytes(), old(cursor).pos(), bs) ==> forall|i: int| 0 <= i < bs.len()
                ==> collection_plist_readable(#[trigger] bs[i])) ==> r is Ok,
            r matches Ok(value) ==> exists|bs: Seq<Boma<'a>>| #[trigger] entity_bomas(old(cursor).bytes(), old(cursor).pos(), bs)
                && collection_fields(value, bs),
            r matches Ok(value) ==> {
                &&& old(cursor).rest().take(4) == seq![108u8, 112, 109, 97]
                &&& value.persistent_id.0 == le_bytes(old(cursor).bytes(), old(cursor).pos() + 30, 8)
                &&& value.modification_date == crate::musicdb::boma::timestamp_of(le_bytes(old(cursor).bytes(), old(cursor).pos() + 138, 4) as u32)
                &&& value.creation_date == crate::musicdb::boma::timestamp_of(le_bytes(old(cursor).bytes(), old(cursor).pos() + 302, 4) as u32)
            },
    {
        let h = match header(read_header(cursor, Signature([108u8, 112, 109, 97]), LengthFollower::ByteLengthAndQuantity)) {
            Ok(h) => h,
            Err(e) => { return Err(CollectionReadError::Io(e)); },
        };
        let r = Self::read_fixed(cursor);
        let (persistent_id, modification_date, creation_date) = match r {
            Ok(v) => v,
            Err(e) => { return Err(CollectionReadError::Io(ChunkError::Io(e))); },
        };
        match skip_to_end(cursor, &h) { Ok(_) => {}, Err(e) => { return Err(CollectionReadError::Io(e)); } }
        let bomas = match read_bomas(cursor, h.count.unwrap()) {
            Ok(b) => b,
            Err(e) => { return Err(CollectionReadError::Boma(e)); },
        };
        let ghost bs = bomas@;
        let ghost b = old(cursor).bytes();
        let ghost p = old(cursor).pos();
        proof {
            let name = BomaSubtype::Utf16(BomaUtf16Variant::PlaylistName);
            lemma_last_text_some(bs, BomaUtf16Variant::PlaylistName);
            assert forall|i: int| 0 <= i < bs.len() implies (#[trigger] bs[i]).subtype() == subtype_of(entity_codes_at(b, p)[i]) by {}
            if entity_has(b, p, name) {
                let i = choose|i: int| 0 <= i < entity_codes_at(b, p).len() && subtype_of(#[trigger] entity_codes_at(b, p)[i]) == Some(name);
                assert(bs[i].subtype() == Some(name));
            }
            if exists|i: int| 0 <= i < bs.len() && (#[trigger] bs[i]).subtype() == Some(name) {
                let i = choose|i: int| 0 <= i < bs.len() && (#[trigger] bs[i]).subtype() == Some(name);
                assert(subtype_of(entity_codes_at(b, p)[i]) == Some(name));
            }
            if collection_plain_at(b, p, old(cursor).app_version()) {
                assert forall|i: int| 0 <= i < bs.len() implies !collection_plist_boma(#[trigger] bs[i]) by {
                    assert(subtype_of(entity_codes_at(b, p)[i]) != Some(BomaSubtype::Utf8Xml(BomaUtf8Variant::PlistPlaylistInfo)));
                }
            }
        }
        proof {
            assert(entity_bomas(b, p, bs));
        }
        let collection = Collection::from_parts(persistent_id, creation_date, modification_date, bomas)?;
        match ended(enforce_length(
            LengthEnforcement::ToDefinedLengthPlusAppendagesByteLength,
            Signature([108u8, 112, 109, 97]),
            h.offset,
            h.length,
            h.appendage_inclusive_byte_length,
            cursor.position(),
        )) {
            Ok(()) => {},
            Err(e) => { return Err(CollectionReadError::Io(e)); },
        }
        Ok(collection)
    }
}


/// Why a list or map of chunks could not be read.
#[derive(Debug)]
pub enum ListReadError<E> {
    BadItem(E),
    BadListHeader(ChunkError),
}

/// Reads the start of a list chunk: its header with the number of items, then moves to the
/// end of its fixed part, where the items start.
fn read_list_start(cursor: &mut ChunkCursor, signature: Signature) -> (r: Result<ChunkHeader, ChunkError>)
    requires
        old(cursor).wf(),
    ensures
        final(cursor).wf(),
        final(cursor).bytes() == old(cursor).bytes(),
        final(cursor).app_version() == old(cursor).app_version(),
        r is Ok <==> fixed_chunk_fits(*old(cursor), signature.0@, 12),
        r matches Ok(h) ==> {
            &&& old(cursor).rest().take(4) == signature.0@
            &&& h.count == Some(le_bytes(old(cursor).bytes(), old(cursor).pos() + 8, 4) as u32)
            &&& h.length == le_bytes(old(cursor).bytes(), old(cursor).pos() + 4, 4)
            &&& h.offset == old(cursor).pos()
            &&& final(cursor).pos() == h.offset + h.length
        },
{
    let h = header(read_header(cursor, signature, LengthFollower::Quantity))?;
    skip_to_end(cursor, &h)?;
    Ok(h)
}

/// Checks that a list chunk ended past its fixed part.
fn end_list(cursor: &ChunkCursor, signature: Signature, h: &ChunkHeader) -> (r: Result<(), ChunkError>)
    ensures
        r is Ok <==> cursor.pos() >= h.offset + h.length,
{
    ended(enforce_length(LengthEnforcement::AtLeastDefinedLength, signature, h.offset, h.length, None, cursor.position()))
}

/// The master list of the library (`plma`): bomas.
pub fn read_library_master<'a>(cursor: &mut ChunkCursor<'a>) -> (r: Result<Vec<Boma<'a>>, ListReadError<BomaReadError>>)
    requires
        old(cursor).wf(),
    ensures
        final(cursor).wf(),
        final(cursor).bytes() == old(cursor).bytes(),
        r is Ok ==> old(cursor).rest().take(4) == seq![112u8, 108, 109, 97],
        r is Ok <==> ({
            let b = old(cursor).bytes();
            let p = old(cursor).pos();
            let start = p + le_bytes(b, p + 4, 4);
            let count = (le_bytes(b, p + 8, 4) as u32) as nat;
            &&& fixed_chunk_fits(*old(cursor), seq![112u8, 108, 109, 97], 12)
            &&& bomas_fit(b, start, count, old(cursor).app_version())
            &&& bomas_end(b, start, count) >= start
        }),
        r matches Ok(v) ==> v@.len() == le_bytes(old(cursor).bytes(), old(cursor).pos() + 8, 4) as u32,
        r is Ok ==> final(cursor).pos() == master_end(old(cursor).bytes(), old(cursor).pos()),
        r matches Ok(v) ==> bomas_read_at(old(cursor).bytes(), fixed_end(old(cursor).bytes(), old(cursor).pos()),
            list_count(old(cursor).bytes(), old(cursor).pos()) as nat, v@),
        r is Ok <==> master_fits(old(cursor).bytes(), old(cursor).pos(), old(cursor).app_version()),
        final(cursor).app_version() == old(cursor).app_version(),
{
    let sig = Signature([112u8, 108, 109, 97]);
    let h = match read_list_start(cursor, sig) { Ok(h) => h, Err(e) => { return Err(ListReadError::BadListHeader(e)); } };
    let items = match read_bomas(cursor, h.count.unwrap()) { Ok(v) => v, Err(e) => { return Err(ListReadError::BadItem(e)); } };
    match end_list(cursor, sig, &h) { Ok(()) => {}, Err(e) => { return Err(ListReadError::BadListHeader(e)); } }
    Ok(items)
}

/// The map of albums (`lama`), by persistent id.
pub fn read_album_map<'a>(cursor: &mut ChunkCursor<'a>) -> (r: Result<HashMap<u64, Album<'a>>, ListReadError<EntityReadError>>)
    requires
        old(cursor).wf(),
    ensures
        final(cursor).wf(),
        final(cursor).bytes() == old(cursor).bytes(),
        r matches Ok(m) ==> old(cursor).rest().take(4) == seq![108u8, 97, 109, 97]
            && forall|k: u64| #[trigger] m@.contains_key(k) ==> m@[k].persistent_id.0 == k,
        r is Ok <==> list_fits(old(cursor).bytes(), old(cursor).pos(), seq![108u8, 97, 109, 97], album_fits_fn(old(cursor).bytes(), old(cursor).app_version())),
        r is Ok ==> final(cursor).pos() == list_end(old(cursor).bytes(), old(cursor).pos()),
        final(cursor).app_version() == old(cursor).app_version(),
        r matches Ok(m) ==> map_holds(old(cursor).bytes(), fixed_end(old(cursor).bytes(), old(cursor).pos()),
            list_count(old(cursor).bytes(), old(cursor).pos()), m@, album_at_fn(old(cursor).bytes())),
{
    let sig = Signature([108u8, 97, 109, 97]);
    let h = match read_list_start(cursor, sig) { Ok(h) => h, Err(e) => { return Err(ListReadError::BadListHeader(e)); } };
    let count = h.count.unwrap();
    let mut items: HashMap<u64, Album<'a>> = HashMap::new();
    let mut i: u32 = 0;
    let ghost start = cursor.pos();
    while i < count
        invariant
            cursor.wf(),
            cursor.bytes() == old(cursor).bytes(),
            cursor.app_version() == old(cursor).app_version(),
            forall|k: u64| #[trigger] items@.contains_key(k) ==> items@[k].persistent_id.0 == k,
            i <= count,
            entities_fit(cursor.bytes(), start, count as nat, album_fits_fn(cursor.bytes(), cursor.app_version()))
                == entities_fit(cursor.bytes(), cursor.pos(), (count - i) as nat, album_fits_fn(cursor.bytes(), cursor.app_version())),
            entities_end(cursor.bytes(), start, count as nat) == entities_end(cursor.bytes(), cursor.pos(), (count - i) as nat),
            list_fits(old(cursor).bytes(), old(cursor).pos(), seq![108u8, 97, 109, 97], album_fits_fn(old(cursor).bytes(), old(cursor).app_version()))
                == (entities_fit(cursor.bytes(), start, count as nat, album_fits_fn(cursor.bytes(), cursor.app_version()))
                && entities_end(cursor.bytes(), start, count as nat) >= start),
            start == h.offset + h.length,
            cursor.pos() == entity_pos(cursor.bytes(), start, i as int),
            map_holds(cursor.bytes(), start, i as int, items@, album_at_fn(cursor.bytes())),
        decreases count - i,
    {
        let ghost here = cursor.pos();
        let item = match Album::read(cursor) {
            Ok(v) => v,
            Err(e) => {
                proof {
                    assert(!album_fits_fn(cursor.bytes(), cursor.app_version())(here));
                }
                return Err(ListReadError::BadItem(e));
            },
        };
        let key = item.persistent_id.0;
        proof {
            assert(album_at_fn(cursor.bytes())(here, item));
            lemma_map_holds_insert(cursor.bytes(), start, i as int, items@, album_at_fn(cursor.bytes()), key, item);
        }
        items.insert(key, item);
        i = i + 1;
    }
    match end_list(cursor, sig, &h) { Ok(()) => {}, Err(e) => { return Err(ListReadError::BadListHeader(e)); } }
    Ok(items)
}

/// The map of artists (`lAma`), by persistent id.
pub fn read_artist_map<'a>(cursor: &mut ChunkCursor<'a>) -> (r: Result<HashMap<u64, Artist<'a>>, ListReadError<EntityReadError>>)
    requires
        old(cursor).wf(),
    ensures
        final(cursor).wf(),
        final(cursor).bytes() == old(cursor).bytes(),
        r matches Ok(m) ==> old(cursor).rest().take(4) == seq![108u8, 65, 109, 97]
            && forall|k: u64| #[trigger] m@.contains_key(k) ==> m@[k].persistent_id.0 == k,
        r is Ok <==> list_fits(old(cursor).bytes(), old(cursor).pos(), seq![108u8, 65, 109, 97], artist_fits_fn(old(cursor).bytes(), old(cursor).app_version())),
        r is Ok ==> final(cursor).pos() == list_end(old(cursor).bytes(), old(cursor).pos()),
        final(cursor).app_version() == old(cursor).app_version(),
        r matches Ok(m) ==> map_holds(old(cursor).bytes(), fixed_end(old(cursor).bytes(), old(cursor).pos()),
            list_count(old(cursor).bytes(), old(cursor).pos()), m@, artist_at_fn(old(cursor).bytes())),
{
    let sig = Signature([108u8, 65, 109, 97]);
    let h = match read_list_start(cursor, sig) { Ok(h) => h, Err(e) => { return Err(ListReadError::BadListHeader(e)); } };
    let count = h.count.unwrap();
    let mut items: HashMap<u64, Artist<'a>> = HashMap::new();
    let mut i: u32 = 0;
    let ghost start = cursor.pos();
    while i < count
        invariant
            cursor.wf(),
            cursor.bytes() == old(cursor).bytes(),
            cursor.app_version() == old(cursor).app_version(),
            forall|k: u64| #[trigger] items@.contains_key(k) ==> items@[k].persistent_id.0 == k,
            i <= count,
            entities_fit(cursor.bytes(), start, count as nat, artist_fits_fn(cursor.bytes(), cursor.app_version()))
                == entities_fit(cursor.bytes(), cursor.pos(), (count - i) as nat, artist_fits_fn(cursor.bytes(), cursor.app_version())),
            entities_end(cursor.bytes(), start, count as nat) == entities_end(cursor.bytes(), cursor.pos(), (count - i) as nat),
            list_fits(old(cursor).bytes(), old(cursor).pos(), seq![108u8, 65, 109, 97], artist_fits_fn(old(cursor).bytes(), old(cursor).app_version()))
                == (entities_fit(cursor.bytes(), start, count as nat, artist_fits_fn(cursor.bytes(), cursor.app_version()))
                && entities_end(cursor.bytes(), start, count as nat) >= start),
            start == h.offset + h.length,
            cursor.pos() == entity_pos(cursor.bytes(), start, i as int),
            map_holds(cursor.bytes(), start, i as int, items@, artist_at_fn(cursor.bytes())),
        decreases count - i,
    {
        let ghost here = cursor.pos();
        let item = match Artist::read(cursor) {
            Ok(v) => v,
            Err(e) => {
                proof {
                    assert(!artist_fits_fn(cursor.bytes(), cursor.app_version())(here));
                }
                return Err(ListReadError::BadItem(e));
            },
        };
        let key = item.persistent_id.0;
        proof {
            assert(artist_at_fn(cursor.bytes())(here, item));
            lemma_map_holds_insert(cursor.bytes(), start, i as int, items@, artist_at_fn(cursor.bytes()), key, item);
        }
        items.insert(key, item);
        i = i + 1;
    }
    match end_list(cursor, sig, &h) { Ok(()) => {}, Err(e) => { return Err(ListReadError::BadListHeader(e)); } }
    Ok(items)
}

/// The map of tracks (`ltma`), by persistent id.
pub fn read_track_map<'a>(cursor: &mut ChunkCursor<'a>) -> (r: Result<HashMap<u64, Track<'a>>, ListReadError<TrackReadError<'a>>>)
    requires
        old(cursor).wf(),
    ensures
        final(cursor).wf(),
        final(cursor).bytes() == old(cursor).bytes(),
        r matches Ok(m) ==> old(cursor).rest().take(4) == seq![108u8, 116, 109, 97]
            && forall|k: u64| #[trigger] m@.contains_key(k) ==> m@[k].persistent_id.0 == k,
        r is Ok ==> list_fits(old(cursor).bytes(), old(cursor).pos(), seq![108u8, 116, 109, 97], track_needed_fn(old(cursor).bytes(), old(cursor).app_version())),
        list_fits(old(cursor).bytes(), old(cursor).pos(), seq![108u8, 116, 109, 97], track_plain_fn(old(cursor).bytes(), old(cursor).app_version())) ==> r is Ok,
        r is Ok ==> final(cursor).pos() == list_end(old(cursor).bytes(), old(cursor).pos()),
        final(cursor).app_version() == old(cursor).app_version(),
        r matches Ok(m) ==> map_holds(old(cursor).bytes(), fixed_end(old(cursor).bytes(), old(cursor).pos()),
            list_count(old(cursor).bytes(), old(cursor).pos()), m@, track_at_fn(old(cursor).bytes())),
{
    let sig = Signature([108u8, 116, 109, 97]);
    let h = match read_list_start(cursor, sig) { Ok(h) => h, Err(e) => { return Err(ListReadError::BadListHeader(e)); } };
    let count = h.count.unwrap();
    let mut items: HashMap<u64, Track<'a>> = HashMap::new();
    let mut i: u32 = 0;
    let ghost start = cursor.pos();
    while i < count
        invariant
            cursor.wf(),
            cursor.bytes() == old(cursor).bytes(),
            cursor.app_version() == old(cursor).app_version(),
            forall|k: u64| #[trigger] items@.contains_key(k) ==> items@[k].persistent_id.0 == k,
            i <= count,
            entities_fit(cursor.bytes(), start, count as nat, track_needed_fn(cursor.bytes(), cursor.app_version()))
                == entities_fit(cursor.bytes(), cursor.pos(), (count - i) as nat, track_needed_fn(cursor.bytes(), cursor.app_version())),
            entities_fit(cursor.bytes(), start, count as nat, track_plain_fn(cursor.bytes(), cursor.app_version()))
                ==> entities_fit(cursor.bytes(), cursor.pos(), (count - i) as nat, track_plain_fn(cursor.bytes(), cursor.app_version())),
            entities_end(cursor.bytes(), start, count as nat) == entities_end(cursor.bytes(), cursor.pos(), (count - i) as nat),
            list_fits(old(cursor).bytes(), old(cursor).pos(), seq![108u8, 116, 109, 97], track_needed_fn(old(cursor).bytes(), old(cursor).app_version()))
                == (entities_fit(cursor.bytes(), start, count as nat, track_needed_fn(cursor.bytes(), cursor.app_version()))
                && entities_end(cursor.bytes(), start, count as nat) >= start),
            list_fits(old(cursor).bytes(), old(cursor).pos(), seq![108u8, 116, 109, 97], track_plain_fn(old(cursor).bytes(), old(cursor).app_version()))
                == (entities_fit(cursor.bytes(), start, count as nat, track_plain_fn(cursor.bytes(), cursor.app_version()))
                && entities_end(cursor.bytes(), start, count as nat) >= start),
            start == h.offset + h.length,
            cursor.pos() == entity_pos(cursor.bytes(), start, i as int),
            map_holds(cursor.bytes(), start, i as int, items@, track_at_fn(cursor.bytes())),
        decreases count - i,
    {
        let ghost here = cursor.pos();
        let item = match Track::read(cursor) {
            Ok(v) => v,
            Err(e) => {
                proof {
                    assert(!track_plain_fn(cursor.bytes(), cursor.app_version())(here));
                }
                return Err(ListReadError::BadItem(e));
            },
        };
        proof {
            assert(track_needed_fn(cursor.bytes(), cursor.app_version())(here));
        }
        let key = item.persistent_id.0;
        proof {
            assert(track_at_fn(cursor.bytes())(here, item));
            lemma_map_holds_insert(cursor.bytes(), start, i as int, items@, track_at_fn(cursor.bytes()), key, item);
        }
        items.insert(key, item);
        i = i + 1;
    }
    match end_list(cursor, sig, &h) { Ok(()) => {}, Err(e) => { return Err(ListReadError::BadListHeader(e)); } }
    Ok(items)
}

/// The list of accounts (`Lsma`), where the cursor is at one; `None` where it is not.
#[verifier::loop_isolation(false)]
pub fn read_account_list_optional<'a>(cursor: &mut ChunkCursor<'a>) -> (r: Result<Option<Vec<Account<'a>>>, ListReadError<EntityReadError>>)
    requires
        old(cursor).wf(),
    ensures
        final(cursor).wf(),
        final(cursor).bytes() == old(cursor).bytes(),
        4 <= old(cursor).rest().len() && old(cursor).rest().take(4) != seq![76u8, 115, 109, 97] ==> (r matches Ok(None)
            && final(cursor).pos() == old(cursor).pos()),
        r matches Ok(Some(_)) ==> old(cursor).rest().take(4) == seq![76u8, 115, 109, 97],
        old(cursor).rest().len() < 4 ==> r is Err,
        (r matches Ok(Some(_))) <==> (4 <= old(cursor).rest().len() && old(cursor).rest().take(4) == seq![76u8, 115, 109, 97]
            && list_fits(old(cursor).bytes(), old(cursor).pos(), seq![76u8, 115, 109, 97], account_fits_fn(old(cursor).bytes(), old(cursor).app_version()))),
        r matches Ok(Some(v)) ==> v@.len() == le_bytes(old(cursor).bytes(), old(cursor).pos() + 8, 4) as u32,
        r matches Ok(Some(_)) ==> final(cursor).pos() == list_end(old(cursor).bytes(), old(cursor).pos()),
        r matches Ok(None) ==> final(cursor).pos() == old(cursor).pos(),
        final(cursor).app_version() == old(cursor).app_version(),
        r matches Ok(Some(v)) ==> seq_holds(old(cursor).bytes(), fixed_end(old(cursor).bytes(), old(cursor).pos()),
            list_count(old(cursor).bytes(), old(cursor).pos()), v@, account_at_fn(old(cursor).bytes())),
{
    let sig = Signature([76u8, 115, 109, 97]);
    let here = match cursor.peek_signature() { Ok(s) => s, Err(e) => { return Err(ListReadError::BadListHeader(ChunkError::Io(e))); } };
    if !here.same(&sig) {
        return Ok(None);
    }
    let h = match read_list_start(cursor, sig) { Ok(h) => h, Err(e) => { return Err(ListReadError::BadListHeader(e)); } };
    let count = h.count.unwrap();
    let mut items: Vec<Account<'a>> = Vec::new();
    let mut i: u32 = 0;
    let ghost start = cursor.pos();
    while i < count
        invariant
            cursor.wf(),
            cursor.bytes() == old(cursor).bytes(),
            cursor.app_version() == old(cursor).app_version(),
            i <= count,
            items@.len() == i,
            entities_fit(cursor.bytes(), start, count as nat, account_fits_fn(cursor.bytes(), cursor.app_version()))
                == entities_fit(cursor.bytes(), cursor.pos(), (count - i) as nat, account_fits_fn(cursor.bytes(), cursor.app_version())),
            entities_end(cursor.bytes(), start, count as nat) == entities_end(cursor.bytes(), cursor.pos(), (count - i) as nat),
            cursor.pos() == entity_pos(cursor.bytes(), start, i as int),
            seq_holds(cursor.bytes(), start, i as int, items@, account_at_fn(cursor.bytes())),
        decreases count - i,
    {
        let ghost here = cursor.pos();
        let item = match Account::read(cursor) {
            Ok(v) => v,
            Err(e) => {
                proof {
                    assert(!account_fits_fn(cursor.bytes(), cursor.app_version())(here));
                }
                return Err(ListReadError::BadItem(e));
            },
        };
        let ghost before = items@;
        items.push(item);
        proof {
            assert(account_at_fn(cursor.bytes())(here, item));
            assert forall|j: int| 0 <= j < i + 1 implies #[trigger] account_at_fn(cursor.bytes())(entity_pos(cursor.bytes(), start, j), items@[j]) by {
                if j < i {
                    assert(items@[j] == before[j]);
                }
            }
        }
        i = i + 1;
    }
    match end_list(cursor, sig, &h) { Ok(()) => {}, Err(e) => { return Err(ListReadError::BadListHeader(e)); } }
    Ok(Some(items))
}

/// The list of collections (`lPma`).
pub fn read_collection_list<'a>(cursor: &mut ChunkCursor<'a>) -> (r: Result<Vec<Collection<'a>>, ListReadError<CollectionReadError<'a>>>)
    requires
        old(cursor).wf(),
    ensures
        final(cursor).wf(),
        final(cursor).bytes() == old(cursor).bytes(),
        r is Ok ==> old(cursor).rest().take(4) == seq![108u8, 80, 109, 97],
        r is Ok ==> list_fits(old(cursor).bytes(), old(cursor).pos(), seq![108u8, 80, 109, 97], collection_needed_fn(old(cursor).bytes(), old(cursor).app_version())),
        list_fits(old(cursor).bytes(), old(cursor).pos(), seq![108u8, 80, 109, 97], collection_plain_fn(old(cursor).bytes(), old(cursor).app_version())) ==> r is Ok,
        r matches Ok(v) ==> v@.len() == le_bytes(old(cursor).bytes(), old(cursor).pos() + 8, 4) as u32,
        r is Ok ==> final(cursor).pos() == list_end(old(cursor).bytes(), old(cursor).pos()),
        final(cursor).app_version() == old(cursor).app_version(),
        r matches Ok(v) ==> seq_holds(old(cursor).bytes(), fixed_end(old(cursor).bytes(), old(cursor).pos()),
            list_count(old(cursor).bytes(), old(cursor).pos()), v@, collection_at_fn(old(cursor).bytes())),
{
    let sig = Signature([108u8, 80, 109, 97]);
    let h = match read_list_start(cursor, sig) { Ok(h) => h, Err(e) => { return Err(ListReadError::BadListHeader(e)); } };
    let count = h.count.unwrap();
    let mut items: Vec<Collection<'a>> = Vec::new();
    let mut i: u32 = 0;
    let ghost start = cursor.pos();
    while i < count
        invariant
            cursor.wf(),
            cursor.bytes() == old(cursor).bytes(),
            cursor.app_version() == old(cursor).app_version(),
            items@.len() == i,
            i <= count,
            entities_fit(cursor.bytes(), start, count as nat, collection_needed_fn(cursor.bytes(), cursor.app_version()))
                == entities_fit(cursor.bytes(), cursor.pos(), (count - i) as nat, collection_needed_fn(cursor.bytes(), cursor.app_version())),
            entities_fit(cursor.bytes(), start, count as nat, collection_plain_fn(cursor.bytes(), cursor.app_version()))
                ==> entities_fit(cursor.bytes(), cursor.pos(), (count - i) as nat, collection_plain_fn(cursor.bytes(), cursor.app_version())),
            entities_end(cursor.bytes(), start, count as nat) == entities_end(cursor.bytes(), cursor.pos(), (count - i) as nat),
            list_fits(old(cursor).bytes(), old(cursor).pos(), seq![108u8, 80, 109, 97], collection_needed_fn(old(cursor).bytes(), old(cursor).app_version()))
                == (entities_fit(cursor.bytes(), start, count as nat, collection_needed_fn(cursor.bytes(), cursor.app_version()))
                && entities_end(cursor.bytes(), start, count as nat) >= start),
            list_fits(old(cursor).bytes(), old(cursor).pos(), seq![108u8, 80, 109, 97], collection_plain_fn(old(cursor).bytes(), old(cursor).app_version()))
                == (entities_fit(cursor.bytes(), start, count as nat, collection_plain_fn(cursor.bytes(), cursor.app_version()))
                && entities_end(cursor.bytes(), start, count as nat) >= start),
            start == h.offset + h.length,
            cursor.pos() == entity_pos(cursor.bytes(), start, i as int),
            seq_holds(cursor.bytes(), start, i as int, items@, collection_at_fn(cursor.bytes())),
        decreases count - i,
    {
        let ghost here = cursor.pos();
        let item = match Collection::read(cursor) {
            Ok(v) => v,
            Err(e) => {
                proof {
                    assert(!collection_plain_fn(cursor.bytes(), cursor.app_version())(here));
                }
                return Err(ListReadError::BadItem(e));
            },
        };
        proof {
            assert(collection_needed_fn(cursor.bytes(), cursor.app_version())(here));
        }
        let ghost before = items@;
        items.push(item);
        proof {
            assert(collection_at_fn(cursor.bytes())(here, item));
            assert forall|j: int| 0 <= j < i + 1 implies #[trigger] collection_at_fn(cursor.bytes())(entity_pos(cursor.bytes(), start, j), items@[j]) by {
                if j < i {
                    assert(items@[j] == before[j]);
                }
            }
        }
        i = i + 1;
    }
    match end_list(cursor, sig, &h) { Ok(()) => {}, Err(e) => { return Err(ListReadError::BadListHeader(e)); } }
    Ok(items)
}

impl crate::musicdb::chunk::Chunk for SectionBoundary {
    open spec fn spec_signature() -> Seq<u8> {
        seq![104u8, 115, 109, 97]
    }

    fn signature() -> (r: Signature) {
        let r = Signature([104u8, 115, 109, 97]);
        assert(r.0@ =~= seq![104u8, 115, 109, 97]);
        r
    }
}

impl<'a> crate::musicdb::chunk::Chunk for Album<'a> {
    open spec fn spec_signature() -> Seq<u8> {
        seq![105u8, 97, 109, 97]
    }

    fn signature() -> (r: Signature) {
        let r = Signature([105u8, 97, 109, 97]);
        assert(r.0@ =~= seq![105u8, 97, 109, 97]);
        r
    }
}

impl<'a> crate::musicdb::chunk::Chunk for Artist<'a> {
    open spec fn spec_signature() -> Seq<u8> {
        seq![105u8, 65, 109, 97]
    }

    fn signature() -> (r: Signature) {
        let r = Signature([105u8, 65, 109, 97]);
        assert(r.0@ =~= seq![105u8, 65, 109, 97]);
        r
    }
}

impl<'a> crate::musicdb::chunk::Chunk for Account<'a> {
    open spec fn spec_signature() -> Seq<u8> {
        seq![105u8, 115, 109, 97]
    }

    fn signature() -> (r: Signature) {
        let r = Signature([105u8, 115, 109, 97]);
        assert(r.0@ =~= seq![105u8, 115, 109, 97]);
        r
    }
}

impl<'a> crate::musicdb::chunk::Chunk for Track<'a> {
    open spec fn spec_signature() -> Seq<u8> {
        seq![105u8, 116, 109, 97]
    }

    fn signature() -> (r: Signature) {
        let r = Signature([105u8, 116, 109, 97]);
        assert(r.0@ =~= seq![105u8, 116, 109, 97]);
        r
    }
}

impl<'a> crate::musicdb::chunk::Chunk for Collection<'a> {
    open spec fn spec_signature() -> Seq<u8> {
        seq![108u8, 112, 109, 97]
    }

    fn signature() -> (r: Signature) {
        let r = Signature([108u8, 112, 109, 97]);
        assert(r.0@ =~= seq![108u8, 112, 109, 97]);
        r
    }
}

/// What a track's cloud information list holds.
pub struct PlistTrackCloudInformation<'a> {
    pub cloud_album_id: &'a str,
    pub cloud_artist_id: &'a str,
    pub cloud_artwork_token: &'a str,
}

/// What a track's cloud download information list holds.
pub struct PlistTrackCloudDownloadInformation<'a> {
    pub cloud_universal_library_id: &'a str,
    pub redownload_params: &'a str,
}

} // verus!
