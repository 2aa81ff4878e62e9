//! The packed form of a library file: a header, then the contents compressed with DEFLATE
//! (zlib framing) and encrypted with AES-128 in ECB mode, up to a limit the header gives
//! and whole blocks only; what follows is compressed but not encrypted.
use vstd::prelude::*;
use aes::cipher::{BlockDecryptMut, KeyInit};
use std::io::Read;
use crate::musicdb::chunk::{le_bytes, read_header, ChunkCursor, CursorError, HeaderError, LengthFollower, Signature};

verus! {

/// The bytes of `data` after decryption with AES-128 in ECB mode under `key`, block by block.
pub uninterp spec fn aes128_ecb_decrypt(key: Seq<u8>, data: Seq<u8>) -> Seq<u8>;

/// The bytes that zlib-framed DEFLATE data `data` inflate to, if it is well formed.
pub uninterp spec fn zlib_inflate(data: Seq<u8>) -> Option<Seq<u8>>;

/// The key that the iTunes and Apple Music library files are encrypted with, public since
/// at least 2010. It decrypts no media, only the library the application already shows.
pub fn key() -> (r: [u8; 16])
    ensures
        r@ == seq![66u8, 72, 85, 73, 76, 117, 105, 108, 102, 103, 104, 117, 105, 108, 97, 51],
{
    [66u8, 72, 85, 73, 76, 117, 105, 108, 102, 103, 104, 117, 105, 108, 97, 51]
}

/// `ecb::Decryptor::<aes::Aes128>::decrypt_padded_mut::<NoPadding>`: decrypts `data` in place,
/// block by block. The crate refuses input that is not whole blocks, before touching it;
/// without padding, it refuses nothing else.
#[verifier::external_body]
fn decrypt_blocks(key: &[u8; 16], data: &mut Vec<u8>) -> (r: bool)
    ensures
        r == (old(data)@.len() % 16 == 0),
        r ==> final(data)@ == aes128_ecb_decrypt(key@, old(data)@),
        !r ==> final(data)@ == old(data)@,
{
    let decryptor = ecb::Decryptor::<aes::Aes128>::new(key.into());
    decryptor.decrypt_padded_mut::<aes::cipher::block_padding::NoPadding>(data.as_mut_slice()).is_ok()
}

/// `flate2::read::ZlibDecoder` read to its end: the bytes that zlib-framed data inflates to,
/// or the failure on data that is not well formed.
#[verifier::external_body]
fn inflate(data: &[u8]) -> (r: Option<Vec<u8>>)
    ensures
        match zlib_inflate(data@) {
            Some(out) => r matches Some(v) && v@ == out,
            None => r is None,
        },
{
    let mut out = Vec::new();
    match flate2::read::ZlibDecoder::new(data).read_to_end(&mut out) {
        Ok(_) => Some(out),
        Err(_) => None,
    }
}

/// Why a packed library could not be unpacked.
#[derive(Debug, Clone, Copy)]
pub enum UnpackError {
    /// The header could not be read.
    Io(CursorError),
    BadSignature { expected: Signature, found: Signature },
    /// The encrypted part was not whole blocks.
    Decryption,
    /// The compressed data was not well formed.
    Decompression,
}

/// The header of a packed library file (`hfma`).
#[derive(Debug, Clone, Copy)]
pub struct PackedFileInfo<'a> {
    pub header_size: u32,
    pub max_encrypted_byte_count: u32,
    /// The version of the application that wrote the file, as text without its NUL.
    pub app_version: &'a [u8],
    pub track_count: u32,
    pub playlist_count: u32,
    pub collection_count: u32,
    pub artist_count: u32,
}

/// Whether the fields after a packed header's lengths, from `p` of `b`, are all there, with
/// a NUL ending the application's version within its 32 bytes.
pub open spec fn fields_fit(b: Seq<u8>, p: int) -> bool {
    &&& p + 76 <= b.len()
    &&& crate::text::find(b.subrange(p + 4, p + 36), 0) is Some
}

/// Whether a packed header starts at `p` of `b`: `hfma`, its lengths and its fields, ending
/// by its size within `b`.
pub open spec fn packed_header_fits(b: Seq<u8>, p: int) -> bool {
    &&& p + 12 <= b.len()
    &&& b.subrange(p, p + 4) == seq![104u8, 102, 109, 97]
    &&& fields_fit(b, p + 12)
    &&& p + le_bytes(b, p + 4, 4) <= b.len()
}

impl<'a> PackedFileInfo<'a> {
    /// Reads the header: its signature and size, the format version, the application's
    /// version within 32 bytes, ids, the counts of entities, and the encryption limit.
    pub fn read(cursor: &mut ChunkCursor<'a>) -> (r: Result<Self, UnpackError>)
        requires
            old(cursor).wf(),
        ensures
            final(cursor).wf(),
            final(cursor).bytes() == old(cursor).bytes(),
            r matches Ok(info) ==> {
                let b = old(cursor).bytes();
                let o = old(cursor).pos();
                &&& old(cursor).rest().take(4) == seq![104u8, 102, 109, 97]
                &&& info.header_size == le_bytes(b, o + 4, 4)
                &&& info.track_count == le_bytes(b, o + 68, 4)
                &&& info.playlist_count == le_bytes(b, o + 72, 4)
                &&& info.collection_count == le_bytes(b, o + 76, 4)
                &&& info.artist_count == le_bytes(b, o + 80, 4)
                &&& info.max_encrypted_byte_count == le_bytes(b, o + 84, 4)
                &&& final(cursor).pos() == o + info.header_size
            },
            r is Ok <==> packed_header_fits(old(cursor).bytes(), old(cursor).pos()),
    {
        let ghost b = cursor.bytes();
        let ghost p = cursor.pos();
        proof {
            if p + 4 <= b.len() {
                assert(b.subrange(p, b.len() as int).take(4) =~= b.subrange(p, p + 4));
            }
        }
        let h = match read_header(cursor, Signature([104u8, 102, 109, 97]), LengthFollower::ByteLength) {
            Ok(h) => h,
            Err(HeaderError::Io(e)) => { return Err(UnpackError::Io(e)); },
            Err(HeaderError::BadSignature { expected, found }) => { return Err(UnpackError::BadSignature { expected, found }); },
        };
        let info = match Self::read_fields(cursor, h.length) {
            Ok(i) => i,
            Err(e) => { return Err(UnpackError::Io(e)); },
        };
        let end = h.offset as u128 + h.length as u128;
        if end > usize::MAX as u128 {
            return Err(UnpackError::Io(CursorError::SeekPastEnd));
        }
        match cursor.set_position(end as usize) {
            Ok(_) => {},
            Err(e) => { return Err(UnpackError::Io(e)); },
        }
        Ok(info)
    }

    /// Reads the fields after the header's lengths.
    fn read_fields(cursor: &mut ChunkCursor<'a>, header_size: u32) -> (r: Result<Self, CursorError>)
        requires
            old(cursor).wf(),
        ensures
            final(cursor).wf(),
            final(cursor).bytes() == old(cursor).bytes(),
            r matches Ok(info) ==> {
                let b = old(cursor).bytes();
                let o = old(cursor).pos() - 12;
                &&& info.header_size == header_size
                &&& info.track_count == le_bytes(b, o + 68, 4)
                &&& info.playlist_count == le_bytes(b, o + 72, 4)
                &&& info.collection_count == le_bytes(b, o + 76, 4)
                &&& info.artist_count == le_bytes(b, o + 80, 4)
                &&& info.max_encrypted_byte_count == le_bytes(b, o + 84, 4)
                &&& Some(info.app_version@.len() as int) == crate::text::find(b.subrange(o + 16, o + 48), 0)
                &&& info.app_version@ == b.subrange(o + 16, o + 16 + info.app_version@.len())
                &&& final(cursor).pos() == o + 88
            },
            r is Ok <==> fields_fit(old(cursor).bytes(), old(cursor).pos()),
    {
        let ghost b = cursor.bytes();
        let ghost p = cursor.pos();
        let _format_major = cursor.read_u16()?;
        let _format_minor = cursor.read_u16()?;
        proof {
            if p + 36 <= b.len() {
                assert(b.subrange(p + 4, b.len() as int).take(32) =~= b.subrange(p + 4, p + 36));
            }
        }
        let app_version = cursor.read_cstr_exact_with_max_length(32)?;
        proof {
            crate::text::lemma_find_from_props(b.subrange(p + 4, p + 36), 0, 0);
            if let Some(i) = crate::text::find(b.subrange(p + 4, p + 36), 0) {
                assert(b.subrange(p + 4, b.len() as int).take(i) =~= b.subrange(p + 4, p + 4 + i));
            }
        }
        let _persistent_id = cursor.read_u64()?;
        let _file_variant = cursor.read_u32()?;
        cursor.skip(8)?;
        let track_count = cursor.read_u32()?;
        let playlist_count = cursor.read_u32()?;
        let collection_count = cursor.read_u32()?;
        let artist_count = cursor.read_u32()?;
        let max_encrypted_byte_count = cursor.read_u32()?;
        Ok(PackedFileInfo {
            header_size,
            max_encrypted_byte_count,
            app_version,
            track_count,
            playlist_count,
            collection_count,
            artist_count,
        })
    }
}

/// The concatenation of two byte slices, as reading one after the other yields them.
pub fn joined(a: &[u8], b: &[u8]) -> (r: Vec<u8>)
    ensures
        r@ == a@ + b@,
{
    let mut out: Vec<u8> = Vec::new();
    let mut i: usize = 0;
    while i < a.len()
        invariant
            i <= a@.len(),
            out@ == a@.take(i as int),
        decreases a@.len() - i,
    {
        out.push(a[i]);
        i = i + 1;
        assert(out@ =~= a@.take(i as int));
    }
    let mut j: usize = 0;
    while j < b.len()
        invariant
            j <= b@.len(),
            out@ == a@ + b@.take(j as int),
        decreases b@.len() - j,
    {
        out.push(b[j]);
        j = j + 1;
        assert(out@ =~= a@ + b@.take(j as int));
    }
    assert(b@.take(b@.len() as int) =~= b@);
    out
}

/// Where the encrypted part of `n` bytes of contents ends: at the header's limit, but at
/// most at the last whole block.
pub open spec fn split_point(max_encrypted: u32, n: int) -> int {
    let whole = n - n % 16;
    if max_encrypted < whole { max_encrypted as int } else { whole }
}

/// The unpacked contents of a library file: after the header, the encrypted part decrypted
/// and joined to the rest, then inflated.
pub open spec fn unpacked(b: Seq<u8>, header_size: int, max_encrypted: u32) -> Option<Seq<u8>> {
    let contents = b.subrange(header_size, b.len() as int);
    let at = split_point(max_encrypted, contents.len() as int);
    zlib_inflate(aes128_ecb_decrypt(
        seq![66u8, 72, 85, 73, 76, 117, 105, 108, 102, 103, 104, 117, 105, 108, 97, 51],
        contents.take(at),
    ) + contents.skip(at))
}

/// Unpacks a library file: reads its header, decrypts the encrypted part of what follows,
/// and inflates the whole.
pub fn unpack_bytes<'a>(data: &'a [u8]) -> (r: Result<(Vec<u8>, PackedFileInfo<'a>), UnpackError>)
    ensures
        r matches Ok((out, info)) ==> info.header_size <= data@.len() && Some(out@) == unpacked(
            data@,
            info.header_size as int,
            info.max_encrypted_byte_count,
        ),
        r is Ok <==> ({
            let size = le_bytes(data@, 4, 4) as int;
            let max = le_bytes(data@, 84, 4) as u32;
            &&& packed_header_fits(data@, 0)
            &&& split_point(max, data@.len() - size) % 16 == 0
            &&& unpacked(data@, size, max) is Some
        }),
{
    let mut cursor = ChunkCursor::new(data);
    let info = PackedFileInfo::read(&mut cursor)?;
    let start = info.header_size as usize;
    let contents = vstd::slice::slice_subrange(data, start, data.len());
    let n = contents.len();
    let whole = n - n % 16;
    let at = if (info.max_encrypted_byte_count as usize) < whole { info.max_encrypted_byte_count as usize } else { whole };
    let mut encrypted = vstd::slice::slice_to_vec(vstd::slice::slice_subrange(contents, 0, at));
    let k = key();
    let ghost before = encrypted@;
    if !decrypt_blocks(&k, &mut encrypted) {
        return Err(UnpackError::Decryption);
    }
    let rest = vstd::slice::slice_subrange(contents, at, n);
    let compressed = joined(encrypted.as_slice(), rest);
    proof {
        assert(before =~= contents@.take(at as int));
        assert(rest@ =~= contents@.skip(at as int));
    }
    match inflate(compressed.as_slice()) {
        Some(out) => Ok((out, info)),
        None => Err(UnpackError::Decompression),
    }
}

} // verus!
