//! Reading chunks of the decoded library: a cursor over the bytes, little-endian integers,
//! four-byte signatures, and the length checks every sized chunk passes.
use vstd::prelude::*;
use vstd::slice::slice_subrange;
use crate::musicdb::version::AppleMusicVersion;

verus! {

/// Why reading from a cursor failed.
#[derive(Debug, Clone, Copy, PartialEq, Eq, Structural)]
pub enum CursorError {
    /// Fewer bytes were left than were wanted.
    UnexpectedEof { position: usize, available: usize, wanted: usize },
    /// A move would have left the data.
    SeekPastEnd,
    /// A C string was asked for within zero bytes.
    NoRoomForTerminator,
    /// No NUL byte ended the C string within its maximum length.
    MissingTerminator,
}

/// The little-endian number held by `n` bytes of `b` from `i`.
pub open spec fn le_bytes(b: Seq<u8>, i: int, n: nat) -> nat
    decreases n,
{
    if n == 0 {
        0
    } else {
        b[i] as nat + 256 * le_bytes(b, i + 1, (n - 1) as nat)
    }
}

/// A four-byte signature, used to identify chunks of data.
///
/// All signatures so far have matched the pattern /[a-z]{4}/i. A leading "i" seems to mark
/// one item and "l" a list of them: `iAma`/`lAma` (artists), `iama`/`lama` (albums),
/// `itma`/`ltma` (tracks), `isma`/`Lsma` (accounts), `lpma`/`lPma` (collections).
#[derive(Debug, Clone, Copy, PartialEq, Eq)]
pub struct Signature(pub [u8; 4]);

impl Signature {
    /// A zeroed buffer the size of a signature.
    pub fn empty_buffer() -> (r: [u8; 4])
        ensures
            r@ == seq![0u8, 0, 0, 0],
    {
        [0u8; 4]
    }

    /// The signature made of the given four bytes.
    pub fn new(bytes: [u8; 4]) -> (r: Self)
        ensures
            r.0 == bytes,
    {
        Signature(bytes)
    }

    /// The signature's bytes.
    pub fn bytes(&self) -> (r: &[u8; 4])
        ensures
            *r == self.0,
    {
        &self.0
    }

    /// The signature as text, with anything that is not UTF-8 replaced.
    pub fn into_lossy_str(&self) -> (r: String)
        ensures
            r@ == lossy_text(self.0@),
            vstd::utf8::valid_utf8(self.0@) ==> r@ == vstd::utf8::decode_utf8(self.0@),
    {
        lossy_utf8(self.0.as_slice())
    }

    /// Whether two signatures are the same bytes.
    pub fn same(&self, other: &Signature) -> (r: bool)
        ensures
            r == (self.0@ == other.0@),
    {
        self.is(other.0)
    }

    /// Whether the signature is the given bytes.
    pub fn is(&self, bytes: [u8; 4]) -> (r: bool)
        ensures
            r == (self.0@ == bytes@),
    {
        let r = self.0[0] == bytes[0] && self.0[1] == bytes[1] && self.0[2] == bytes[2] && self.0[3] == bytes[3];
        proof {
            if r {
                assert(self.0@ =~= bytes@);
            }
        }
        r
    }
}

/// The text `String::from_utf8_lossy` makes of the bytes `b`: each invalid sequence replaced
/// by U+FFFD. It depends on the bytes alone.
pub uninterp spec fn lossy_text(b: Seq<u8>) -> Seq<char>;

/// `String::from_utf8_lossy`: the text of `b`, with each invalid sequence replaced by U+FFFD.
///
/// The result is named by `lossy_text` of the bytes; of that name the contract states the one
/// case std's documentation fixes exactly: valid UTF-8 comes back unchanged.
#[verifier::external_body]
fn lossy_utf8(b: &[u8]) -> (r: String)
    ensures
        r@ == lossy_text(b@),
        vstd::utf8::valid_utf8(b@) ==> r@ == vstd::utf8::decode_utf8(b@),
{
    String::from_utf8_lossy(b).into_owned()
}

/// A place to move a cursor to: from the start, from the end, or from where it is.
#[derive(Debug, Clone, Copy, PartialEq, Eq, Structural)]
pub enum SeekFrom {
    Start(u64),
    End(i64),
    Current(i64),
}

/// The position that a seek names, for bytes of length `len` and a cursor at `pos`.
pub open spec fn seek_target(len: int, pos: int, to: SeekFrom) -> int {
    match to {
        SeekFrom::Start(o) => o as int,
        SeekFrom::End(o) => len + o,
        SeekFrom::Current(o) => pos + o,
    }
}

/// A position within the decoded bytes of a library.
pub struct ChunkCursor<'a> {
    data: &'a [u8],
    position: usize,
    version: Option<AppleMusicVersion>,
}

impl<'a> ChunkCursor<'a> {
    /// The bytes read from.
    pub closed spec fn bytes(&self) -> Seq<u8> {
        self.data@
    }

    /// The position, in bytes from the start.
    pub closed spec fn pos(&self) -> int {
        self.position as int
    }

    /// Whether the position lies within the bytes, whose number fits a `usize`.
    pub open spec fn wf(&self) -> bool {
        0 <= self.pos() <= self.bytes().len() <= usize::MAX
    }

    /// The bytes from the position on.
    pub open spec fn rest(&self) -> Seq<u8> {
        self.bytes().subrange(self.pos(), self.bytes().len() as int)
    }

    /// A cursor at the start of `data`.
    pub fn new(data: &'a [u8]) -> (r: Self)
        ensures
            r.wf(),
            r.bytes() == data@,
            r.pos() == 0,
            r.app_version() is None,
    {
        let _len = data.len();
        ChunkCursor { data, position: 0, version: None }
    }

    /// The version of the application that wrote the bytes, once known.
    pub closed spec fn app_version(&self) -> Option<AppleMusicVersion> {
        self.version
    }

    /// The version of the application that wrote the bytes, once known.
    pub fn version(&self) -> (r: Option<AppleMusicVersion>)
        ensures
            r == self.app_version(),
    {
        self.version
    }

    /// Records the version of the application that wrote the bytes.
    pub fn set_version(&mut self, version: AppleMusicVersion)
        requires
            old(self).wf(),
        ensures
            final(self).wf(),
            final(self).bytes() == old(self).bytes(),
            final(self).pos() == old(self).pos(),
            final(self).app_version() == Some(version),
    {
        self.version = Some(version);
    }

    /// The position, in bytes from the start.
    pub fn position(&self) -> (r: usize)
        ensures
            r == self.pos(),
    {
        self.position
    }

    /// The number of bytes.
    pub fn len(&self) -> (r: usize)
        ensures
            r == self.bytes().len(),
    {
        self.data.len()
    }

    /// The bytes from the position on.
    pub fn peek_remaining(&self) -> (r: &'a [u8])
        requires
            self.wf(),
        ensures
            r@ == self.rest(),
    {
        slice_subrange(self.data, self.position, self.data.len())
    }

    /// Up to `amount` bytes from the position.
    pub fn peek_slice(&self, amount: usize) -> (r: &'a [u8])
        requires
            self.wf(),
        ensures
            r@ == self.rest().take(if amount <= self.rest().len() { amount as int } else { self.rest().len() as int }),
    {
        let rest = self.peek_remaining();
        let n = if amount <= rest.len() { amount } else { rest.len() };
        slice_subrange(rest, 0, n)
    }

    /// Exactly `amount` bytes from the position, if that many are left.
    pub fn peek_slice_exact(&self, amount: usize) -> (r: Result<&'a [u8], CursorError>)
        requires
            self.wf(),
        ensures
            amount <= self.rest().len() <==> r is Ok,
            r matches Ok(s) ==> s@ == self.rest().take(amount as int),
            r matches Err(e) ==> e == (CursorError::UnexpectedEof {
                position: self.pos() as usize,
                available: self.rest().len() as usize,
                wanted: amount,
            }),
    {
        let rest = self.peek_remaining();
        if amount <= rest.len() {
            Ok(slice_subrange(rest, 0, amount))
        } else {
            Err(CursorError::UnexpectedEof { position: self.position, available: rest.len(), wanted: amount })
        }
    }

    /// Exactly `amount` bytes from the position, moving past them.
    pub fn read_slice_exact(&mut self, amount: usize) -> (r: Result<&'a [u8], CursorError>)
        requires
            old(self).wf(),
        ensures
            final(self).wf(),
            final(self).bytes() == old(self).bytes(),
            final(self).app_version() == old(self).app_version(),
            amount <= old(self).rest().len() <==> r is Ok,
            r matches Ok(s) ==> s@ == old(self).rest().take(amount as int) && final(self).pos() == old(self).pos() + amount,
            r is Err ==> final(self).pos() == old(self).pos(),
            r matches Err(e) ==> e == (CursorError::UnexpectedEof {
                position: old(self).pos() as usize,
                available: old(self).rest().len() as usize,
                wanted: amount,
            }),
    {
        let read = self.peek_slice_exact(amount)?;
        let _len = self.data.len();
        self.position = self.position + amount;
        Ok(read)
    }

    /// Up to `amount` bytes from the position, moving past those read.
    pub fn read_slice(&mut self, amount: usize) -> (r: &'a [u8])
        requires
            old(self).wf(),
        ensures
            final(self).wf(),
            final(self).bytes() == old(self).bytes(),
            final(self).app_version() == old(self).app_version(),
            r@ == old(self).rest().take(if amount <= old(self).rest().len() { amount as int } else { old(self).rest().len() as int }),
            final(self).pos() == old(self).pos() + r@.len(),
    {
        let read = self.peek_slice(amount);
        let _len = self.data.len();
        self.position = self.position + read.len();
        read
    }

    /// Four bytes at the position, read as a signature.
    pub fn peek_signature(&self) -> (r: Result<Signature, CursorError>)
        requires
            self.wf(),
        ensures
            4 <= self.rest().len() <==> r is Ok,
            r matches Ok(s) ==> s.0@ == self.rest().take(4),
            r matches Err(e) ==> e == (CursorError::UnexpectedEof {
                position: self.pos() as usize,
                available: self.rest().len() as usize,
                wanted: 4,
            }),
    {
        let b = self.peek_slice_exact(4)?;
        let sig = Signature([b[0], b[1], b[2], b[3]]);
        assert(sig.0@ =~= self.rest().take(4));
        Ok(sig)
    }

    /// Four bytes at the position, read as a signature, moving past them.
    pub fn read_signature(&mut self) -> (r: Result<Signature, CursorError>)
        requires
            old(self).wf(),
        ensures
            final(self).wf(),
            final(self).bytes() == old(self).bytes(),
            final(self).app_version() == old(self).app_version(),
            4 <= old(self).rest().len() <==> r is Ok,
            r matches Ok(s) ==> s.0@ == old(self).rest().take(4) && final(self).pos() == old(self).pos() + 4,
            r is Err ==> final(self).pos() == old(self).pos(),
    {
        let signature = self.peek_signature()?;
        let _len = self.data.len();
        self.position = self.position + 4;
        Ok(signature)
    }

    /// Moves by `amount` bytes, back where it is negative; refused where that would leave the data.
    pub fn advance(&mut self, amount: i64) -> (r: Result<u64, CursorError>)
        requires
            old(self).wf(),
        ensures
            final(self).wf(),
            final(self).bytes() == old(self).bytes(),
            final(self).app_version() == old(self).app_version(),
            (0 <= old(self).pos() + amount <= old(self).bytes().len()) <==> r is Ok,
            r matches Ok(p) ==> p == old(self).pos() + amount && final(self).pos() == p,
            r matches Err(e) ==> e == CursorError::SeekPastEnd && final(self).pos() == old(self).pos(),
    {
        let here = self.position as i128;
        let target = here + amount as i128;
        if target < 0 || target > self.data.len() as i128 {
            return Err(CursorError::SeekPastEnd);
        }
        self.position = target as usize;
        Ok(target as u64)
    }

    /// Moves back by `amount` bytes.
    pub fn backtrack(&mut self, amount: i64) -> (r: Result<u64, CursorError>)
        requires
            old(self).wf(),
            amount > i64::MIN,
        ensures
            final(self).wf(),
            final(self).bytes() == old(self).bytes(),
            final(self).app_version() == old(self).app_version(),
            (0 <= old(self).pos() - amount <= old(self).bytes().len()) <==> r is Ok,
            r matches Ok(p) ==> p == old(self).pos() - amount && final(self).pos() == p,
            r is Err ==> final(self).pos() == old(self).pos(),
    {
        self.advance(-amount)
    }

    /// Moves to a place given from the start, from the end or from the current position;
    /// refused, without moving, where that place is before the start or past the end.
    pub fn seek(&mut self, to: SeekFrom) -> (r: Result<u64, CursorError>)
        requires
            old(self).wf(),
        ensures
            final(self).wf(),
            final(self).bytes() == old(self).bytes(),
            final(self).app_version() == old(self).app_version(),
            ({
                let t = seek_target(old(self).bytes().len() as int, old(self).pos(), to);
                &&& (0 <= t <= old(self).bytes().len()) <==> r is Ok
                &&& (r matches Ok(p) ==> p == t && final(self).pos() == t)
                &&& (r matches Err(e) ==> e == CursorError::SeekPastEnd && final(self).pos() == old(self).pos())
            }),
    {
        let target: i128 = match to {
            SeekFrom::Start(o) => o as i128,
            SeekFrom::End(o) => self.data.len() as i128 + o as i128,
            SeekFrom::Current(o) => self.position as i128 + o as i128,
        };
        if target < 0 || target > self.data.len() as i128 {
            return Err(CursorError::SeekPastEnd);
        }
        self.position = target as usize;
        Ok(target as u64)
    }

    /// Moves forward by `amount` bytes.
    pub fn skip(&mut self, amount: usize) -> (r: Result<u64, CursorError>)
        requires
            old(self).wf(),
            amount <= i64::MAX,
        ensures
            final(self).wf(),
            final(self).bytes() == old(self).bytes(),
            final(self).app_version() == old(self).app_version(),
            (old(self).pos() + amount <= old(self).bytes().len()) <==> r is Ok,
            r matches Ok(p) ==> p == old(self).pos() + amount && final(self).pos() == p,
            r is Err ==> final(self).pos() == old(self).pos(),
    {
        self.advance(amount as i64)
    }

    /// Moves to `position`; refused past the end.
    pub fn set_position(&mut self, position: usize) -> (r: Result<usize, CursorError>)
        requires
            old(self).wf(),
        ensures
            final(self).wf(),
            final(self).bytes() == old(self).bytes(),
            final(self).app_version() == old(self).app_version(),
            position <= old(self).bytes().len() <==> r is Ok,
            r is Ok ==> r == Ok::<usize, CursorError>(position) && final(self).pos() == position,
            r matches Err(e) ==> e == CursorError::SeekPastEnd && final(self).pos() == old(self).pos(),
    {
        if position > self.data.len() {
            return Err(CursorError::SeekPastEnd);
        }
        self.position = position;
        Ok(position)
    }

    /// Reads a little-endian number of `n` bytes. Where fewer are left, the position moves to
    /// the end, as a failed exact read of a byte stream leaves it.
    fn read_le(&mut self, n: usize) -> (r: Result<u64, CursorError>)
        requires
            old(self).wf(),
            1 <= n <= 8,
        ensures
            final(self).wf(),
            final(self).bytes() == old(self).bytes(),
            final(self).app_version() == old(self).app_version(),
            n <= old(self).rest().len() <==> r is Ok,
            r matches Ok(v) ==> v == le_bytes(old(self).bytes(), old(self).pos(), n as nat) && final(self).pos() == old(self).pos() + n,
            r matches Err(e) ==> final(self).pos() == old(self).bytes().len() && e == (CursorError::UnexpectedEof {
                position: old(self).pos() as usize,
                available: old(self).rest().len() as usize,
                wanted: n,
            }),
    {
        let rest = self.peek_remaining();
        if rest.len() < n {
            let e = CursorError::UnexpectedEof { position: self.position, available: rest.len(), wanted: n };
            self.position = self.data.len();
            return Err(e);
        }
        let ghost b = self.data@;
        let ghost p = self.position as int;
        let _len = self.data.len();
        let mut value: u64 = 0;
        let mut k: usize = n;
        while k > 0
            invariant
                0 <= p <= b.len(),
                p + n <= b.len(),
                b.len() <= usize::MAX,
                rest@ == b.subrange(p, b.len() as int),
                n <= rest@.len(),
                k <= n <= 8,
                value == le_bytes(b, p + k, (n - k) as nat),
                value < pow256((n - k) as nat),
            decreases k,
        {
            k = k - 1;
            proof {
                lemma_pow256_step((n - k - 1) as nat);
                assert(rest@[k as int] == b[p + k]);
                assert(value * 256 + 255 < pow256((n - k) as nat)) by (nonlinear_arith)
                    requires value < pow256((n - k - 1) as nat), pow256((n - k) as nat) == 256 * pow256((n - k - 1) as nat);
                lemma_pow256_bound((n - k) as nat);
            }
            value = value * 256 + rest[k] as u64;
        }
        self.position = self.position + n;
        Ok(value)
    }

    /// Reads a byte.
    pub fn read_u8(&mut self) -> (r: Result<u8, CursorError>)
        requires
            old(self).wf(),
        ensures
            final(self).wf(),
            final(self).bytes() == old(self).bytes(),
            final(self).app_version() == old(self).app_version(),
            1 <= old(self).rest().len() <==> r is Ok,
            r matches Ok(v) ==> v == old(self).bytes()[old(self).pos()] && final(self).pos() == old(self).pos() + 1,
            r is Err ==> final(self).pos() == old(self).bytes().len(),
    {
        let v = self.read_le(1)?;
        proof {
            reveal_with_fuel(le_bytes, 2);
        }
        Ok(v as u8)
    }

    /// Reads a little-endian 16-bit number.
    pub fn read_u16(&mut self) -> (r: Result<u16, CursorError>)
        requires
            old(self).wf(),
        ensures
            final(self).wf(),
            final(self).bytes() == old(self).bytes(),
            final(self).app_version() == old(self).app_version(),
            2 <= old(self).rest().len() <==> r is Ok,
            r matches Ok(v) ==> v == le_bytes(old(self).bytes(), old(self).pos(), 2) && final(self).pos() == old(self).pos() + 2,
            r is Err ==> final(self).pos() == old(self).bytes().len(),
    {
        let v = self.read_le(2)?;
        proof {
            lemma_le_bound(old(self).bytes(), old(self).pos(), 2);
            reveal_with_fuel(pow256, 3);
        }
        Ok(v as u16)
    }

    /// Reads a little-endian 32-bit number.
    pub fn read_u32(&mut self) -> (r: Result<u32, CursorError>)
        requires
            old(self).wf(),
        ensures
            final(self).wf(),
            final(self).bytes() == old(self).bytes(),
            final(self).app_version() == old(self).app_version(),
            4 <= old(self).rest().len() <==> r is Ok,
            r matches Ok(v) ==> v == le_bytes(old(self).bytes(), old(self).pos(), 4) && final(self).pos() == old(self).pos() + 4,
            r is Err ==> final(self).pos() == old(self).bytes().len(),
    {
        let v = self.read_le(4)?;
        proof {
            lemma_le_bound(old(self).bytes(), old(self).pos(), 4);
            reveal_with_fuel(pow256, 5);
        }
        Ok(v as u32)
    }

    /// Reads a little-endian 64-bit number.
    pub fn read_u64(&mut self) -> (r: Result<u64, CursorError>)
        requires
            old(self).wf(),
        ensures
            final(self).wf(),
            final(self).bytes() == old(self).bytes(),
            final(self).app_version() == old(self).app_version(),
            8 <= old(self).rest().len() <==> r is Ok,
            r matches Ok(v) ==> v == le_bytes(old(self).bytes(), old(self).pos(), 8) && final(self).pos() == old(self).pos() + 8,
            r is Err ==> final(self).pos() == old(self).bytes().len(),
    {
        self.read_le(8)
    }

    /// A NUL-terminated string within the next `max_length` bytes, without its NUL; the
    /// cursor moves past all `max_length` bytes.
    pub fn read_cstr_exact_with_max_length(&mut self, max_length: usize) -> (r: Result<&'a [u8], CursorError>)
        requires
            old(self).wf(),
        ensures
            final(self).wf(),
            final(self).bytes() == old(self).bytes(),
            final(self).app_version() == old(self).app_version(),
            max_length > old(self).rest().len() ==> r is Err && final(self).pos() == old(self).pos(),
            max_length <= old(self).rest().len() ==> final(self).pos() == old(self).pos() + max_length,
            max_length <= old(self).rest().len() ==> match crate::text::find(old(self).rest().take(max_length as int), 0) {
                Some(i) => r matches Ok(s) && s@ == old(self).rest().take(i),
                None => r is Err,
            },
            max_length == 0 ==> r == Err::<&[u8], CursorError>(CursorError::NoRoomForTerminator),
    {
        let read = self.read_slice_exact(max_length)?;
        if read.len() == 0 {
            return Err(CursorError::NoRoomForTerminator);
        }
        match crate::text::find_byte_from(read, 0, 0) {
            Some(i) => {
                proof {
                    crate::text::lemma_find_from_props(read@, 0, 0);
                    assert(read@.take(i as int) =~= old(self).rest().take(i as int));
                }
                Ok(slice_subrange(read, 0, i))
            },
            None => Err(CursorError::MissingTerminator),
        }
    }
}

/// A piece of data told apart by a four-byte signature and a size.
///
/// The size is four bytes long and mostly follows the signature right away; a boma has four
/// unknown bytes between them.
pub trait Chunk {
    /// The signature of this kind of chunk.
    spec fn spec_signature() -> Seq<u8>;

    /// The signature of this kind of chunk.
    fn signature() -> (r: Signature)
        ensures
            r.0@ == Self::spec_signature(),
    ;
}

/// The lengths that follow a chunk's own length.
pub trait LengthFollowerVariantPossessor: Sized {
    /// Which lengths these are.
    fn variant() -> (r: LengthFollower);

    /// The byte length of the chunk with its appendages, where these lengths hold it.
    fn get_byte_length_inclusive(&self) -> (r: Option<u32>);
}

impl LengthFollowerVariantPossessor for NoAppendage {
    fn variant() -> (r: LengthFollower) {
        LengthFollower::Nothing
    }

    fn get_byte_length_inclusive(&self) -> (r: Option<u32>) {
        None
    }
}

impl LengthFollowerVariantPossessor for AppendageQuantity {
    fn variant() -> (r: LengthFollower) {
        LengthFollower::Quantity
    }

    fn get_byte_length_inclusive(&self) -> (r: Option<u32>) {
        None
    }
}

impl LengthFollowerVariantPossessor for LengthWithAppendages {
    fn variant() -> (r: LengthFollower) {
        LengthFollower::ByteLength
    }

    fn get_byte_length_inclusive(&self) -> (r: Option<u32>) {
        Some(self.appendage_inclusive_byte_length)
    }
}

impl LengthFollowerVariantPossessor for LengthWithAppendagesAndQuantity {
    fn variant() -> (r: LengthFollower) {
        LengthFollower::ByteLengthAndQuantity
    }

    fn get_byte_length_inclusive(&self) -> (r: Option<u32>) {
        Some(self.appendage_inclusive_byte_length)
    }
}

/// What follows a chunk's length, before its contents.
#[derive(Debug, Clone, Copy, PartialEq, Eq, Structural)]
pub enum LengthFollower {
    Nothing,
    Quantity,
    ByteLength,
    ByteLengthAndQuantity,
}

impl LengthFollower {
    /// Whether the byte length of the chunk with its appendages comes right after its length.
    pub fn has_byte_length_immediately(self) -> (r: bool)
        ensures
            r == (self is ByteLength || self is ByteLengthAndQuantity),
    {
        match self {
            LengthFollower::ByteLength | LengthFollower::ByteLengthAndQuantity => true,
            _ => false,
        }
    }

    /// The number of bytes of lengths that follow the chunk's length.
    pub open spec fn size(self) -> int {
        match self {
            LengthFollower::Nothing => 0,
            LengthFollower::Quantity => 4,
            LengthFollower::ByteLength => 4,
            LengthFollower::ByteLengthAndQuantity => 8,
        }
    }
}

/// A chunk without appendages.
pub struct NoAppendage {}

/// A chunk followed by `count` appendages.
pub struct AppendageQuantity {
    pub count: u32,
}

/// A chunk whose byte length, with its appendages, follows its length.
pub struct LengthWithAppendages {
    pub appendage_inclusive_byte_length: u32,
}

/// A chunk whose byte length with its appendages, then their number, follow its length.
pub struct LengthWithAppendagesAndQuantity {
    pub appendage_inclusive_byte_length: u32,
    pub count: u32,
}

/// How far a chunk's reading must have gone when it ends.
#[derive(Debug, Clone, Copy, PartialEq, Eq, Structural)]
pub enum LengthEnforcement {
    /// Exactly to the chunk's length.
    ToDefinedLength,
    /// Exactly to the byte length that includes the appendages.
    ToDefinedLengthPlusAppendagesByteLength,
    /// At least to the chunk's length, for when the appendages' byte length is not known.
    AtLeastDefinedLength,
    /// Anywhere.
    Unenforced,
}

/// The start of a chunk: where it is, its length, and the lengths that follow.
#[derive(Debug, Clone, Copy)]
pub struct ChunkHeader {
    pub offset: usize,
    pub length: u32,
    pub appendage_inclusive_byte_length: Option<u32>,
    pub count: Option<u32>,
}

/// Why the start of a chunk could not be read.
#[derive(Debug, Clone, Copy)]
pub enum HeaderError {
    Io(CursorError),
    BadSignature { expected: Signature, found: Signature },
}

/// A chunk was read to another end than its lengths call for.
#[derive(Debug, Clone, Copy)]
pub struct DidNotReadToEndError {
    pub signature: Signature,
    pub offset: usize,
    pub length: u32,
    pub expected_end: usize,
    pub actual_end: usize,
}

impl DidNotReadToEndError {
    /// The error's message: the signature, with anything that is not UTF-8 replaced, then
    /// the offset, length and ends, the offsets in hexadecimal.
    pub fn to_string(&self) -> (r: String)
        ensures
            ({
                let sig = lossy_text(self.signature.0@);
                &&& (vstd::utf8::valid_utf8(self.signature.0@) ==> sig == vstd::utf8::decode_utf8(self.signature.0@))
                &&& r@ == "chunk did not read to end (signature: "@ + sig + ", offset: 0x"@
                    + crate::num::upper_hex(self.offset as nat) + ", length: "@ + crate::num::decimal(self.length as nat)
                    + ", expected end: 0x"@ + crate::num::upper_hex(self.expected_end as nat) + ", actual end: 0x"@
                    + crate::num::upper_hex(self.actual_end as nat) + ")"@
            }),
    {
        let sig = self.signature.into_lossy_str();
        let mut out = String::from_str("chunk did not read to end (signature: ");
        out.append(sig.as_str());
        out.append(", offset: 0x");
        crate::num::push_upper_hex(self.offset as u64, &mut out);
        out.append(", length: ");
        crate::num::push_decimal(self.length as u64, &mut out);
        out.append(", expected end: 0x");
        crate::num::push_upper_hex(self.expected_end as u64, &mut out);
        out.append(", actual end: 0x");
        crate::num::push_upper_hex(self.actual_end as u64, &mut out);
        out.append(")");
        out
    }
}

/// The header of a chunk at `o` with lengths `follower`.
pub open spec fn header_at(b: Seq<u8>, o: int, follower: LengthFollower) -> ChunkHeader {
    ChunkHeader {
        offset: o as usize,
        length: le_bytes(b, o + 4, 4) as u32,
        appendage_inclusive_byte_length: if follower is ByteLength || follower is ByteLengthAndQuantity {
            Some(le_bytes(b, o + 8, 4) as u32)
        } else {
            None
        },
        count: match follower {
            LengthFollower::Quantity => Some(le_bytes(b, o + 8, 4) as u32),
            LengthFollower::ByteLengthAndQuantity => Some(le_bytes(b, o + 12, 4) as u32),
            _ => None,
        },
    }
}

/// Whether `rest` starts with `signature` and holds a chunk's length and the lengths that
/// `follower` says come after it.
pub open spec fn header_fits(rest: Seq<u8>, signature: Signature, follower: LengthFollower) -> bool {
    8 + follower.size() <= rest.len() && rest.take(4) == signature.0@
}

/// Reads the start of a chunk: its signature, which must be `signature`, its length and the
/// lengths that `follower` says come after.
pub fn read_header(cursor: &mut ChunkCursor, signature: Signature, follower: LengthFollower) -> (r: Result<ChunkHeader, HeaderError>)
    requires
        old(cursor).wf(),
    ensures
        final(cursor).wf(),
        final(cursor).bytes() == old(cursor).bytes(),
        final(cursor).app_version() == old(cursor).app_version(),
        r matches Ok(h) ==> {
            &&& h == header_at(old(cursor).bytes(), old(cursor).pos(), follower)
            &&& h.offset == old(cursor).pos()
            &&& h.length == le_bytes(old(cursor).bytes(), old(cursor).pos() + 4, 4)
            &&& old(cursor).rest().take(4) == signature.0@
            &&& final(cursor).pos() == old(cursor).pos() + 8 + follower.size()
        },
        r is Ok <==> header_fits(old(cursor).rest(), signature, follower),
        4 <= old(cursor).rest().len() && old(cursor).rest().take(4) != signature.0@ ==> r is Err,
{
    let offset = cursor.position();
    let found = match cursor.read_signature() {
        Ok(s) => s,
        Err(e) => { return Err(HeaderError::Io(e)); },
    };
    if !found.same(&signature) {
        return Err(HeaderError::BadSignature { expected: signature, found });
    }
    let length = match cursor.read_u32() { Ok(v) => v, Err(e) => { return Err(HeaderError::Io(e)); } };
    let mut appendage_inclusive_byte_length: Option<u32> = None;
    let mut count: Option<u32> = None;
    match follower {
        LengthFollower::Nothing => {},
        LengthFollower::Quantity => {
            count = Some(match cursor.read_u32() { Ok(v) => v, Err(e) => { return Err(HeaderError::Io(e)); } });
        },
        LengthFollower::ByteLength => {
            appendage_inclusive_byte_length = Some(match cursor.read_u32() { Ok(v) => v, Err(e) => { return Err(HeaderError::Io(e)); } });
        },
        LengthFollower::ByteLengthAndQuantity => {
            appendage_inclusive_byte_length = Some(match cursor.read_u32() { Ok(v) => v, Err(e) => { return Err(HeaderError::Io(e)); } });
            count = Some(match cursor.read_u32() { Ok(v) => v, Err(e) => { return Err(HeaderError::Io(e)); } });
        },
    }
    Ok(ChunkHeader { offset, length, appendage_inclusive_byte_length, count })
}

/// Whether a chunk read from `offset` to `end` meets `enforcement`.
pub open spec fn length_met(enforcement: LengthEnforcement, offset: int, length: int, inclusive: Option<u32>, end: int) -> bool {
    match enforcement {
        LengthEnforcement::ToDefinedLength => end == offset + length,
        LengthEnforcement::ToDefinedLengthPlusAppendagesByteLength => end == offset + inclusive.unwrap(),
        LengthEnforcement::AtLeastDefinedLength => end >= offset + length,
        LengthEnforcement::Unenforced => true,
    }
}

/// Checks that a chunk read from `offset` ended where `enforcement` says it must.
pub fn enforce_length(enforcement: LengthEnforcement, signature: Signature, offset: usize, length: u32, inclusive: Option<u32>, actual_end: usize) -> (r: Result<(), DidNotReadToEndError>)
    requires
        enforcement is ToDefinedLengthPlusAppendagesByteLength ==> inclusive is Some,
    ensures
        r is Ok <==> length_met(enforcement, offset as int, length as int, inclusive, actual_end as int),
{
    let expected_end: u128 = match enforcement {
        LengthEnforcement::ToDefinedLengthPlusAppendagesByteLength => offset as u128 + inclusive.unwrap() as u128,
        _ => offset as u128 + length as u128,
    };
    let met = match enforcement {
        LengthEnforcement::ToDefinedLength | LengthEnforcement::ToDefinedLengthPlusAppendagesByteLength => actual_end as u128 == expected_end,
        LengthEnforcement::AtLeastDefinedLength => actual_end as u128 >= expected_end,
        LengthEnforcement::Unenforced => true,
    };
    if met {
        Ok(())
    } else {
        Err(DidNotReadToEndError {
            signature,
            offset,
            length,
            expected_end: if expected_end <= usize::MAX as u128 { expected_end as usize } else { usize::MAX },
            actual_end,
        })
    }
}

/// Powers of 256.
pub open spec fn pow256(n: nat) -> nat
    decreases n,
{
    if n == 0 {
        1
    } else {
        256 * pow256((n - 1) as nat)
    }
}

proof fn lemma_pow256_step(n: nat)
    ensures
        pow256(n + 1) == 256 * pow256(n),
{
}

proof fn lemma_pow256_bound(n: nat)
    requires
        n <= 8,
    ensures
        pow256(n) <= 0x1_0000_0000_0000_0000,
    decreases n,
{
    reveal_with_fuel(pow256, 9);
}

/// A little-endian number of `n` bytes is below 256 to the `n`.
pub proof fn lemma_le_bound(b: Seq<u8>, i: int, n: nat)
    ensures
        le_bytes(b, i, n) < pow256(n),
    decreases n,
{
    if n > 0 {
        lemma_le_bound(b, i + 1, (n - 1) as nat);
        let x = b[i] as nat;
        let y = le_bytes(b, i + 1, (n - 1) as nat);
        let p = pow256((n - 1) as nat);
        assert(x + 256 * y < 256 * p) by (nonlinear_arith)
            requires x < 256, y < p;
    }
}

} // verus!
