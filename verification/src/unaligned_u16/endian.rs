//! Byte orders for 16-bit values.
use vstd::prelude::*;

verus! {

/// Marker for the byte order of the machine the program runs on.
pub struct SystemEndian;

/// Marker for little-endian byte order.
pub struct LittleEndian;

/// Marker for big-endian byte order.
pub struct BigEndian;

/// A byte order.
#[derive(Debug, Clone, Copy, PartialEq, Eq, Structural)]
pub enum Endianness {
    Little,
    Big,
}

/// The value of two bytes read in the given order.
pub open spec fn merge_spec(e: Endianness, b0: u8, b1: u8) -> u16 {
    match e {
        Endianness::Little => (b1 as nat * 256 + b0 as nat) as u16,
        Endianness::Big => (b0 as nat * 256 + b1 as nat) as u16,
    }
}

/// The two bytes of `v` written in the given order.
pub open spec fn split_spec(e: Endianness, v: u16) -> (u8, u8) {
    match e {
        Endianness::Little => ((v % 256) as u8, (v / 256) as u8),
        Endianness::Big => ((v / 256) as u8, (v % 256) as u8),
    }
}

/// The native bytes of the value one; their order reveals the byte order of the machine.
#[verifier::external_body]
fn native_bytes_of_one() -> (r: [u8; 2])
    ensures
        (r@[0] == 1 && r@[1] == 0) || (r@[0] == 0 && r@[1] == 1),
{
    1u16.to_ne_bytes()
}

impl Endianness {
    /// The byte order of the machine the program runs on.
    pub fn system() -> (r: Self)
        ensures
            r is Little || r is Big,
    {
        let bytes = native_bytes_of_one();
        if bytes[0] == 1 {
            Self::Little
        } else {
            Self::Big
        }
    }

    pub fn little() -> (r: Self)
        ensures
            r == Endianness::Little,
    {
        Self::Little
    }

    pub fn big() -> (r: Self)
        ensures
            r == Endianness::Big,
    {
        Self::Big
    }

    /// Whether this is the byte order of the machine the program runs on.
    pub fn is_system(self) -> bool {
        self == Self::system()
    }

    pub fn is_little(self) -> (r: bool)
        ensures
            r == (self == Endianness::Little),
    {
        self == Self::Little
    }

    pub fn is_big(self) -> (r: bool)
        ensures
            r == (self == Endianness::Big),
    {
        self == Self::Big
    }

    /// The opposite byte order.
    pub fn opposite(self) -> (r: Self)
        ensures
            r != self,
            r == Self::opposite_spec(self),
    {
        match self {
            Self::Little => Self::Big,
            Self::Big => Self::Little,
        }
    }

    pub open spec fn opposite_spec(e: Endianness) -> Endianness {
        match e {
            Endianness::Little => Endianness::Big,
            Endianness::Big => Endianness::Little,
        }
    }

    /// Writes `value` as two bytes in this byte order.
    pub fn split_u16(self, value: u16) -> (r: [u8; 2])
        ensures
            (r@[0], r@[1]) == split_spec(self, value),
    {
        let low: u8 = (value % 256) as u8;
        let high: u8 = (value / 256) as u8;
        match self {
            Self::Little => [low, high],
            Self::Big => [high, low],
        }
    }

    /// Reads two bytes in this byte order.
    pub fn merge_bytes(self, bytes: [u8; 2]) -> (r: u16)
        ensures
            r == merge_spec(self, bytes@[0], bytes@[1]),
    {
        match self {
            Self::Little => (bytes[1] as u16) * 256 + (bytes[0] as u16),
            Self::Big => (bytes[0] as u16) * 256 + (bytes[1] as u16),
        }
    }
}

/// Reading back what was written in one byte order gives the value that was written.
pub proof fn lemma_merge_split(e: Endianness, v: u16)
    ensures
        merge_spec(e, split_spec(e, v).0, split_spec(e, v).1) == v,
{
}

/// Writing back what was read in one byte order gives the bytes that were read.
pub proof fn lemma_split_merge(e: Endianness, b0: u8, b1: u8)
    ensures
        split_spec(e, merge_spec(e, b0, b1)) == (b0, b1),
{
}

/// Taking the opposite byte order twice gives back the original one.
pub proof fn lemma_opposite_involutive(e: Endianness)
    ensures
        Endianness::opposite_spec(Endianness::opposite_spec(e)) == e,
{
}

/// Reading the same two bytes in both orders swaps them.
pub proof fn lemma_merge_opposite(e: Endianness, b0: u8, b1: u8)
    ensures
        merge_spec(Endianness::opposite_spec(e), b0, b1) == merge_spec(e, b1, b0),
{
}

/// A type that stands for a byte order.
pub trait Endian {
    /// The byte order this type stands for.
    fn to_variant() -> Endianness;
}

impl Endian for SystemEndian {
    fn to_variant() -> Endianness {
        Endianness::system()
    }
}

impl Endian for LittleEndian {
    fn to_variant() -> (r: Endianness)
        ensures
            r == Endianness::Little,
    {
        Endianness::Little
    }
}

impl Endian for BigEndian {
    fn to_variant() -> (r: Endianness)
        ensures
            r == Endianness::Big,
    {
        Endianness::Big
    }
}

} // verus!
