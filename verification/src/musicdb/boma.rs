//! Bomas: the typed records that hang off the chunks of a library, holding text, numbers
//! or lists of paths.
use vstd::prelude::*;
use vstd::slice::slice_subrange;
use crate::musicdb::chunk::{le_bytes, ChunkCursor, CursorError, Signature};
use crate::musicdb::version::{version_lt, AppleMusicVersion};
use crate::musicdb::KilobitsPerSecond;
use crate::unaligned_u16::endian::Endianness;
use crate::unaligned_u16::units_of;
use crate::unaligned_u16::utf16::{decode_utf16, InvalidUtf16Error, Utf16Str};

verus! {

/// A boma subtype number that names no known kind.
#[derive(Debug, Clone, Copy, PartialEq, Eq, Structural)]
pub struct UnknownBomaError(pub u32);

/// What a UTF-16 text boma holds.
#[derive(Debug, Clone, Copy, PartialEq, Eq, Structural)]
pub enum BomaUtf16Variant {
    TrackTitle,
    Album,
    Artist,
    Genre,
    Kind,
    Comment,
    Composer,
    Grouping,
    AlbumArtist,
    ClassicalWorkName,
    ClassicalMovementTitle,
    FairPlayInfo,
    SortOrderTrackTitle,
    SortOrderAlbum,
    SortOrderArtist,
    SortOrderAlbumArtist,
    SortOrderComposer,
    CopyrightHolder,
    TrackLocalFilePath,
    PurchaserEmail,
    PurchaserName,
    PlaylistName,
    IamaAlbum,
    IamaAlbumArtist,
    IamaAlbumArtistCloud,
    SeriesTitle,
    IamaAlbumCloudId,
    ArtistsArtistName,
    ArtistsArtistNameSorted,
    ArtistsArtistCloudId,
    AccountCloudId,
    AccountDisplayName,
    AccountUsername,
    AccountUrlSafeId,
    AccountAvatarUrl,
    UnknownHex1,
    ManagedMediaFolder,
    UnknownHex2,
}

impl BomaUtf16Variant {
    /// The number that the file stores for the variant.
    pub open spec fn code(self) -> u32 {
        match self {
            BomaUtf16Variant::TrackTitle => 2,
            BomaUtf16Variant::Album => 3,
            BomaUtf16Variant::Artist => 4,
            BomaUtf16Variant::Genre => 5,
            BomaUtf16Variant::Kind => 6,
            BomaUtf16Variant::Comment => 8,
            BomaUtf16Variant::Composer => 12,
            BomaUtf16Variant::Grouping => 14,
            BomaUtf16Variant::AlbumArtist => 27,
            BomaUtf16Variant::ClassicalWorkName => 63,
            BomaUtf16Variant::ClassicalMovementTitle => 64,
            BomaUtf16Variant::FairPlayInfo => 43,
            BomaUtf16Variant::SortOrderTrackTitle => 30,
            BomaUtf16Variant::SortOrderAlbum => 31,
            BomaUtf16Variant::SortOrderArtist => 32,
            BomaUtf16Variant::SortOrderAlbumArtist => 33,
            BomaUtf16Variant::SortOrderComposer => 34,
            BomaUtf16Variant::CopyrightHolder => 46,
            BomaUtf16Variant::TrackLocalFilePath => 67,
            BomaUtf16Variant::PurchaserEmail => 59,
            BomaUtf16Variant::PurchaserName => 60,
            BomaUtf16Variant::PlaylistName => 200,
            BomaUtf16Variant::IamaAlbum => 300,
            BomaUtf16Variant::IamaAlbumArtist => 301,
            BomaUtf16Variant::IamaAlbumArtistCloud => 302,
            BomaUtf16Variant::SeriesTitle => 303,
            BomaUtf16Variant::IamaAlbumCloudId => 307,
            BomaUtf16Variant::ArtistsArtistName => 400,
            BomaUtf16Variant::ArtistsArtistNameSorted => 401,
            BomaUtf16Variant::ArtistsArtistCloudId => 403,
            BomaUtf16Variant::AccountCloudId => 800,
            BomaUtf16Variant::AccountDisplayName => 801,
            BomaUtf16Variant::AccountUsername => 802,
            BomaUtf16Variant::AccountUrlSafeId => 803,
            BomaUtf16Variant::AccountAvatarUrl => 804,
            BomaUtf16Variant::UnknownHex1 => 500,
            BomaUtf16Variant::ManagedMediaFolder => 504,
            BomaUtf16Variant::UnknownHex2 => 510,
        }
    }

    /// The number that the file stores for the variant.
    pub fn to_raw(self) -> (r: u32)
        ensures
            r == self.code(),
    {
        match self {
            BomaUtf16Variant::TrackTitle => 2,
            BomaUtf16Variant::Album => 3,
            BomaUtf16Variant::Artist => 4,
            BomaUtf16Variant::Genre => 5,
            BomaUtf16Variant::Kind => 6,
            BomaUtf16Variant::Comment => 8,
            BomaUtf16Variant::Composer => 12,
            BomaUtf16Variant::Grouping => 14,
            BomaUtf16Variant::AlbumArtist => 27,
            BomaUtf16Variant::ClassicalWorkName => 63,
            BomaUtf16Variant::ClassicalMovementTitle => 64,
            BomaUtf16Variant::FairPlayInfo => 43,
            BomaUtf16Variant::SortOrderTrackTitle => 30,
            BomaUtf16Variant::SortOrderAlbum => 31,
            BomaUtf16Variant::SortOrderArtist => 32,
            BomaUtf16Variant::SortOrderAlbumArtist => 33,
            BomaUtf16Variant::SortOrderComposer => 34,
            BomaUtf16Variant::CopyrightHolder => 46,
            BomaUtf16Variant::TrackLocalFilePath => 67,
            BomaUtf16Variant::PurchaserEmail => 59,
            BomaUtf16Variant::PurchaserName => 60,
            BomaUtf16Variant::PlaylistName => 200,
            BomaUtf16Variant::IamaAlbum => 300,
            BomaUtf16Variant::IamaAlbumArtist => 301,
            BomaUtf16Variant::IamaAlbumArtistCloud => 302,
            BomaUtf16Variant::SeriesTitle => 303,
            BomaUtf16Variant::IamaAlbumCloudId => 307,
            BomaUtf16Variant::ArtistsArtistName => 400,
            BomaUtf16Variant::ArtistsArtistNameSorted => 401,
            BomaUtf16Variant::ArtistsArtistCloudId => 403,
            BomaUtf16Variant::AccountCloudId => 800,
            BomaUtf16Variant::AccountDisplayName => 801,
            BomaUtf16Variant::AccountUsername => 802,
            BomaUtf16Variant::AccountUrlSafeId => 803,
            BomaUtf16Variant::AccountAvatarUrl => 804,
            BomaUtf16Variant::UnknownHex1 => 500,
            BomaUtf16Variant::ManagedMediaFolder => 504,
            BomaUtf16Variant::UnknownHex2 => 510,
        }
    }

    /// The variant the file stores as `value`, if any.
    pub fn from_repr(value: u32) -> (r: Option<Self>)
        ensures
            r matches Some(v) ==> v.code() == value,
            r is None ==> forall|v: Self| #[trigger] v.code() != value,
    {
        match value {
            2 => Some(BomaUtf16Variant::TrackTitle),
            3 => Some(BomaUtf16Variant::Album),
            4 => Some(BomaUtf16Variant::Artist),
            5 => Some(BomaUtf16Variant::Genre),
            6 => Some(BomaUtf16Variant::Kind),
            8 => Some(BomaUtf16Variant::Comment),
            12 => Some(BomaUtf16Variant::Composer),
            14 => Some(BomaUtf16Variant::Grouping),
            27 => Some(BomaUtf16Variant::AlbumArtist),
            63 => Some(BomaUtf16Variant::ClassicalWorkName),
            64 => Some(BomaUtf16Variant::ClassicalMovementTitle),
            43 => Some(BomaUtf16Variant::FairPlayInfo),
            30 => Some(BomaUtf16Variant::SortOrderTrackTitle),
            31 => Some(BomaUtf16Variant::SortOrderAlbum),
            32 => Some(BomaUtf16Variant::SortOrderArtist),
            33 => Some(BomaUtf16Variant::SortOrderAlbumArtist),
            34 => Some(BomaUtf16Variant::SortOrderComposer),
            46 => Some(BomaUtf16Variant::CopyrightHolder),
            67 => Some(BomaUtf16Variant::TrackLocalFilePath),
            59 => Some(BomaUtf16Variant::PurchaserEmail),
            60 => Some(BomaUtf16Variant::PurchaserName),
            200 => Some(BomaUtf16Variant::PlaylistName),
            300 => Some(BomaUtf16Variant::IamaAlbum),
            301 => Some(BomaUtf16Variant::IamaAlbumArtist),
            302 => Some(BomaUtf16Variant::IamaAlbumArtistCloud),
            303 => Some(BomaUtf16Variant::SeriesTitle),
            307 => Some(BomaUtf16Variant::IamaAlbumCloudId),
            400 => Some(BomaUtf16Variant::ArtistsArtistName),
            401 => Some(BomaUtf16Variant::ArtistsArtistNameSorted),
            403 => Some(BomaUtf16Variant::ArtistsArtistCloudId),
            800 => Some(BomaUtf16Variant::AccountCloudId),
            801 => Some(BomaUtf16Variant::AccountDisplayName),
            802 => Some(BomaUtf16Variant::AccountUsername),
            803 => Some(BomaUtf16Variant::AccountUrlSafeId),
            804 => Some(BomaUtf16Variant::AccountAvatarUrl),
            500 => Some(BomaUtf16Variant::UnknownHex1),
            504 => Some(BomaUtf16Variant::ManagedMediaFolder),
            510 => Some(BomaUtf16Variant::UnknownHex2),
            _ => None,
        }
    }
}

/// What a UTF-8 text boma holds.
#[derive(Debug, Clone, Copy, PartialEq, Eq, Structural)]
pub enum BomaUtf8Variant {
    PlistTrackCloudInformation,
    PlistCloudDownloadInformation,
    PlistArtworkURL,
    PlistPlaylistInfo,
    TrackLocalFilePathUrl,
}

impl BomaUtf8Variant {
    /// The number that the file stores for the variant.
    pub open spec fn code(self) -> u32 {
        match self {
            BomaUtf8Variant::PlistTrackCloudInformation => 54,
            BomaUtf8Variant::PlistCloudDownloadInformation => 56,
            BomaUtf8Variant::PlistArtworkURL => 402,
            BomaUtf8Variant::PlistPlaylistInfo => 205,
            BomaUtf8Variant::TrackLocalFilePathUrl => 11,
        }
    }

    /// The number that the file stores for the variant.
    pub fn to_raw(self) -> (r: u32)
        ensures
            r == self.code(),
    {
        match self {
            BomaUtf8Variant::PlistTrackCloudInformation => 54,
            BomaUtf8Variant::PlistCloudDownloadInformation => 56,
            BomaUtf8Variant::PlistArtworkURL => 402,
            BomaUtf8Variant::PlistPlaylistInfo => 205,
            BomaUtf8Variant::TrackLocalFilePathUrl => 11,
        }
    }

    /// The variant the file stores as `value`, if any.
    pub fn from_repr(value: u32) -> (r: Option<Self>)
        ensures
            r matches Some(v) ==> v.code() == value,
            r is None ==> forall|v: Self| #[trigger] v.code() != value,
    {
        match value {
            54 => Some(BomaUtf8Variant::PlistTrackCloudInformation),
            56 => Some(BomaUtf8Variant::PlistCloudDownloadInformation),
            402 => Some(BomaUtf8Variant::PlistArtworkURL),
            205 => Some(BomaUtf8Variant::PlistPlaylistInfo),
            11 => Some(BomaUtf8Variant::TrackLocalFilePathUrl),
            _ => None,
        }
    }
}

/// The kinds of book boma.
#[derive(Debug, Clone, Copy, PartialEq, Eq, Structural)]
pub enum BookVariant {
    Variant0,
    Variant2,
}

impl BookVariant {
    /// The number that the file stores for the variant.
    pub open spec fn code(self) -> u32 {
        match self {
            BookVariant::Variant0 => 66,
            BookVariant::Variant2 => 509,
        }
    }

    /// The number that the file stores for the variant.
    pub fn to_raw(self) -> (r: u32)
        ensures
            r == self.code(),
    {
        match self {
            BookVariant::Variant0 => 66,
            BookVariant::Variant2 => 509,
        }
    }

    /// The variant the file stores as `value`, if any.
    pub fn from_repr(value: u32) -> (r: Option<Self>)
        ensures
            r matches Some(v) ==> v.code() == value,
            r is None ==> forall|v: Self| #[trigger] v.code() != value,
    {
        match value {
            66 => Some(BookVariant::Variant0),
            509 => Some(BookVariant::Variant2),
            _ => None,
        }
    }
}

/// The kind of a boma, as its subtype number names it.
#[derive(Debug, Clone, Copy, PartialEq, Eq, Structural)]
pub enum BomaSubtype {
    TrackNumerics,
    CollectionItemMember,
    Book(BookVariant),
    Utf16(BomaUtf16Variant),
    Utf8Xml(BomaUtf8Variant),
}

/// The subtype number of track numerics.
pub const TRACK_NUMERICS_SUBTYPE: u32 = 1;

/// The subtype number of a collection member.
pub const COLLECTION_MEMBER_SUBTYPE: u32 = 206;

impl BomaSubtype {
    /// The number that the file stores for the subtype.
    pub open spec fn code(self) -> u32 {
        match self {
            BomaSubtype::TrackNumerics => TRACK_NUMERICS_SUBTYPE,
            BomaSubtype::CollectionItemMember => COLLECTION_MEMBER_SUBTYPE,
            BomaSubtype::Utf16(v) => v.code(),
            BomaSubtype::Utf8Xml(v) => v.code(),
            BomaSubtype::Book(v) => v.code(),
        }
    }

    /// The number that the file stores for the subtype.
    pub fn get_raw(&self) -> (r: u32)
        ensures
            r == self.code(),
    {
        match self {
            BomaSubtype::TrackNumerics => TRACK_NUMERICS_SUBTYPE,
            BomaSubtype::CollectionItemMember => COLLECTION_MEMBER_SUBTYPE,
            BomaSubtype::Utf16(v) => v.to_raw(),
            BomaSubtype::Utf8Xml(v) => v.to_raw(),
            BomaSubtype::Book(v) => v.to_raw(),
        }
    }

    /// The subtype that the file stores as `value`.
    pub fn try_from(value: u32) -> (r: Result<Self, UnknownBomaError>)
        ensures
            r matches Ok(s) ==> s.code() == value,
            r matches Err(e) ==> e.0 == value && forall|s: Self| #[trigger] s.code() != value,
    {
        if value == TRACK_NUMERICS_SUBTYPE {
            return Ok(BomaSubtype::TrackNumerics);
        }
        if value == COLLECTION_MEMBER_SUBTYPE {
            return Ok(BomaSubtype::CollectionItemMember);
        }
        if let Some(v) = BomaUtf16Variant::from_repr(value) {
            return Ok(BomaSubtype::Utf16(v));
        }
        if let Some(v) = BookVariant::from_repr(value) {
            return Ok(BomaSubtype::Book(v));
        }
        if let Some(v) = BomaUtf8Variant::from_repr(value) {
            return Ok(BomaSubtype::Utf8Xml(v));
        }
        proof {
            assert forall|s: Self| #[trigger] s.code() != value by {
                match s {
                    BomaSubtype::Utf16(v) => { assert(v.code() != value); },
                    BomaSubtype::Utf8Xml(v) => { assert(v.code() != value); },
                    BomaSubtype::Book(v) => { assert(v.code() != value); },
                    _ => {},
                }
            }
        }
        Err(UnknownBomaError(value))
    }
}

/// No two subtypes share a number, so reading back the number of a subtype gives it again.
pub proof fn law_subtype_code_roundtrip(a: BomaSubtype, b: BomaSubtype)
    ensures
        a.code() == b.code() ==> a == b,
{
}

/// The subtype numbers are those of the library file format: a reader that takes any of these
/// numbers takes it as the field the format puts there (`0x3` is the album's name and `0x1B`
/// its artist's, not the other way round).
pub proof fn law_subtype_numbers()
    ensures
        BomaSubtype::TrackNumerics.code() == 0x1,
        BomaSubtype::CollectionItemMember.code() == 0xCE,
        BomaSubtype::Utf16(BomaUtf16Variant::TrackTitle).code() == 0x2,
        BomaSubtype::Utf16(BomaUtf16Variant::Album).code() == 0x3,
        BomaSubtype::Utf16(BomaUtf16Variant::Artist).code() == 0x4,
        BomaSubtype::Utf16(BomaUtf16Variant::Genre).code() == 0x5,
        BomaSubtype::Utf16(BomaUtf16Variant::Kind).code() == 0x6,
        BomaSubtype::Utf16(BomaUtf16Variant::Comment).code() == 0x8,
        BomaSubtype::Utf16(BomaUtf16Variant::Composer).code() == 0xC,
        BomaSubtype::Utf16(BomaUtf16Variant::Grouping).code() == 0xE,
        BomaSubtype::Utf16(BomaUtf16Variant::AlbumArtist).code() == 0x1B,
        BomaSubtype::Utf16(BomaUtf16Variant::ClassicalWorkName).code() == 0x3F,
        BomaSubtype::Utf16(BomaUtf16Variant::ClassicalMovementTitle).code() == 0x40,
        BomaSubtype::Utf16(BomaUtf16Variant::FairPlayInfo).code() == 0x2B,
        BomaSubtype::Utf16(BomaUtf16Variant::SortOrderTrackTitle).code() == 0x1E,
        BomaSubtype::Utf16(BomaUtf16Variant::SortOrderAlbum).code() == 0x1F,
        BomaSubtype::Utf16(BomaUtf16Variant::SortOrderArtist).code() == 0x20,
        BomaSubtype::Utf16(BomaUtf16Variant::SortOrderAlbumArtist).code() == 0x21,
        BomaSubtype::Utf16(BomaUtf16Variant::SortOrderComposer).code() == 0x22,
        BomaSubtype::Utf16(BomaUtf16Variant::CopyrightHolder).code() == 0x2E,
        BomaSubtype::Utf16(BomaUtf16Variant::TrackLocalFilePath).code() == 0x43,
        BomaSubtype::Utf16(BomaUtf16Variant::PurchaserEmail).code() == 0x3B,
        BomaSubtype::Utf16(BomaUtf16Variant::PurchaserName).code() == 0x3C,
        BomaSubtype::Utf16(BomaUtf16Variant::PlaylistName).code() == 0xC8,
        BomaSubtype::Utf16(BomaUtf16Variant::IamaAlbum).code() == 0x12C,
        BomaSubtype::Utf16(BomaUtf16Variant::IamaAlbumArtist).code() == 0x12D,
        BomaSubtype::Utf16(BomaUtf16Variant::IamaAlbumArtistCloud).code() == 0x12E,
        BomaSubtype::Utf16(BomaUtf16Variant::SeriesTitle).code() == 0x12F,
        BomaSubtype::Utf16(BomaUtf16Variant::IamaAlbumCloudId).code() == 0x133,
        BomaSubtype::Utf16(BomaUtf16Variant::ArtistsArtistName).code() == 0x190,
        BomaSubtype::Utf16(BomaUtf16Variant::ArtistsArtistNameSorted).code() == 0x191,
        BomaSubtype::Utf16(BomaUtf16Variant::ArtistsArtistCloudId).code() == 0x193,
        BomaSubtype::Utf16(BomaUtf16Variant::AccountCloudId).code() == 0x320,
        BomaSubtype::Utf16(BomaUtf16Variant::AccountDisplayName).code() == 0x321,
        BomaSubtype::Utf16(BomaUtf16Variant::AccountUsername).code() == 0x322,
        BomaSubtype::Utf16(BomaUtf16Variant::AccountUrlSafeId).code() == 0x323,
        BomaSubtype::Utf16(BomaUtf16Variant::AccountAvatarUrl).code() == 0x324,
        BomaSubtype::Utf16(BomaUtf16Variant::UnknownHex1).code() == 0x1F4,
        BomaSubtype::Utf16(BomaUtf16Variant::ManagedMediaFolder).code() == 0x1F8,
        BomaSubtype::Utf16(BomaUtf16Variant::UnknownHex2).code() == 0x1FE,
        BomaSubtype::Utf8Xml(BomaUtf8Variant::PlistTrackCloudInformation).code() == 0x36,
        BomaSubtype::Utf8Xml(BomaUtf8Variant::PlistCloudDownloadInformation).code() == 0x38,
        BomaSubtype::Utf8Xml(BomaUtf8Variant::PlistArtworkURL).code() == 0x192,
        BomaSubtype::Utf8Xml(BomaUtf8Variant::PlistPlaylistInfo).code() == 0xCD,
        BomaSubtype::Utf8Xml(BomaUtf8Variant::TrackLocalFilePathUrl).code() == 0xB,
        BomaSubtype::Book(BookVariant::Variant0).code() == 0x42,
        BomaSubtype::Book(BookVariant::Variant2).code() == 0x1FD,
{
}

/// Seconds since the Unix epoch of a library timestamp (seconds since 1904, in the
/// library's reckoning); zero stands for no time.
pub open spec fn timestamp_of(seconds: u32) -> Option<i64> {
    if seconds == 0 {
        None
    } else {
        Some((seconds - 2082819600) as i64)
    }
}

/// Seconds since the Unix epoch of a library timestamp; `None` for zero, which stands for no time.
pub fn convert_timestamp(seconds: u32) -> (r: Option<i64>)
    ensures
        r == timestamp_of(seconds),
{
    if seconds == 0 {
        None
    } else {
        Some(seconds as i64 - 2082819600)
    }
}

/// Why a boma could not be read.
#[derive(Debug, Clone, Copy, PartialEq, Eq)]
pub enum BomaReadError {
    /// The bytes ran out, or a move left them.
    Io(CursorError),
    /// The chunk did not start with the signature it should.
    BadSignature { expected: [u8; 4], found: [u8; 4] },
    /// A length was too small for the parts it must hold.
    LengthTooShort(u32),
    /// A UTF-16 text was not well formed.
    InvalidUtf16(InvalidUtf16Error),
    /// A UTF-8 text was not well formed.
    InvalidUtf8,
    /// A book was read without knowing the version of the application.
    UnknownVersion,
}

/// Numbers of a track.
#[derive(Debug, Clone, Copy, PartialEq, Eq, Structural)]
pub struct TrackNumerics {
    pub bitrate: Option<KilobitsPerSecond>,
    /// When the track was added, in seconds since the Unix epoch.
    pub date_added: Option<i64>,
    /// When the track was last changed, in seconds since the Unix epoch.
    pub date_modified: Option<i64>,
    /// Duration of the track, in milliseconds.
    pub duration_ms: u32,
    /// File size, in bytes.
    pub bytes: u32,
}

/// The track numerics of a boma of `length` bytes at `o`.
pub open spec fn numerics_at(b: Seq<u8>, o: int) -> TrackNumerics {
    let bitrate = le_bytes(b, o + 108, 4) as u32;
    TrackNumerics {
        bitrate: if bitrate == 0 { None } else { Some(KilobitsPerSecond(bitrate)) },
        date_added: timestamp_of(le_bytes(b, o + 112, 4) as u32),
        date_modified: timestamp_of(le_bytes(b, o + 148, 4) as u32),
        duration_ms: le_bytes(b, o + 176, 4) as u32,
        bytes: le_bytes(b, o + 316, 4) as u32,
    }
}

/// Lifts a cursor error.
fn io<T>(r: Result<T, CursorError>) -> (out: Result<T, BomaReadError>)
    ensures
        match r {
            Ok(v) => out == Ok::<T, BomaReadError>(v),
            Err(e) => out == Err::<T, BomaReadError>(BomaReadError::Io(e)),
        },
{
    match r {
        Ok(v) => Ok(v),
        Err(e) => Err(BomaReadError::Io(e)),
    }
}

impl TrackNumerics {
    /// Reads the numerics of a boma that starts at `offset`, `length` bytes long; the cursor
    /// stands after the boma's 16-byte header and ends after the boma.
    pub fn read_content(cursor: &mut ChunkCursor, offset: usize, length: u32) -> (r: Result<Self, BomaReadError>)
        requires
            old(cursor).wf(),
            old(cursor).pos() == offset + 16,
        ensures
            final(cursor).wf(),
            final(cursor).bytes() == old(cursor).bytes(),
            final(cursor).app_version() == old(cursor).app_version(),
            r is Ok <==> offset + 320 <= old(cursor).bytes().len() && offset + length <= old(cursor).bytes().len(),
            r is Ok ==> final(cursor).pos() == offset + length,
            r matches Ok(n) ==> n == numerics_at(old(cursor).bytes(), offset as int),
    {
        let ghost b = cursor.bytes();
        io(cursor.skip(92))?;
        let bitrate = io(cursor.read_u32())?;
        let bitrate = if bitrate == 0 { None } else { Some(KilobitsPerSecond(bitrate)) };
        let date_added = convert_timestamp(io(cursor.read_u32())?);
        io(cursor.skip(32))?;
        let date_modified = convert_timestamp(io(cursor.read_u32())?);
        io(cursor.skip(24))?;
        let duration_ms = io(cursor.read_u32())?;
        io(cursor.skip(136))?;
        let bytes = io(cursor.read_u32())?;
        io(cursor.advance(length as i64 - 320))?;
        Ok(TrackNumerics { bitrate, date_added, date_modified, duration_ms, bytes })
    }
}

/// A member of a collection: the persistent id of a track.
#[derive(Debug, Clone, Copy, PartialEq, Eq, Structural)]
pub struct CollectionMember {
    pub track_persistent_id: u64,
}

/// Whether the contents of a member boma, from `p` of `b`, are whole: four unknown bytes,
/// then an `ipfa` chunk with its fixed fields that ends, by its length, within `b`.
pub open spec fn member_fits(b: Seq<u8>, p: int) -> bool {
    &&& p + 32 <= b.len()
    &&& b.subrange(p + 4, p + 8) == seq![105u8, 112, 102, 97]
    &&& p + 4 + le_bytes(b, p + 8, 4) <= b.len()
}

impl CollectionMember {
    /// Reads the member of a boma that starts at `offset`; the cursor stands after the
    /// boma's 16-byte header and ends after the inner `ipfa` chunk.
    pub fn read_content(cursor: &mut ChunkCursor) -> (r: Result<Self, BomaReadError>)
        requires
            old(cursor).wf(),
        ensures
            final(cursor).wf(),
            final(cursor).bytes() == old(cursor).bytes(),
            final(cursor).app_version() == old(cursor).app_version(),
            r is Ok <==> member_fits(old(cursor).bytes(), old(cursor).pos()),
            r matches Ok(m) ==> m.track_persistent_id == le_bytes(old(cursor).bytes(), old(cursor).pos() + 24, 8)
                && final(cursor).pos() == old(cursor).pos() + 4 + le_bytes(old(cursor).bytes(), old(cursor).pos() + 8, 4),
    {
        let ghost b = cursor.bytes();
        let ghost p = cursor.pos();
        io(cursor.skip(4))?;
        proof {
            if p + 8 <= b.len() {
                assert(b.subrange(p + 4, b.len() as int).take(4) =~= b.subrange(p + 4, p + 8));
            }
        }
        let sig = io(cursor.read_signature())?;
        if !sig.is([105u8, 112, 102, 97]) {
            return Err(BomaReadError::BadSignature { expected: [105u8, 112, 102, 97], found: sig.0 });
        }
        let length = io(cursor.read_u32())?;
        io(cursor.skip(12))?;
        let track_persistent_id = io(cursor.read_u64())?;
        io(cursor.advance(length as i64 - 28))?;
        Ok(CollectionMember { track_persistent_id })
    }
}

/// A boma of a subtype this library does not know, kept as bytes.
#[derive(Debug)]
pub struct UnknownBoma {
    pub subtype: u32,
    pub bytes: Vec<u8>,
}

impl UnknownBoma {
    /// Reads the `length - 16` bytes after the header of a boma of unknown subtype.
    pub fn read_variant_content(cursor: &mut ChunkCursor, length: u32, subtype: u32) -> (r: Result<Self, BomaReadError>)
        requires
            old(cursor).wf(),
        ensures
            final(cursor).wf(),
            final(cursor).bytes() == old(cursor).bytes(),
            final(cursor).app_version() == old(cursor).app_version(),
            length < 16 ==> r == Err::<Self, BomaReadError>(BomaReadError::LengthTooShort(length)),
            r matches Ok(u) ==> u.subtype == subtype && u.bytes@ == old(cursor).rest().take(length - 16)
                && final(cursor).pos() == old(cursor).pos() + length - 16,
            16 <= length && length - 16 <= old(cursor).rest().len() ==> r is Ok,
    {
        if length < 16 {
            return Err(BomaReadError::LengthTooShort(length));
        }
        let slice = io(cursor.read_slice_exact((length - 16) as usize))?;
        Ok(UnknownBoma { subtype, bytes: vstd::slice::slice_to_vec(slice) })
    }
}

/// Why a UTF-16 text boma could not be read.
#[derive(Debug)]
pub enum BomaUtf16Error<'a> {
    Io(CursorError),
    InvalidUtf16(InvalidUtf16Error, &'a [u8]),
}

/// A UTF-16 text boma.
#[derive(Debug)]
pub struct BomaUtf16<'a>(pub Utf16Str<'a>, pub BomaUtf16Variant);

/// Whether the contents of a UTF-16 text boma, from `p` of `b`, hold the byte length of the
/// text and, within `b`, that many bytes of well-formed little-endian UTF-16.
pub open spec fn utf16_text_fits(b: Seq<u8>, p: int) -> bool {
    let n = le_bytes(b, p + 8, 4) as int;
    &&& p + 20 + n <= b.len()
    &&& n % 2 == 0
    &&& decode_utf16(units_of(b.subrange(p + 20, p + 20 + n), Endianness::Little)) is Ok
}

impl<'a> BomaUtf16<'a> {
    /// Reads the text of a boma whose 16-byte header has been read: eight unknown bytes, the
    /// text's byte length, eight more, then the text in little-endian UTF-16.
    pub fn read_variant_content(cursor: &mut ChunkCursor<'a>, variant: BomaUtf16Variant) -> (r: Result<Self, BomaUtf16Error<'a>>)
        requires
            old(cursor).wf(),
        ensures
            final(cursor).wf(),
            final(cursor).bytes() == old(cursor).bytes(),
            final(cursor).app_version() == old(cursor).app_version(),
            r matches Ok(t) ==> t.1 == variant && t.0.order() == Endianness::Little && t.0.raw_bytes()
                == old(cursor).bytes().subrange(old(cursor).pos() + 20, old(cursor).pos() + 20 + le_bytes(old(cursor).bytes(), old(cursor).pos() + 8, 4)),
            r is Ok <==> utf16_text_fits(old(cursor).bytes(), old(cursor).pos()),
            r is Ok ==> final(cursor).pos() == old(cursor).pos() + 20 + le_bytes(old(cursor).bytes(), old(cursor).pos() + 8, 4),
    {
        let ghost b = cursor.bytes();
        let ghost p = cursor.pos();
        match cursor.skip(8) { Ok(_) => {}, Err(e) => { return Err(BomaUtf16Error::Io(e)); } }
        let byte_length = match cursor.read_u32() { Ok(v) => v, Err(e) => { return Err(BomaUtf16Error::Io(e)); } };
        match cursor.skip(8) { Ok(_) => {}, Err(e) => { return Err(BomaUtf16Error::Io(e)); } }
        let slice = match cursor.read_slice_exact(byte_length as usize) { Ok(s) => s, Err(e) => { return Err(BomaUtf16Error::Io(e)); } };
        proof {
            assert(slice@ =~= b.subrange(p + 20, p + 20 + byte_length));
        }
        match Utf16Str::new(slice, Endianness::little()) {
            Ok(s) => Ok(BomaUtf16(s, variant)),
            Err(e) => Err(BomaUtf16Error::InvalidUtf16(e, slice)),
        }
    }
}

/// A UTF-8 text boma, mostly holding a property list.
#[derive(Debug, Clone, Copy)]
pub struct BomaUtf8<'a>(pub &'a str, pub BomaUtf8Variant);

/// The unknown bytes before the text of a UTF-8 text boma of `variant`.
pub open spec fn utf8_skip(variant: BomaUtf8Variant) -> int {
    if variant == BomaUtf8Variant::TrackLocalFilePathUrl { 20 } else { 4 }
}

/// Whether the contents of a UTF-8 text boma of `length` bytes, from `p` of `b`, hold their
/// unknown bytes and then, up to the boma's end and within `b`, valid UTF-8.
pub open spec fn utf8_text_fits(b: Seq<u8>, p: int, length: int, variant: BomaUtf8Variant) -> bool {
    let skip = utf8_skip(variant);
    let n = length - 16 - skip;
    &&& n >= 0
    &&& p + skip + n <= b.len()
    &&& vstd::utf8::valid_utf8(b.subrange(p + skip, p + skip + n))
}

impl<'a> BomaUtf8<'a> {
    /// Reads the text of a boma of `length` bytes whose 16-byte header has been read: four
    /// unknown bytes (twenty for a local file URL), then the text up to the boma's end.
    pub fn read_variant_content(cursor: &mut ChunkCursor<'a>, length: u32, variant: BomaUtf8Variant) -> (r: Result<Self, BomaReadError>)
        requires
            old(cursor).wf(),
        ensures
            final(cursor).wf(),
            final(cursor).bytes() == old(cursor).bytes(),
            final(cursor).app_version() == old(cursor).app_version(),
            r matches Ok(t) ==> t.1 == variant && {
                let skip: int = if variant == BomaUtf8Variant::TrackLocalFilePathUrl { 20 } else { 4 };
                let text_len: int = if variant == BomaUtf8Variant::TrackLocalFilePathUrl { length - 36 } else { length - 20 };
                crate::text::bytes_of(t.0) == old(cursor).bytes().subrange(old(cursor).pos() + skip, old(cursor).pos() + skip + text_len)
            },
            r is Ok <==> utf8_text_fits(old(cursor).bytes(), old(cursor).pos(), length as int, variant),
            r is Ok ==> final(cursor).pos() == old(cursor).pos() + length - 16,
    {
        let ghost b = cursor.bytes();
        let ghost p = cursor.pos();
        let mut length = length;
        io(cursor.skip(4))?;
        if variant == BomaUtf8Variant::TrackLocalFilePathUrl {
            io(cursor.skip(16))?;
            if length < 16 {
                return Err(BomaReadError::LengthTooShort(length));
            }
            length = length - 16;
        }
        if length < 20 {
            return Err(BomaReadError::LengthTooShort(length));
        }
        let slice = io(cursor.read_slice_exact((length - 20) as usize))?;
        proof {
            assert(slice@ =~= b.subrange(p + utf8_skip(variant), p + utf8_skip(variant) + slice@.len()));
        }
        match crate::text::utf8_str(slice) {
            Some(s) => Ok(BomaUtf8(s, variant)),
            None => Err(BomaReadError::InvalidUtf8),
        }
    }
}

/// One value in a book: bytes, or text where they are UTF-8 without two NULs in a row.
#[derive(Debug, Clone, Copy)]
pub enum BookValue<'a> {
    Binary(&'a [u8]),
    String(&'a str),
}

/// Whether `b` holds two NUL bytes in a row.
pub open spec fn has_double_nul(b: Seq<u8>) -> bool {
    exists|i: int| 0 <= i && i + 1 < b.len() && b[i] == 0 && #[trigger] b[i + 1] == 0
}

/// Whether `b` holds two NUL bytes in a row.
fn find_double_nul(b: &[u8]) -> (r: bool)
    ensures
        r == has_double_nul(b@),
{
    if b.len() < 2 {
        return false;
    }
    let mut i: usize = 0;
    while i < b.len() - 1
        invariant
            b@.len() >= 2,
            forall|j: int| 0 <= j < i && j + 1 < b@.len() ==> !(b@[j] == 0 && #[trigger] b@[j + 1] == 0),
        decreases b@.len() - i,
    {
        if b[i] == 0 && b[i + 1] == 0 {
            return true;
        }
        i = i + 1;
    }
    proof {
        assert forall|j: int| 0 <= j && j + 1 < b@.len() implies !(b@[j] == 0 && #[trigger] b@[j + 1] == 0) by {
            assert(j < i);
        }
    }
    false
}

/// The value a book holds for the bytes `b`.
pub open spec fn book_value_is(v: BookValue, b: Seq<u8>) -> bool {
    if !has_double_nul(b) && vstd::utf8::valid_utf8(b) {
        v matches BookValue::String(s) && crate::text::bytes_of(s) == b
    } else {
        v matches BookValue::Binary(x) && x@ == b
    }
}

/// The book value of some bytes.
pub fn book_value<'a>(slice: &'a [u8]) -> (r: BookValue<'a>)
    ensures
        book_value_is(r, slice@),
{
    if find_double_nul(slice) {
        BookValue::Binary(slice)
    } else {
        match crate::text::utf8_str(slice) {
            Some(s) => BookValue::String(s),
            None => BookValue::Binary(slice),
        }
    }
}

/// A boma holding a list of path parts and other values.
#[derive(Debug)]
pub struct BomaBook<'a>(pub Vec<BookValue<'a>>, pub BookVariant);

/// The version from which bombas of other book variants are not books.
pub open spec fn books_change_at() -> AppleMusicVersion {
    AppleMusicVersion { major: 1, minor: 5, patch: 0, revision: 0 }
}

/// The padding after a book value of `n` bytes, up to a multiple of four.
pub open spec fn book_padding(n: int) -> int {
    (4 - n % 4) % 4
}

/// Where the value after the book value at `q` of `b` starts: after its length, an unknown
/// word, its bytes and, where they fit, its padding. `None` where the value does not fit.
pub open spec fn book_next(b: Seq<u8>, q: int) -> Option<int> {
    let n = le_bytes(b, q, 4) as int;
    if q + 8 > b.len() || q + 8 + n > b.len() {
        None
    } else if q + 8 + n + book_padding(n) <= b.len() {
        Some(q + 8 + n + book_padding(n))
    } else {
        Some(q + 8 + n)
    }
}

/// The bytes of the book values from `q` of `b` on, up to `dest`: `None` where the values do
/// not end exactly there.
pub open spec fn book_slices(b: Seq<u8>, q: int, dest: int) -> Option<Seq<Seq<u8>>>
    decreases b.len() - q,
{
    if q == dest {
        Some(Seq::empty())
    } else {
        match book_next(b, q) {
            None => None,
            Some(next) => if next <= q {
                None
            } else {
                match book_slices(b, next, dest) {
                    Some(more) => Some(seq![b.subrange(q + 8, q + 8 + le_bytes(b, q, 4))] + more),
                    None => None,
                }
            },
        }
    }
}

/// Whether the contents of a book boma of `length` bytes and `variant`, from `p` of `b`, can
/// be read for a library of `version`: skipped to the boma's end where later versions do
/// not keep such books, else the `book` signature, the fixed part, and values that end
/// exactly at the boma's end.
pub open spec fn book_fits(b: Seq<u8>, p: int, length: int, variant: BookVariant, version: AppleMusicVersion) -> bool {
    if !version_lt(version, books_change_at()) && variant != BookVariant::Variant0 {
        0 <= p + length - 16 <= b.len()
    } else {
        &&& p + 8 <= b.len()
        &&& b.subrange(p + 4, p + 8) == seq![98u8, 111, 111, 107]
        &&& 24 <= p + 8 + length
        &&& p + length - 16 <= b.len()
        &&& p + 56 <= b.len()
        &&& book_slices(b, p + 56, p + length - 16) is Some
    }
}

impl<'a> BomaBook<'a> {
    /// Reads a book boma of `length` bytes whose 16-byte header has been read. From version
    /// 1.5 on, a boma of another variant than the first is not a book, and is skipped.
    pub fn read_variant_content(cursor: &mut ChunkCursor<'a>, length: u32, variant: BookVariant, version: AppleMusicVersion) -> (r: Result<Self, BomaReadError>)
        requires
            old(cursor).wf(),
        ensures
            final(cursor).wf(),
            final(cursor).bytes() == old(cursor).bytes(),
            final(cursor).app_version() == old(cursor).app_version(),
            r matches Ok(book) ==> book.1 == variant,
            !version_lt(version, books_change_at()) && variant != BookVariant::Variant0 ==> (r matches Ok(book) ==> book.0@.len() == 0),
            r is Ok <==> book_fits(old(cursor).bytes(), old(cursor).pos(), length as int, variant, version),
            r is Ok ==> final(cursor).pos() == old(cursor).pos() + length - 16,
            r matches Ok(book) ==> ((version_lt(version, books_change_at()) || variant == BookVariant::Variant0)
                ==> (book_slices(old(cursor).bytes(), old(cursor).pos() + 56, old(cursor).pos() + length - 16) matches Some(sl)
                && book.0@.len() == sl.len() && forall|i: int| 0 <= i < sl.len() ==> book_value_is(#[trigger] book.0@[i], sl[i]))),
    {
        let ghost b = cursor.bytes();
        let ghost p = cursor.pos();
        let change = AppleMusicVersion { major: 1, minor: 5, patch: 0, revision: 0 };
        if !version.lt(&change) && variant != BookVariant::Variant0 {
            io(cursor.advance(length as i64 - 16))?;
            return Ok(BomaBook(Vec::new(), variant));
        }
        io(cursor.skip(4))?;
        proof {
            if p + 8 <= b.len() {
                assert(b.subrange(p + 4, b.len() as int).take(4) =~= b.subrange(p + 4, p + 8));
            }
        }
        let sig = io(cursor.read_signature())?;
        if !sig.is([98u8, 111, 111, 107]) {
            return Err(BomaReadError::BadSignature { expected: [98u8, 111, 111, 107], found: sig.0 });
        }
        let mut values: Vec<BookValue<'a>> = Vec::new();
        let here = cursor.position();
        if (here as u128) + (length as u128) < 24 || (here as u128) + (length as u128) - 24 > cursor.len() as u128 {
            return Err(BomaReadError::LengthTooShort(length));
        }
        let destination = ((here as u128) + (length as u128) - 24) as usize;
        io(cursor.skip(48))?;
        let ghost mut done: Seq<Seq<u8>> = Seq::empty();
        while cursor.position() != destination
            invariant
                cursor.wf(),
                cursor.bytes() == b,
                b == old(cursor).bytes(),
                p == old(cursor).pos(),
                cursor.app_version() == old(cursor).app_version(),
                destination == p + length - 16,
                book_fits(b, p, length as int, variant, version) <==> book_slices(b, p + 56, p + length - 16) is Some,
                version_lt(version, books_change_at()) || variant == BookVariant::Variant0,
                book_slices(b, p + 56, p + length - 16) == (match book_slices(b, cursor.pos(), p + length - 16) {
                    Some(more) => Some(done + more),
                    None => None::<Seq<Seq<u8>>>,
                }),
                values@.len() == done.len(),
                forall|i: int| 0 <= i < done.len() ==> book_value_is(#[trigger] values@[i], done[i]),
            decreases cursor.bytes().len() - cursor.pos(),
        {
            let before = cursor.position();
            let value_length = io(cursor.read_u32())?;
            let _indicator = io(cursor.read_u32())?;
            let slice = io(cursor.read_slice_exact(value_length as usize))?;
            let padding = (4 - (value_length % 4)) % 4;
            let _ = cursor.skip(padding as usize);
            proof {
                assert(value_length == le_bytes(b, before as int, 4));
                assert(slice@ =~= b.subrange(before + 8, before + 8 + value_length));
                assert(padding == book_padding(value_length as int));
                assert(book_next(b, before as int) == Some(cursor.pos()));
                let more = book_slices(b, cursor.pos(), p + length - 16);
                if let Some(m) = more {
                    assert(seq![slice@] + m =~= seq![slice@] + m);
                    assert(done + (seq![slice@] + m) =~= done.push(slice@) + m);
                }
            }
            values.push(book_value(slice));
            proof {
                done = done.push(slice@);
            }
            assert(cursor.pos() > before);
        }
        proof {
            assert(done + Seq::<Seq<u8>>::empty() =~= done);
        }
        Ok(BomaBook(values, variant))
    }
}

/// The subtype that the file stores as `code`, where one does.
pub open spec fn subtype_of(code: u32) -> Option<BomaSubtype> {
    if exists|s: BomaSubtype| #[trigger] s.code() == code {
        Some(choose|s: BomaSubtype| #[trigger] s.code() == code)
    } else {
        None
    }
}

/// The length a boma at `p0` of `b` gives itself.
pub open spec fn boma_length(b: Seq<u8>, p0: int) -> int {
    le_bytes(b, p0 + 8, 4) as int
}

/// Whether a boma at `p0` of `b` can be read, in a library of `version` where that is known:
/// the `boma` signature, its length and subtype, then the contents its subtype calls for.
pub open spec fn boma_fits(b: Seq<u8>, p0: int, version: Option<AppleMusicVersion>) -> bool {
    let length = boma_length(b, p0);
    let p = p0 + 16;
    &&& p0 + 16 <= b.len()
    &&& b.subrange(p0, p0 + 4) == seq![98u8, 111, 109, 97]
    &&& match subtype_of(le_bytes(b, p0 + 12, 4) as u32) {
        Some(BomaSubtype::TrackNumerics) => p0 + 320 <= b.len() && p0 + length <= b.len(),
        Some(BomaSubtype::CollectionItemMember) => member_fits(b, p),
        Some(BomaSubtype::Utf16(_)) => utf16_text_fits(b, p),
        Some(BomaSubtype::Utf8Xml(v)) => utf8_text_fits(b, p, length, v),
        Some(BomaSubtype::Book(v)) => version matches Some(ver) && book_fits(b, p, length, v, ver),
        None => 16 <= length && p0 + length <= b.len(),
    }
}

/// Where a boma at `p0` of `b` ends: after its inner chunk for a member, after its text for
/// UTF-16 text, else at its length.
pub open spec fn boma_end(b: Seq<u8>, p0: int) -> int {
    let p = p0 + 16;
    match subtype_of(le_bytes(b, p0 + 12, 4) as u32) {
        Some(BomaSubtype::CollectionItemMember) => p + 4 + le_bytes(b, p + 8, 4),
        Some(BomaSubtype::Utf16(_)) => p + 20 + le_bytes(b, p + 8, 4),
        _ => p0 + boma_length(b, p0),
    }
}

/// Whether `bm` is what the boma at `q` of `b` holds: its subtype, and for text, numerics
/// and members, its contents.
pub open spec fn boma_read_at<'a>(b: Seq<u8>, q: int, bm: Boma<'a>) -> bool {
    &&& bm.subtype() == subtype_of(le_bytes(b, q + 12, 4) as u32)
    &&& match bm {
        Boma::Utf16(t) => t.0.order() == Endianness::Little
            && t.0.raw_bytes() == b.subrange(q + 36, q + 36 + le_bytes(b, q + 24, 4)),
        Boma::Utf8Xml(t) => crate::text::bytes_of(t.0) == b.subrange(q + 16 + utf8_skip(t.1), q + boma_length(b, q)),
        Boma::TrackNumerics(n) => n == numerics_at(b, q),
        Boma::CollectionMember(m) => m.track_persistent_id == le_bytes(b, q + 40, 8),
        _ => true,
    }
}

/// A boma: a record that a chunk carries after its fixed fields.
#[derive(Debug)]
pub enum Boma<'a> {
    TrackNumerics(TrackNumerics),
    CollectionMember(CollectionMember),
    Utf16(BomaUtf16<'a>),
    Utf8Xml(BomaUtf8<'a>),
    Book(BomaBook<'a>),
    Unknown(UnknownBoma),
}

impl<'a> Boma<'a> {
    /// The boma's subtype, or the unknown number.
    pub fn get_subtype(&self) -> (r: Result<BomaSubtype, UnknownBomaError>)
        ensures
            match self {
                Boma::TrackNumerics(_) => r == Ok::<BomaSubtype, UnknownBomaError>(BomaSubtype::TrackNumerics),
                Boma::CollectionMember(_) => r == Ok::<BomaSubtype, UnknownBomaError>(BomaSubtype::CollectionItemMember),
                Boma::Utf16(t) => r == Ok::<BomaSubtype, UnknownBomaError>(BomaSubtype::Utf16(t.1)),
                Boma::Utf8Xml(t) => r == Ok::<BomaSubtype, UnknownBomaError>(BomaSubtype::Utf8Xml(t.1)),
                Boma::Book(b) => r == Ok::<BomaSubtype, UnknownBomaError>(BomaSubtype::Book(b.1)),
                Boma::Unknown(u) => r == Err::<BomaSubtype, UnknownBomaError>(UnknownBomaError(u.subtype)),
            },
    {
        match self {
            Boma::TrackNumerics(_) => Ok(BomaSubtype::TrackNumerics),
            Boma::CollectionMember(_) => Ok(BomaSubtype::CollectionItemMember),
            Boma::Utf16(t) => Ok(BomaSubtype::Utf16(t.1)),
            Boma::Utf8Xml(t) => Ok(BomaSubtype::Utf8Xml(t.1)),
            Boma::Book(b) => Ok(BomaSubtype::Book(b.1)),
            Boma::Unknown(u) => Err(UnknownBomaError(u.subtype)),
        }
    }

    /// Reads the boma at the cursor: the signature `boma`, four unknown bytes, the length and
    /// the subtype, then the contents the subtype calls for. A UTF-16 text that is not well
    /// formed is an error.
    pub fn read(cursor: &mut ChunkCursor<'a>) -> (r: Result<Self, BomaReadError>)
        requires
            old(cursor).wf(),
        ensures
            final(cursor).wf(),
            final(cursor).bytes() == old(cursor).bytes(),
            final(cursor).app_version() == old(cursor).app_version(),
            r is Ok <==> boma_fits(old(cursor).bytes(), old(cursor).pos(), old(cursor).app_version()),
            r is Ok ==> final(cursor).pos() == boma_end(old(cursor).bytes(), old(cursor).pos()),
            r matches Ok(boma) ==> boma.subtype() == subtype_of(le_bytes(old(cursor).bytes(), old(cursor).pos() + 12, 4) as u32),
            r matches Ok(boma) ==> boma_read_at(old(cursor).bytes(), old(cursor).pos(), boma),
            r is Ok ==> old(cursor).rest().take(4) == seq![98u8, 111, 109, 97],
            r matches Ok(boma) ==> (match boma.subtype_code() {
                Some(c) => c == le_bytes(old(cursor).bytes(), old(cursor).pos() + 12, 4),
                None => true,
            }),
    {
        let ghost b = cursor.bytes();
        let offset = cursor.position();
        proof {
            if offset + 4 <= b.len() {
                assert(b.subrange(offset as int, b.len() as int).take(4) =~= b.subrange(offset as int, offset + 4));
            }
        }
        let sig = io(cursor.read_signature())?;
        if !sig.is([98u8, 111, 109, 97]) {
            return Err(BomaReadError::BadSignature { expected: [98u8, 111, 109, 97], found: sig.0 });
        }
        io(cursor.skip(4))?;
        let length = io(cursor.read_u32())?;
        let subtype = io(cursor.read_u32())?;
        let kind = BomaSubtype::try_from(subtype);
        proof {
            match kind {
                Ok(k) => {
                    assert forall|s: BomaSubtype| #[trigger] s.code() == subtype implies s == k by {
                        law_subtype_code_roundtrip(s, k);
                    }
                    assert(subtype_of(subtype) == Some(k));
                },
                Err(_) => {
                    assert(subtype_of(subtype) is None);
                },
            }
        }
        match kind {
            Ok(BomaSubtype::TrackNumerics) => Ok(Boma::TrackNumerics(TrackNumerics::read_content(cursor, offset, length)?)),
            Ok(BomaSubtype::CollectionItemMember) => Ok(Boma::CollectionMember(CollectionMember::read_content(cursor)?)),
            Ok(BomaSubtype::Utf16(variant)) => match BomaUtf16::read_variant_content(cursor, variant) {
                Ok(t) => Ok(Boma::Utf16(t)),
                Err(BomaUtf16Error::Io(e)) => Err(BomaReadError::Io(e)),
                Err(BomaUtf16Error::InvalidUtf16(e, _)) => Err(BomaReadError::InvalidUtf16(e)),
            },
            Ok(BomaSubtype::Utf8Xml(variant)) => Ok(Boma::Utf8Xml(BomaUtf8::read_variant_content(cursor, length, variant)?)),
            Ok(BomaSubtype::Book(variant)) => match cursor.version() {
                Some(v) => Ok(Boma::Book(BomaBook::read_variant_content(cursor, length, variant, v)?)),
                None => Err(BomaReadError::UnknownVersion),
            },
            Err(UnknownBomaError(s)) => Ok(Boma::Unknown(UnknownBoma::read_variant_content(cursor, length, s)?)),
        }
    }

    /// The subtype of the boma, `None` for one of unknown subtype.
    pub open spec fn subtype(self) -> Option<BomaSubtype> {
        match self {
            Boma::TrackNumerics(_) => Some(BomaSubtype::TrackNumerics),
            Boma::CollectionMember(_) => Some(BomaSubtype::CollectionItemMember),
            Boma::Utf16(t) => Some(BomaSubtype::Utf16(t.1)),
            Boma::Utf8Xml(t) => Some(BomaSubtype::Utf8Xml(t.1)),
            Boma::Book(b) => Some(BomaSubtype::Book(b.1)),
            Boma::Unknown(_) => None,
        }
    }

    /// The subtype number the boma was read with.
    pub open spec fn subtype_code(self) -> Option<u32> {
        match self {
            Boma::TrackNumerics(_) => Some(TRACK_NUMERICS_SUBTYPE),
            Boma::CollectionMember(_) => Some(COLLECTION_MEMBER_SUBTYPE),
            Boma::Utf16(t) => Some(t.1.code()),
            Boma::Utf8Xml(t) => Some(t.1.code()),
            Boma::Book(b) => Some(b.1.code()),
            Boma::Unknown(u) => Some(u.subtype),
        }
    }
}

} // verus!
