use am_osx_status::musicdb::id::{cloud_catalog, cloud_library, persistent, ArtistKind};
use am_osx_status::musicdb::chunks::Account;
use am_osx_status::musicdb::MusicDbView;
use std::collections::HashMap;
use am_osx_status::musicdb::cli::Destination;
use am_osx_status::musicdb::MusicDB;
use aes::cipher::{BlockEncryptMut, KeyInit};
use std::io::Write;
use am_osx_status::musicdb::boma::{Boma, BomaSubtype, BomaUtf16Variant, BomaUtf8Variant, BookVariant, convert_timestamp};
use am_osx_status::musicdb::chunk::{ChunkCursor, CursorError, LengthEnforcement, Signature, enforce_length};
use am_osx_status::musicdb::chunks::{Album, CollectionInfo, CollectionReadError, SectionBoundary, Track, TrackReadError};
use am_osx_status::plist::PRELUDE;
use am_osx_status::musicdb::cli::{parse_ambiguous_id, parse_ambiguous_ids, AmbiguousIdError};
use am_osx_status::musicdb::id::{CloudCatalogId, CloudLibraryId, PersistentId, PossessorIdentity, TrackKind};
use am_osx_status::musicdb::packed::{joined, key, unpack_bytes, PackedFileInfo, UnpackError};
use am_osx_status::musicdb::version::{AppleMusicVersion, VersionParseError};
use am_osx_status::num::IntErrorKind;
use am_osx_status::unaligned_u16::endian::Endianness;
use am_osx_status::unaligned_u16::utf16::{encode_literal, Utf16Str};

fn le32(v: u32) -> [u8; 4] {
    v.to_le_bytes()
}

/// A UTF-16 text boma of the given subtype.
fn utf16_boma(subtype: u32, text: &str) -> Vec<u8> {
    let encoded = encode_literal(text, Endianness::Little);
    let mut out = Vec::new();
    out.extend_from_slice(b"boma");
    out.extend_from_slice(&[0; 4]);
    out.extend_from_slice(&le32(36 + encoded.len() as u32));
    out.extend_from_slice(&le32(subtype));
    out.extend_from_slice(&[0; 8]);
    out.extend_from_slice(&le32(encoded.len() as u32));
    out.extend_from_slice(&[0; 8]);
    out.extend_from_slice(&encoded);
    out
}

/// A numerics boma with the given duration.
fn numerics_boma(duration_ms: u32) -> Vec<u8> {
    let mut out = vec![0u8; 320];
    out[0..4].copy_from_slice(b"boma");
    out[8..12].copy_from_slice(&le32(320));
    out[12..16].copy_from_slice(&le32(1));
    out[108..112].copy_from_slice(&le32(256));
    out[112..116].copy_from_slice(&le32(2082819600 + 10));
    out[176..180].copy_from_slice(&le32(duration_ms));
    out[316..320].copy_from_slice(&le32(4096));
    out
}

#[test]
fn eq() {
    let jor = encode_literal("jor", Endianness::Little);
    assert!(Utf16Str::new(&jor, Endianness::Little).unwrap().eq_str("jor"));
    let family = "👨‍👩‍👧‍👦";
    let bytes = encode_literal(family, Endianness::Little);
    assert!(Utf16Str::new(&bytes, Endianness::Little).unwrap().eq_str(family));
    let upside = encode_literal("🙃", Endianness::Little);
    assert!(Utf16Str::new(&upside, Endianness::Little).unwrap().eq_str("🙃"));
}

#[test]
fn cursor_reads_little_endian() {
    let data = [1u8, 2, 3, 4, 5, 6, 7, 8, 9];
    let mut cursor = ChunkCursor::new(&data);
    assert_eq!(cursor.read_u8(), Ok(1));
    assert_eq!(cursor.read_u16(), Ok(0x0302));
    assert_eq!(cursor.read_u32(), Ok(0x07060504));
    assert_eq!(cursor.position(), 7);
    assert_eq!(cursor.read_u32(), Err(CursorError::UnexpectedEof { position: 7, available: 2, wanted: 4 }));
    assert_eq!(cursor.position(), 9);
    assert_eq!(cursor.set_position(10), Err(CursorError::SeekPastEnd));
    assert_eq!(cursor.set_position(1), Ok(1));
    assert_eq!(cursor.advance(-2), Err(CursorError::SeekPastEnd));
    assert_eq!(cursor.backtrack(1), Ok(0));
    assert_eq!(cursor.read_u64(), Ok(0x0807060504030201));
    assert_eq!(cursor.peek_slice(5), &[9]);
    assert_eq!(cursor.read_slice(5), &[9]);
    assert_eq!(cursor.position(), 9);
}

#[test]
fn cursor_cstr_and_signatures() {
    let data = *b"hsmaab\0cdef";
    let mut cursor = ChunkCursor::new(&data);
    let signature = cursor.read_signature().unwrap();
    assert_eq!(signature.bytes(), b"hsma");
    assert!(signature.is(*b"hsma"));
    assert_eq!(signature.into_lossy_str(), "hsma");
    assert_eq!(cursor.read_cstr_exact_with_max_length(4), Ok(&b"ab"[..]));
    assert_eq!(cursor.position(), 8);
    assert_eq!(cursor.read_cstr_exact_with_max_length(3), Err(CursorError::MissingTerminator));
    assert_eq!(cursor.read_cstr_exact_with_max_length(0), Err(CursorError::NoRoomForTerminator));
    assert_eq!(Signature::empty_buffer(), [0; 4]);
    assert!(Signature::new(*b"itma").same(&Signature(*b"itma")));
}

#[test]
fn length_enforcement() {
    let sig = Signature(*b"test");
    assert!(enforce_length(LengthEnforcement::ToDefinedLength, sig, 10, 5, None, 15).is_ok());
    assert!(enforce_length(LengthEnforcement::ToDefinedLength, sig, 10, 5, None, 16).is_err());
    assert!(enforce_length(LengthEnforcement::AtLeastDefinedLength, sig, 10, 5, None, 16).is_ok());
    assert!(enforce_length(LengthEnforcement::AtLeastDefinedLength, sig, 10, 5, None, 14).is_err());
    assert!(enforce_length(LengthEnforcement::ToDefinedLengthPlusAppendagesByteLength, sig, 10, 5, Some(20), 30).is_ok());
    assert!(enforce_length(LengthEnforcement::Unenforced, sig, 10, 5, None, 0).is_ok());
}

#[test]
fn section_boundary() {
    let mut data = Vec::new();
    data.extend_from_slice(b"hsma");
    data.extend_from_slice(&le32(16));
    data.extend_from_slice(&le32(7));
    data.extend_from_slice(&[0; 4]);
    data.extend_from_slice(b"tail");
    let mut cursor = ChunkCursor::new(&data);
    let boundary = SectionBoundary::read(&mut cursor).unwrap();
    assert_eq!(boundary.subtype, 7);
    assert_eq!(cursor.position(), 16);
    let mut wrong = ChunkCursor::new(&data[16..]);
    assert!(SectionBoundary::read(&mut wrong).is_err());
}

#[test]
fn boma_subtypes() {
    assert_eq!(BomaSubtype::try_from(1), Ok(BomaSubtype::TrackNumerics));
    assert_eq!(BomaSubtype::try_from(206), Ok(BomaSubtype::CollectionItemMember));
    assert_eq!(BomaSubtype::try_from(2), Ok(BomaSubtype::Utf16(BomaUtf16Variant::TrackTitle)));
    assert_eq!(BomaSubtype::try_from(0x42), Ok(BomaSubtype::Book(BookVariant::Variant0)));
    assert_eq!(BomaSubtype::try_from(0x36), Ok(BomaSubtype::Utf8Xml(BomaUtf8Variant::PlistTrackCloudInformation)));
    assert!(BomaSubtype::try_from(9999).is_err());
    assert_eq!(BomaSubtype::Utf16(BomaUtf16Variant::AccountAvatarUrl).get_raw(), 804);
    assert_eq!(BomaUtf16Variant::from_repr(0x2E), Some(BomaUtf16Variant::CopyrightHolder));
    assert_eq!(convert_timestamp(0), None);
    assert_eq!(convert_timestamp(2082819600 + 5), Some(5));
}

#[test]
fn boma_reads_text_and_numerics() {
    let text = utf16_boma(2, "Song");
    let mut cursor = ChunkCursor::new(&text);
    match Boma::read(&mut cursor).unwrap() {
        Boma::Utf16(t) => {
            assert_eq!(t.1, BomaUtf16Variant::TrackTitle);
            assert!(t.0.eq_str("Song"));
        }
        _ => panic!("not a text boma"),
    }
    assert_eq!(cursor.position(), text.len());

    let numbers = numerics_boma(1234);
    let mut cursor = ChunkCursor::new(&numbers);
    match Boma::read(&mut cursor).unwrap() {
        Boma::TrackNumerics(n) => {
            assert_eq!(n.duration_ms, 1234);
            assert_eq!(n.bytes, 4096);
            assert_eq!(n.bitrate.map(|b| b.into_inner()), Some(256));
            assert_eq!(n.date_added, Some(10));
            assert_eq!(n.date_modified, None);
        }
        _ => panic!("not numerics"),
    }
    assert_eq!(cursor.position(), 320);
}

/// A chunk of an entity with the given signature, fixed part and bomas.
fn entity_chunk(signature: &[u8; 4], fixed: &[u8], bomas: &[Vec<u8>]) -> Vec<u8> {
    let mut out = Vec::new();
    let length = 16 + fixed.len() as u32;
    let total: u32 = length + bomas.iter().map(|b| b.len() as u32).sum::<u32>();
    out.extend_from_slice(signature);
    out.extend_from_slice(&le32(length));
    out.extend_from_slice(&le32(total));
    out.extend_from_slice(&le32(bomas.len() as u32));
    out.extend_from_slice(fixed);
    for boma in bomas {
        out.extend_from_slice(boma);
    }
    out
}

#[test]
fn album_chunk() {
    let fixed = 77u64.to_le_bytes();
    let data = entity_chunk(b"iama", &fixed, &[utf16_boma(300, "Album Name"), utf16_boma(301, "Album Artist")]);
    let mut cursor = ChunkCursor::new(&data);
    let album = Album::read(&mut cursor).unwrap();
    assert_eq!(album.persistent_id.get_raw(), 77);
    assert!(album.album_name.unwrap().eq_str("Album Name"));
    assert!(album.artist_name.unwrap().eq_str("Album Artist"));
    assert!(album.cloud_library_id.is_none());
    assert_eq!(cursor.position(), data.len());

    let bad = entity_chunk(b"iama", &fixed, &[utf16_boma(2, "Song")]);
    assert!(Album::read(&mut ChunkCursor::new(&bad)).is_err());
}

#[test]
fn track_chunk() {
    let mut fixed = vec![0u8; 180];
    fixed[0..8].copy_from_slice(&5u64.to_le_bytes());
    fixed[156..164].copy_from_slice(&6u64.to_le_bytes());
    fixed[164..172].copy_from_slice(&7u64.to_le_bytes());
    let data = entity_chunk(b"itma", &fixed, &[utf16_boma(2, "First"), numerics_boma(1000), utf16_boma(2, "Second"), utf16_boma(4, "Artist")]);
    let mut cursor = ChunkCursor::new(&data);
    let track = Track::read(&mut cursor).unwrap();
    assert_eq!(track.persistent_id.get_raw(), 5);
    assert_eq!(track.album_id.get_raw(), 6);
    assert_eq!(track.artist_id.get_raw(), 7);
    assert!(track.name.unwrap().eq_str("Second"));
    assert!(track.artist_name.unwrap().eq_str("Artist"));
    assert_eq!(track.numerics.duration_ms, 1000);
    assert!(track.genre.is_none());

    let without_numerics = entity_chunk(b"itma", &fixed, &[utf16_boma(2, "Only")]);
    match Track::read(&mut ChunkCursor::new(&without_numerics)) {
        Err(TrackReadError::LackingBoma(BomaSubtype::TrackNumerics)) => {}
        _ => panic!("numerics are required"),
    }
}

#[test]
fn ambiguous_ids() {
    assert_eq!(parse_ambiguous_id("0x1F"), Ok(31));
    assert_eq!(parse_ambiguous_id("0Xff"), Ok(255));
    assert_eq!(parse_ambiguous_id("0d42"), Ok(42));
    assert_eq!(parse_ambiguous_id("0D-1i"), Ok(u64::MAX));
    assert_eq!(parse_ambiguous_id("-2i"), Ok(u64::MAX - 1));
    assert_eq!(parse_ambiguous_id("abc"), Ok(0xabc));
    assert_eq!(parse_ambiguous_id("12345678901234567"), Ok(12345678901234567));
    assert_eq!(parse_ambiguous_id("123"), Err(AmbiguousIdError::UnknownBase));
    assert!(matches!(parse_ambiguous_id("0xzz"), Err(AmbiguousIdError::Parse(e)) if *e.kind() == IntErrorKind::InvalidDigit));
    assert_eq!(parse_ambiguous_ids(vec!["0x1, 0d2".to_string(), "ff".to_string()]), Ok(vec![1, 2, 255]));
    assert_eq!(parse_ambiguous_ids(vec!["7".to_string()]), Err(AmbiguousIdError::UnknownBase));
}

#[test]
fn versions() {
    assert_eq!(AppleMusicVersion::from_str("1.5.0.1"), Ok(AppleMusicVersion { major: 1, minor: 5, patch: 0, revision: 1 }));
    assert_eq!(AppleMusicVersion::from_str("1.2.3.4."), Ok(AppleMusicVersion { major: 1, minor: 2, patch: 3, revision: 4 }));
    assert_eq!(AppleMusicVersion::from_str("1.2"), Err(VersionParseError::NotEnoughComponents));
    assert_eq!(AppleMusicVersion::from_str("1.2.3.4.5"), Err(VersionParseError::TooManyComponents));
    assert!(matches!(AppleMusicVersion::from_str("1.x.3.4"), Err(VersionParseError::ParseFailure(_))));
    assert!(matches!(AppleMusicVersion::from_str("256.0.0.0"), Err(VersionParseError::ParseFailure(_))));
    let old = AppleMusicVersion { major: 1, minor: 4, patch: 9, revision: 9 };
    let new = AppleMusicVersion { major: 1, minor: 5, patch: 0, revision: 0 };
    assert!(old.lt(&new));
    assert!(!new.lt(&old));
    assert!(!new.lt(&new));
    assert_eq!(new.to_string(), "1.5.0.0");
}

#[test]
fn ids() {
    assert_eq!(PersistentId::<TrackKind>::from_hex("ff").unwrap().get_raw(), 255);
    assert!(PersistentId::<TrackKind>::from_hex("xyz").is_err());
    assert!(PersistentId::<TrackKind>::new(3).same(&PersistentId::new(3)));
    assert_eq!(PossessorIdentity::Account.into_namespace(), "sp");
    assert!(CloudLibraryId::<TrackKind>::new("i.abc").is_ok());
    assert!(CloudLibraryId::<TrackKind>::new("l.abc").is_err());
    assert!(CloudCatalogId::<TrackKind>::new(0).is_none());
    assert_eq!(CloudCatalogId::<TrackKind>::new(9).unwrap().get_raw(), 9);
}

#[test]
fn packed_file_round_trip() {
    let contents = b"the decoded library".repeat(10);
    let mut encoder = flate2::write::ZlibEncoder::new(Vec::new(), flate2::Compression::default());
    encoder.write_all(&contents).unwrap();
    let mut compressed = encoder.finish().unwrap();
    let whole = compressed.len() - compressed.len() % 16;
    let encrypted_len = whole.min(32);
    let k = key();
    ecb::Encryptor::<aes::Aes128>::new((&k).into())
        .encrypt_padded_mut::<aes::cipher::block_padding::NoPadding>(&mut compressed[..encrypted_len], encrypted_len)
        .unwrap();

    let mut header = vec![0u8; 104];
    header[0..4].copy_from_slice(b"hfma");
    header[4..8].copy_from_slice(&le32(104));
    header[8..12].copy_from_slice(&le32(104 + compressed.len() as u32));
    header[16..22].copy_from_slice(b"1.5.0\0");
    header[68..72].copy_from_slice(&le32(3));
    header[84..88].copy_from_slice(&le32(32));
    let mut file = header;
    file.extend_from_slice(&compressed);

    let (decoded, info): (Vec<u8>, PackedFileInfo) = unpack_bytes(&file).unwrap();
    assert_eq!(decoded, contents);
    assert_eq!(info.track_count, 3);
    assert_eq!(info.max_encrypted_byte_count, 32);
    assert_eq!(info.app_version, b"1.5.0");

    let mut broken = file.clone();
    broken[0] = b'x';
    assert!(matches!(unpack_bytes(&broken), Err(UnpackError::BadSignature { .. })));
    assert_eq!(joined(&[1, 2], &[3]), vec![1, 2, 3]);
}

fn album(id: u64) -> am_osx_status::musicdb::chunks::Album<'static> {
    am_osx_status::musicdb::chunks::Album {
        persistent_id: PersistentId::new(id),
        album_name: None,
        artist_name: None,
        artist_name_cloud: None,
        cloud_library_id: None,
    }
}

#[test]
fn views_keep_only_the_ids_asked_for() {

    let mut albums = HashMap::new();
    for id in [1u64, 2, 3] {
        albums.insert(id, album(id));
    }
    let mut view = MusicDbView {
        library: Vec::new(),
        albums,
        artists: HashMap::new(),
        accounts: Some(vec![
            Account { bomas: Vec::new(), persistent_id: PersistentId::new(2) },
            Account { bomas: Vec::new(), persistent_id: PersistentId::new(9) },
        ]),
        tracks: HashMap::new(),
        collections: Vec::new(),
    };
    view.retain_ids(&vec![2, 3, 3, 7]);
    let mut kept: Vec<u64> = view.albums.keys().copied().collect();
    kept.sort();
    assert_eq!(kept, vec![2, 3]);
    let accounts = view.accounts.as_ref().unwrap();
    assert_eq!(accounts.len(), 1);
    assert_eq!(accounts[0].persistent_id.get_raw(), 2);
    assert!(view.get_album(PersistentId::new(1)).is_none());
    assert!(view.get_album(PersistentId::new(2)).is_some());
    assert!(view.get_account(PersistentId::new(9)).is_none());
}

#[test]
fn destinations() {
    assert_eq!(Destination::from_argument("-"), Destination::Stdout);
    assert_eq!(Destination::from_argument("out.txt"), Destination::Path("out.txt".to_owned()));
    assert!(Destination::default().is_stdout());
    assert!(!Destination::from_argument("--").is_stdout());
}

#[test]
fn libraries_need_their_sections() {
    assert!(MusicDB::from_unpacked(&[]).is_err());
    assert!(MusicDB::from_unpacked(b"hsma").is_err());
}

#[test]
fn ids_under_their_kind_names() {
    let id = persistent::Id::<TrackKind>::from_hex("1A").unwrap();
    assert_eq!(id.get_raw(), 26);
    assert_eq!(persistent::Id::<TrackKind>::new(7).get_raw(), 7);
    assert!(cloud_library::Id::<TrackKind>::new("i.abc").is_ok());
    assert_eq!(cloud_catalog::Id::<ArtistKind>::new(5).unwrap().get_raw(), 5);
    assert!(cloud_catalog::Id::<ArtistKind>::new(0).is_none());
}

/// A UTF-8 text boma of the given subtype.
fn utf8_boma(subtype: u32, text: &str) -> Vec<u8> {
    let mut out = Vec::new();
    out.extend_from_slice(b"boma");
    out.extend_from_slice(&[0; 4]);
    out.extend_from_slice(&le32(20 + text.len() as u32));
    out.extend_from_slice(&le32(subtype));
    out.extend_from_slice(&[0; 4]);
    out.extend_from_slice(text.as_bytes());
    out
}

fn track_fixed() -> Vec<u8> {
    let mut fixed = vec![0u8; 180];
    fixed[0..8].copy_from_slice(&5u64.to_le_bytes());
    fixed[156..164].copy_from_slice(&6u64.to_le_bytes());
    fixed[164..172].copy_from_slice(&7u64.to_le_bytes());
    fixed
}

#[test]
fn track_cloud_property_lists() {
    let fixed = track_fixed();
    let info = format!("{PRELUDE}<plist version=\"1.0\"><dict><key>cloud-artwork-token</key><string>Music/xyz</string></dict></plist>");
    let download = format!("{PRELUDE}<plist>\n<dict>\n<key>cloud-universal-library-id</key>\n<string>i.ABC</string>\n</dict>\n</plist>\n");
    let data = entity_chunk(b"itma", &fixed, &[numerics_boma(1000), utf8_boma(54, &info), utf8_boma(56, &download)]);
    let track = Track::read(&mut ChunkCursor::new(&data)).unwrap();
    assert_eq!(track.cloud_id.unwrap().value, "i.ABC");
    assert_eq!(track.artwork.unwrap().asset_token.as_str(), "yz");

    let no_pool = format!("{PRELUDE}<plist><dict><key>cloud-artwork-token</key><string>Nope/x</string></dict></plist>");
    let data = entity_chunk(b"itma", &fixed, &[numerics_boma(1000), utf8_boma(54, &info), utf8_boma(54, &no_pool)]);
    let track = Track::read(&mut ChunkCursor::new(&data)).unwrap();
    assert!(track.artwork.is_none());
    assert!(track.cloud_id.is_none());

    let no_entry = format!("{PRELUDE}<plist><dict><key>other</key><string>x</string></dict></plist>");
    let data = entity_chunk(b"itma", &fixed, &[numerics_boma(1000), utf8_boma(56, &no_entry)]);
    assert!(Track::read(&mut ChunkCursor::new(&data)).unwrap().cloud_id.is_none());

    let not_a_dictionary = format!("{PRELUDE}<plist><true/></plist>");
    let data = entity_chunk(b"itma", &fixed, &[numerics_boma(1000), utf8_boma(54, &not_a_dictionary)]);
    assert!(matches!(Track::read(&mut ChunkCursor::new(&data)), Err(TrackReadError::UnexpectedPropertyListShape)));

    let data = entity_chunk(b"itma", &fixed, &[numerics_boma(1000), utf8_boma(56, PRELUDE)]);
    assert!(matches!(Track::read(&mut ChunkCursor::new(&data)), Err(TrackReadError::EmptyPropertyList)));
}

#[test]
fn collection_information() {
    let text = format!("{PRELUDE}<plist><dict><key>description</key><string>Road trip</string><key>ownerName</key><string>Ann</string><key>ownerID</key><string>42</string></dict></plist>");
    let info = CollectionInfo::try_from(&text).unwrap();
    assert_eq!(info.description.as_deref(), Some("Road trip"));
    assert_eq!(info.owner, Some((Some(42), String::from("Ann"))));

    let unnamed = format!("{PRELUDE}<plist><dict><key>ownerID</key><string>42</string></dict></plist>");
    let info = CollectionInfo::try_from(&unnamed).unwrap();
    assert!(info.owner.is_none());
    assert!(info.description.is_none());

    let no_id = format!("{PRELUDE}<plist><dict><key>ownerName</key><string>Ann</string></dict></plist>");
    assert_eq!(CollectionInfo::try_from(&no_id).unwrap().owner, Some((None, String::from("Ann"))));

    let bad = format!("{PRELUDE}<plist><dict><key>ownerName</key><string>Ann</string><key>ownerID</key><string>x</string></dict></plist>");
    assert!(matches!(CollectionInfo::try_from(&bad), Err(CollectionReadError::BadOwnerId(_))));
    assert!(matches!(CollectionInfo::try_from("<plist/>"), Err(CollectionReadError::Deserialization(_))));
}
