use am_osx_status::lastfm::auth::{
    AccountCredentials, AuthorizationToken, ClientIdentity, InvalidThirtyTwoCharacterAsciiStringError,
    InvalidThirtyTwoCharactersLowercaseHexAsciiStringError, SessionKey, ThirtyTwoCharacterAsciiString,
    ThirtyTwoCharactersLowercaseHexAsciiString, API_URL,
};
use am_osx_status::lastfm::error::{
    authorization_token_failure, AuthorizationTokenGenerationError, ErrorCode, GeneralErrorCode, ServiceAvailability,
    SessionKeyThroughAuthorizationTokenError, UnmappedErrorCode,
};
use am_osx_status::lastfm::parameters::ParameterMap;
use am_osx_status::lastfm::scrobble::raw::{
    MaybeCorrected as RawMaybeCorrected, MaybeMany, NowPlayingResponse, NowPlayingResponseInner, Response,
    ResponseAttributes, ScrobbleContainer, ScrobbleResponse, IgnoredMessage, numeric_bool,
};
use am_osx_status::lastfm::scrobble::{
    HeardTrackInfo, ScrobbleEnrichmentParameters, ScrobbleError, ScrobbleServerResponse,
    ServerUpdateNowPlayingResponse,
};
use am_osx_status::maybe_owned_string::MaybeOwnedString;

const KEY: &str = "d591a37a79ec4c3d4efe55379029b5b3";
const SECRET: &str = "20a069921b30039bd2601d955e3bce46";

fn identity() -> ClientIdentity {
    ClientIdentity::new("am-osx-status-lfm-test".to_owned(), KEY, SECRET).unwrap()
}

fn md5_hex(text: &str) -> String {
    format!("{:x}", md5::compute(text))
}

#[test]
fn hex_strings() {
    assert!(ThirtyTwoCharactersLowercaseHexAsciiString::new(KEY).is_ok());
    assert_eq!(
        ThirtyTwoCharactersLowercaseHexAsciiString::new("abc").unwrap_err(),
        InvalidThirtyTwoCharactersLowercaseHexAsciiStringError::InvalidLength(3)
    );
    assert_eq!(
        ThirtyTwoCharactersLowercaseHexAsciiString::new("D591A37A79EC4C3D4EFE55379029B5B3").unwrap_err(),
        InvalidThirtyTwoCharactersLowercaseHexAsciiStringError::BadCharacter(b'D')
    );
    assert_eq!(
        ThirtyTwoCharacterAsciiString::new("short").unwrap_err(),
        InvalidThirtyTwoCharacterAsciiStringError::InvalidLength(5)
    );
    assert_eq!(
        ThirtyTwoCharacterAsciiString::new("ééééééééééééééé").unwrap_err(),
        InvalidThirtyTwoCharacterAsciiStringError::InvalidLength(30)
    );
    assert_eq!(
        ThirtyTwoCharacterAsciiString::new("éééééééééééééééé").unwrap_err(),
        InvalidThirtyTwoCharacterAsciiStringError::NotAscii
    );
    let token = ThirtyTwoCharacterAsciiString::new("ABCDEFGHIJKLMNOPQRSTUVWXYZ012345").unwrap();
    assert_eq!(token.as_str(), "ABCDEFGHIJKLMNOPQRSTUVWXYZ012345");
}

#[test]
fn md5_digests() {
    let digest = ThirtyTwoCharactersLowercaseHexAsciiString::md5_of(b"hello");
    assert_eq!(digest.as_str(), "5d41402abc4b2a76b9719d911017c592");
    assert_eq!(digest.as_str(), md5_hex("hello"));
}

#[test]
fn identities() {
    let id = identity();
    assert_eq!(id.get_key(), KEY);
    assert_eq!(id.get_secret(), SECRET);
    assert_eq!(
        ClientIdentity::new(String::new(), "bad", SECRET).unwrap_err(),
        InvalidThirtyTwoCharactersLowercaseHexAsciiStringError::InvalidLength(3)
    );
    assert_eq!(
        ClientIdentity::new(String::new(), KEY, "0123456789abcdef0123456789abcdeX").unwrap_err(),
        InvalidThirtyTwoCharactersLowercaseHexAsciiStringError::BadCharacter(b'X')
    );
    assert_eq!(
        id.authorization_token_url(),
        format!("{API_URL}?method=auth.gettoken&api_key={KEY}&format=json")
    );
}

#[test]
fn session_signatures() {
    let id = identity();
    let token = AuthorizationToken::new("abcdefghijklmnopqrstuvwxyz012345").unwrap();
    assert_eq!(
        token.generate_authorization_url(&id),
        format!("https://www.last.fm/api/auth/?api_key={KEY}&token=abcdefghijklmnopqrstuvwxyz012345")
    );
    assert_eq!(
        token.session_signature(&id).as_str(),
        md5_hex(&format!("api_key{KEY}methodauth.getSessiontokenabcdefghijklmnopqrstuvwxyz012345{SECRET}"))
    );
    let credentials = AccountCredentials { username: "user", password: "hunter2" };
    assert_eq!(
        credentials.session_signature(&id).as_str(),
        md5_hex(&format!("api_key{KEY}methodauth.getMobileSessionpasswordhunter2usernameuser{SECRET}"))
    );
}

#[test]
fn parameters_are_signed_in_key_order() {
    let id = identity();
    let session = SessionKey(ThirtyTwoCharacterAsciiString::new("0123456789abcdef0123456789ABCDEF").unwrap());
    let mut map = ParameterMap::new();
    map.add("track".to_owned(), MaybeOwnedString::Borrowed("Song"));
    map.add("artist".to_owned(), MaybeOwnedString::Borrowed("Band"));
    map.add("album".to_owned(), MaybeOwnedString::Borrowed("Record"));
    let signature = map.sign(&session, &id);
    assert_eq!(signature.as_str(), md5_hex(&format!("albumRecordartistBandtrackSong{SECRET}")));

    // The same parameters added in another order sign the same.
    let mut other = ParameterMap::from_collection(vec![
        ("album".to_owned(), MaybeOwnedString::Borrowed("Record")),
        ("track".to_owned(), MaybeOwnedString::Borrowed("Wrong")),
        ("artist".to_owned(), MaybeOwnedString::Borrowed("Band")),
    ]);
    other.add("track".to_owned(), MaybeOwnedString::Borrowed("Song"));
    assert_eq!(other.sign(&session, &id).as_str(), signature.as_str());
    assert_eq!(other.pairs().len(), 3);
}

#[test]
fn later_entries_replace_earlier_ones() {
    let map = ParameterMap::from_collection(vec![
        ("a".to_owned(), MaybeOwnedString::Borrowed("1")),
        ("b".to_owned(), MaybeOwnedString::Borrowed("2")),
        ("a".to_owned(), MaybeOwnedString::Owned("3".to_owned())),
    ]);
    assert_eq!(map.pairs(), vec![("a".to_owned(), "3".to_owned()), ("b".to_owned(), "2".to_owned())]);
}

#[test]
fn track_and_session_parameters() {
    let id = identity();
    let track = HeardTrackInfo {
        artist: "Band",
        track: "Song",
        track_number: Some(3),
        album: Some("Record"),
        album_artist: None,
        mbid: None,
        duration_in_seconds: Some(215),
    };
    let map = ParameterMap::from_track(&track);
    let mut pairs = map.pairs();
    pairs.sort();
    assert_eq!(
        pairs,
        vec![
            ("album".to_owned(), "Record".to_owned()),
            ("artist".to_owned(), "Band".to_owned()),
            ("duration".to_owned(), "215".to_owned()),
            ("track".to_owned(), "Song".to_owned()),
        ]
    );
    let session = SessionKey(ThirtyTwoCharacterAsciiString::new("0123456789abcdef0123456789abcdef").unwrap());
    let full = map.for_request("track.updateNowPlaying", &id).for_session(&session, &id);
    let pairs = full.pairs();
    let get = |k: &str| pairs.iter().find(|(key, _)| key == k).map(|(_, v)| v.clone());
    assert_eq!(get("method").as_deref(), Some("track.updateNowPlaying"));
    assert_eq!(get("api_key").as_deref(), Some(KEY));
    assert_eq!(get("format").as_deref(), Some("json"));
    assert_eq!(get("sk").as_deref(), Some("0123456789abcdef0123456789abcdef"));
    let expected = md5_hex(&format!(
        "albumRecordapi_key{KEY}artistBandduration215formatjsonmethodtrack.updateNowPlayingsk0123456789abcdef0123456789abcdeftrackSong{SECRET}"
    ));
    assert_eq!(get("api_sig"), Some(expected));
}

#[test]
fn scrobble_parameters_are_indexed() {
    let first = HeardTrackInfo {
        artist: "A",
        track: "T",
        track_number: None,
        album: None,
        album_artist: Some("AA"),
        mbid: None,
        duration_in_seconds: None,
    };
    let second = HeardTrackInfo { artist: "B", track: "U", ..first };
    let scrobbles = vec![
        first.promote_to_scrobble(ScrobbleEnrichmentParameters { timestamp: 1_700_000_000, chosen_by_user: Some(true) }),
        second.promote_to_scrobble(ScrobbleEnrichmentParameters { timestamp: -1, chosen_by_user: None }),
    ];
    let mut pairs = ParameterMap::from_scrobbles(&scrobbles).pairs();
    pairs.sort();
    assert_eq!(
        pairs,
        vec![
            ("albumArtist[0]".to_owned(), "AA".to_owned()),
            ("albumArtist[1]".to_owned(), "AA".to_owned()),
            ("artist[0]".to_owned(), "A".to_owned()),
            ("artist[1]".to_owned(), "B".to_owned()),
            ("chosenByUser[0]".to_owned(), "1".to_owned()),
            ("timestamp[0]".to_owned(), "1700000000".to_owned()),
            ("timestamp[1]".to_owned(), "-1".to_owned()),
            ("track[0]".to_owned(), "T".to_owned()),
            ("track[1]".to_owned(), "U".to_owned()),
        ]
    );
}

#[test]
fn error_codes() {
    assert_eq!(GeneralErrorCode::try_from(29).unwrap(), GeneralErrorCode::RateLimitExceeded);
    assert_eq!(
        GeneralErrorCode::try_from(11).unwrap(),
        GeneralErrorCode::ServiceAvailability(ServiceAvailability::ServiceOffline)
    );
    assert_eq!(GeneralErrorCode::try_from(200).unwrap_err(), UnmappedErrorCode { code: 200 });
    assert_eq!(GeneralErrorCode::RateLimitExceeded.to_u8(), 29);
    for code in 0..=u8::MAX {
        if let Ok(e) = GeneralErrorCode::try_from(code) {
            assert_eq!(e.to_u8(), code);
        }
        if let Ok(e) = ScrobbleError::try_from(code) {
            assert!((1..=5).contains(&code));
            let _ = e;
        }
    }
    assert_eq!(
        AuthorizationTokenGenerationError::try_from(4).unwrap(),
        AuthorizationTokenGenerationError::InvalidUsernameOrPassword
    );
    assert_eq!(
        AuthorizationTokenGenerationError::try_from(16).unwrap(),
        AuthorizationTokenGenerationError::ServiceUnavailable(ServiceAvailability::TemporaryError)
    );
    assert_eq!(SessionKeyThroughAuthorizationTokenError::try_from(15).unwrap(), SessionKeyThroughAuthorizationTokenError::Expired);
    assert_eq!(SessionKeyThroughAuthorizationTokenError::Expired.into_number(), 15);
    assert!(<ServiceAvailability as ErrorCode>::from_number(9).is_err());
    assert_eq!(
        authorization_token_failure(8).unwrap(),
        GeneralErrorCode::ServiceAvailability(ServiceAvailability::TemporaryError)
    );
    assert_eq!(UnmappedErrorCode { code: 77 }.to_string(), "unmapped response error code: 77");
}

fn corrected(text: &str, corrected: bool) -> RawMaybeCorrected {
    RawMaybeCorrected { text: text.to_owned(), corrected }
}

fn answer(timestamp: &str, ignored: u8) -> ScrobbleResponse {
    ScrobbleResponse {
        artist: corrected("Band", false),
        track: corrected("Song", true),
        album: corrected("", false),
        album_artist: corrected("Other", false),
        timestamp: timestamp.to_owned(),
        ignored_message: IgnoredMessage::from_code(ignored).unwrap(),
    }
}

#[test]
fn scrobble_answers() {
    assert_eq!(numeric_bool("1"), Some(true));
    assert_eq!(numeric_bool("0"), Some(false));
    assert_eq!(numeric_bool("2"), None);
    assert!(IgnoredMessage::from_code(0).unwrap().code.is_none());
    assert!(IgnoredMessage::from_code(6).is_err());

    let response = Response {
        scrobbles: ScrobbleContainer {
            inner: MaybeMany::Many(vec![answer("1700000000", 0), answer("whenever", 3)]),
            counts: ResponseAttributes { ignored: 1, accepted: 1 },
        },
    };
    let read = ScrobbleServerResponse::new(response).unwrap();
    assert_eq!(read.counts.accepted, 1);
    assert_eq!(read.results.len(), 2);
    let ack = read.results[0].as_ref().unwrap();
    assert_eq!(ack.timestamp, 1_700_000_000);
    assert_eq!(ack.ack.artist.value, "Band");
    assert!(ack.ack.track.corrected);
    assert!(ack.ack.album.is_none());
    assert_eq!(ack.ack.album_artist.as_ref().unwrap().value, "Other");
    assert!(matches!(read.results[1], Err(ScrobbleError::TimestampTooOld)));

    let one = Response {
        scrobbles: ScrobbleContainer {
            inner: MaybeMany::One(answer("not a number", 0)),
            counts: ResponseAttributes { ignored: 0, accepted: 1 },
        },
    };
    assert!(ScrobbleServerResponse::new(one).is_err());
}

#[test]
fn now_playing_answers() {
    let response = NowPlayingResponse {
        inner: NowPlayingResponseInner {
            artist: corrected("Band", true),
            track: corrected("Song", false),
            album: corrected("Record", false),
            album_artist: corrected("", false),
            ignored_message: IgnoredMessage::from_code(0).unwrap(),
        },
    };
    let read = ServerUpdateNowPlayingResponse::new(response);
    assert!(read.result.artist.corrected);
    assert_eq!(read.result.album.as_ref().unwrap().value, "Record");
    assert!(read.result.album_artist.is_none());
}
