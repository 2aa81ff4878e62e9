use am_osx_status::brainz::cover_art_archive::Id as CoverArtId;
use am_osx_status::brainz::listenbrainz::{
    listened_at, AdditionalInfo, CurrentlyPlayingSubmissionError, ListenSubmissionError, MediaPlayer,
    MusicService, TokenValidity, UserToken, API_ROOT, LISTEN_MINIMUM_TIMESTAMP,
};
use am_osx_status::brainz::musicbrainz::{
    str_eq_ignore_ascii_case, ArtistKind, Gender, Id, ProgramInfo, Recording, RecordingKind, Track,
};
use am_osx_status::brainz::HyphenatedUuidString;
use am_osx_status::maybe_owned_string::MaybeOwnedString;

const UUID: &str = "c0b2500e-0cef-4130-869d-732b23ed9df5";

#[test]
fn uuid_strings() {
    let uuid = HyphenatedUuidString::new(UUID).unwrap();
    assert_eq!(uuid.as_str(), UUID);
    // Upper-case digits are hexadecimal too.
    assert!(HyphenatedUuidString::new("C0B2500E-0CEF-4130-869D-732B23ED9DF5").is_some());
    // Not 36 bytes, a hyphen out of place, a non-hexadecimal digit.
    assert!(HyphenatedUuidString::new("c0b2500e0cef4130869d732b23ed9df5").is_none());
    assert!(HyphenatedUuidString::new("c0b2500e-0cef4-130-869d-732b23ed9df5").is_none());
    assert!(HyphenatedUuidString::new("g0b2500e-0cef-4130-869d-732b23ed9df5").is_none());
    assert!(HyphenatedUuidString::new("").is_none());
}

#[test]
fn musicbrainz_ids() {
    let uuid = HyphenatedUuidString::new(UUID).unwrap();
    let id: Id<RecordingKind> = Id::from_contextless(uuid);
    assert_eq!(id.as_str(), UUID);
    assert_eq!(id.contextless().as_str(), UUID);
    let artist: Id<ArtistKind> = Id::from_contextless(uuid);
    assert_eq!(artist.as_str(), UUID);
    let track: Id<Track> = Id::from_contextless(uuid);
    assert_eq!(track.clone().as_str(), UUID);
}

#[test]
fn genders() {
    assert_eq!(Gender::from("male"), Gender::Male);
    assert_eq!(Gender::from("MALE"), Gender::Male);
    assert_eq!(Gender::from("Female"), Gender::Female);
    assert_eq!(Gender::from("non-binary"), Gender::NonBinary);
    assert_eq!(Gender::from(""), Gender::NonBinary);
    assert!(str_eq_ignore_ascii_case("AbC", "aBc"));
    assert!(!str_eq_ignore_ascii_case("abc", "abd"));
    assert!(!str_eq_ignore_ascii_case("abc", "ab"));
}

#[test]
fn user_agents() {
    let info = ProgramInfo {
        name: MaybeOwnedString::Borrowed("am-osx-status"),
        version: Some(MaybeOwnedString::Borrowed("/1.2.3")),
        contact: MaybeOwnedString::Owned("me@example.com".to_owned()),
    };
    assert_eq!(info.to_user_agent(), "am-osx-status/1.2.3 (me@example.com)");
    let bare = ProgramInfo {
        name: MaybeOwnedString::Borrowed("tool"),
        version: None,
        contact: MaybeOwnedString::Borrowed("x"),
    };
    assert_eq!(bare.to_user_agent(), "tool (x)");
}

#[test]
fn cover_art_ids() {
    let id = CoverArtId::from(42u64);
    assert_eq!(id.into_inner(), 42);
    assert_eq!(u64::from(CoverArtId(7)), 7);
}

#[test]
fn tokens() {
    assert!(UserToken::parse("not a token").is_err());
    let uuid = UserToken::parse(UUID).unwrap();
    assert_eq!(
        UserToken::validity_url(&uuid),
        format!("{API_ROOT}/validate-token?token={UUID}")
    );
    assert!(UserToken::validated(uuid, &TokenValidity::Invalid).is_err());
    let validity = TokenValidity::from_username(Some("someone".to_owned()));
    assert!(validity.is_valid());
    assert!(!validity.is_invalid());
    assert!(TokenValidity::from_username(None).is_invalid());
    let token = UserToken::validated(uuid, &validity).unwrap();
    assert_eq!(token.to_string(), UUID);
    assert_eq!(token.authorization(), format!("Token {UUID}"));
}

#[test]
fn listen_dates() {
    assert!(listened_at(LISTEN_MINIMUM_TIMESTAMP - 1).is_err());
    assert_eq!(listened_at(LISTEN_MINIMUM_TIMESTAMP).unwrap(), 1033430400);
    assert_eq!(listened_at(1_700_000_000).unwrap(), 1_700_000_000);
    assert!(listened_at(-5).is_err());
}

#[test]
fn submission_responses() {
    assert!(ListenSubmissionError::from_response(200, String::new()).is_ok());
    assert!(matches!(ListenSubmissionError::from_response(429, String::new()), Err(ListenSubmissionError::Ratelimited)));
    assert!(matches!(ListenSubmissionError::from_response(401, String::new()), Err(ListenSubmissionError::InvalidToken(_))));
    match ListenSubmissionError::from_response(500, "oops".to_owned()) {
        Err(ListenSubmissionError::Other(status, body)) => {
            assert_eq!(status, 500);
            assert_eq!(body, "oops");
        }
        _ => panic!("expected another error"),
    }
    assert!(CurrentlyPlayingSubmissionError::from_response(200, String::new()).is_ok());
    assert!(matches!(CurrentlyPlayingSubmissionError::from_response(429, String::new()), Err(CurrentlyPlayingSubmissionError::Ratelimited)));
    assert!(matches!(CurrentlyPlayingSubmissionError::from_response(404, String::new()), Err(CurrentlyPlayingSubmissionError::Other(404, _))));
}

#[test]
fn additional_info_raw() {
    let uuid = HyphenatedUuidString::new(UUID).unwrap();
    let client = ProgramInfo {
        name: MaybeOwnedString::Borrowed("client"),
        version: Some(MaybeOwnedString::Borrowed("0.1")),
        contact: MaybeOwnedString::Borrowed("c"),
    };
    let mut info = AdditionalInfo::default();
    info.ids.recording = Some(Id::from_contextless(uuid));
    info.ids.artists = Some(vec![Id::from_contextless(uuid), Id::from_contextless(uuid)]);
    info.track_number = Some(12);
    info.isrc = Some("USRC17607839");
    info.music_service = Some(MusicService::Domain("music.apple.com"));
    info.submission_client = Some(&client);
    info.media_player = Some(MediaPlayer { name: "Music", version: Some("1.5") });
    info.duration = Some(215_000);
    let raw = info.into_raw();
    assert_eq!(raw.recording_mbid.unwrap().as_str(), UUID);
    assert_eq!(raw.artist_mbids.as_ref().unwrap().len(), 2);
    assert!(raw.release_mbid.is_none());
    assert_eq!(raw.tracknumber.as_deref(), Some("12"));
    assert_eq!(raw.isrc, Some("USRC17607839"));
    assert_eq!(raw.music_service, Some("music.apple.com"));
    assert_eq!(raw.music_service_name, None);
    assert_eq!(raw.submission_client, Some("client"));
    assert_eq!(raw.submission_client_version, Some("0.1"));
    assert_eq!(raw.media_player, Some("Music"));
    assert_eq!(raw.media_player_version, Some("1.5"));
    assert_eq!(raw.duration_ms, Some(215_000));
    assert_eq!(raw.duration, None);
    assert_eq!(raw.tags.map(|t| t.len()), Some(0));

    let mut indeterminate = AdditionalInfo::default();
    indeterminate.music_service = Some(MusicService::DomainIndeterminate { name: "Radio" });
    let raw = indeterminate.into_raw();
    assert_eq!(raw.music_service, None);
    assert_eq!(raw.music_service_name, Some("Radio"));
    assert!(raw.tracknumber.is_none());
}

#[test]
fn recordings_hold_their_credits() {
    let uuid = HyphenatedUuidString::new(UUID).unwrap();
    let recording = Recording { id: Id::from_contextless(uuid), title: "Song".to_owned(), artist_credit: Vec::new() };
    assert_eq!(recording.id.as_str(), UUID);
}
