//! The ListenBrainz listen submission API: tokens, listen payloads and how the server's
//! answers are read.
use vstd::prelude::*;
use crate::brainz::HyphenatedUuidString;
use crate::text::ascii_text;
use crate::brainz::musicbrainz::{ArtistKind, Id, ProgramInfo, RecordingKind, Release, ReleaseGroup, Tag, Track, Work};
use crate::num::{decimal, to_decimal};
use crate::text::bytes_of;

verus! {

/// The root of the version 1 API.
pub const API_ROOT: &'static str = "https://api.listenbrainz.org/1/";

/// The earliest acceptable time, in seconds since the Unix epoch, for a listen: October 1st, 2002.
pub const LISTEN_MINIMUM_TIMESTAMP: i64 = 1033430400;

/// The server rejected the user token.
#[derive(Debug, Clone, Copy, PartialEq, Eq, Structural)]
pub struct InvalidTokenError;

impl InvalidTokenError {
    /// The error's message.
    pub fn to_string(&self) -> (r: String)
        ensures
            r@ == "invalid token"@,
    {
        String::from_str("invalid token")
    }
}

/// The server found the input malformed.
#[derive(Debug)]
pub struct MalformedInputError {
    pub message: String,
}

impl MalformedInputError {
    /// The error's message: "malformed: " and the server's message.
    pub fn to_string(&self) -> (r: String)
        ensures
            r@ == "malformed: "@ + self.message@,
    {
        let mut out = String::from_str("malformed: ");
        out.append(self.message.as_str());
        out
    }
}

/// A listen was dated before the earliest date the server accepts.
#[derive(Debug, Clone, Copy, PartialEq, Eq, Structural)]
pub struct ListenDateTooHistoric;

impl ListenDateTooHistoric {
    /// The error's message.
    pub fn to_string(&self) -> (r: String)
        ensures
            r@ == "timestamp is below earliest allowed listening date"@,
    {
        String::from_str("timestamp is below earliest allowed listening date")
    }
}

/// What the server said of a token.
#[derive(Debug)]
pub enum TokenValidity {
    Invalid,
    Valid { username: String },
}

impl TokenValidity {
    /// Whether the token is valid.
    pub fn is_valid(&self) -> (r: bool)
        ensures
            r == (self is Valid),
    {
        match self {
            TokenValidity::Valid { .. } => true,
            TokenValidity::Invalid => false,
        }
    }

    /// Whether the token is invalid.
    pub fn is_invalid(&self) -> (r: bool)
        ensures
            r == (self is Invalid),
    {
        match self {
            TokenValidity::Invalid => true,
            TokenValidity::Valid { .. } => false,
        }
    }

    /// The validity that a validation answer gives: valid, for the user named, exactly when
    /// the answer names one.
    pub fn from_username(username: Option<String>) -> (r: TokenValidity)
        ensures
            match username {
                Some(u) => r matches TokenValidity::Valid { username: v } && v@ == u@,
                None => r is Invalid,
            },
    {
        match username {
            Some(username) => TokenValidity::Valid { username },
            None => TokenValidity::Invalid,
        }
    }
}

/// A ListenBrainz user token.
#[derive(Debug, Clone, Copy)]
pub struct UserToken(HyphenatedUuidString);

impl View for UserToken {
    type V = Seq<u8>;

    closed spec fn view(&self) -> Seq<u8> {
        self.0@
    }
}

/// The address at which the server validates a token.
pub open spec fn validity_url(token: Seq<char>) -> Seq<char> {
    API_ROOT@ + "/validate-token?token="@ + token
}

impl UserToken {
    /// The token written in `token`; only a hyphenated UUID can be one.
    pub fn parse(token: &str) -> (r: Result<HyphenatedUuidString, InvalidTokenError>)
        ensures
            r is Ok <==> crate::brainz::is_hyphenated_uuid(bytes_of(token)),
            r matches Ok(u) ==> u@ == bytes_of(token),
    {
        match HyphenatedUuidString::new(token) {
            Some(u) => Ok(u),
            None => Err(InvalidTokenError),
        }
    }

    /// The token, once the server has said whether it is valid.
    pub fn validated(token: HyphenatedUuidString, validity: &TokenValidity) -> (r: Result<UserToken, InvalidTokenError>)
        ensures
            r is Ok <==> validity is Valid,
            r matches Ok(t) ==> t@ == token@,
    {
        match validity {
            TokenValidity::Valid { .. } => Ok(UserToken(token)),
            TokenValidity::Invalid => Err(InvalidTokenError),
        }
    }

    /// The address at which the server validates `token`.
    pub fn validity_url(token: &HyphenatedUuidString) -> (r: String)
        ensures
            r@ == validity_url(token.text()),
    {
        let mut out = String::from_str(API_ROOT);
        out.append("/validate-token?token=");
        out.append(token.as_str());
        out
    }

    /// The token's text.
    pub fn to_string(&self) -> (r: String)
        ensures
            r@ == ascii_text(self@),
    {
        String::from_str(self.0.as_str())
    }

    /// The value of the Authorization header that presents this token.
    pub fn authorization(&self) -> (r: String)
        ensures
            r@ == "Token "@ + ascii_text(self@),
    {
        let mut out = String::from_str("Token ");
        out.append(self.0.as_str());
        out
    }
}

/// The kind of a listen submission.
#[derive(Debug, Clone, Copy, PartialEq, Eq, Structural)]
pub enum ListenType {
    Single,
    PlayingNow,
    Import,
}

/// The kinds of submission carry the API's names, `single`, `playing_now` and `import`.
pub proof fn law_listen_type_names()
    ensures
        ListenType::Single.name() == seq!['s', 'i', 'n', 'g', 'l', 'e'],
        ListenType::PlayingNow.name() == seq!['p', 'l', 'a', 'y', 'i', 'n', 'g', '_', 'n', 'o', 'w'],
        ListenType::Import.name() == seq!['i', 'm', 'p', 'o', 'r', 't'],
{
    reveal_strlit("single");
    assert(seq!['s', 'i', 'n', 'g', 'l', 'e'] =~= "single"@);
    reveal_strlit("playing_now");
    assert(seq!['p', 'l', 'a', 'y', 'i', 'n', 'g', '_', 'n', 'o', 'w'] =~= "playing_now"@);
    reveal_strlit("import");
    assert(seq!['i', 'm', 'p', 'o', 'r', 't'] =~= "import"@);
}

impl ListenType {
    /// The name that the API gives the kind.
    pub open spec fn name(self) -> Seq<char> {
        match self {
            ListenType::Single => "single"@,
            ListenType::PlayingNow => "playing_now"@,
            ListenType::Import => "import"@,
        }
    }

    /// The name that the API gives the kind.
    pub fn to_str(&self) -> (r: &'static str)
        ensures
            r@ == self.name(),
    {
        match self {
            ListenType::Single => "single",
            ListenType::PlayingNow => "playing_now",
            ListenType::Import => "import",
        }
    }
}

/// The names of a track that every listen carries.
#[derive(Debug, Clone, Copy)]
pub struct BasicTrackMetadata<'a> {
    pub artist: &'a str,
    pub track: &'a str,
    pub release: Option<&'a str>,
}

/// The program that played a track.
pub struct MediaPlayer<'a> {
    pub name: &'a str,
    pub version: Option<&'a str>,
}

/// The service that a track was played from.
pub enum MusicService<'a> {
    Domain(&'a str),
    DomainIndeterminate { name: &'a str },
}

/// The MusicBrainz ids of what a listen is of.
pub struct BrainzIds {
    pub artists: Option<Vec<Id<ArtistKind>>>,
    pub release_group: Option<Id<ReleaseGroup>>,
    pub release: Option<Id<Release>>,
    pub recording: Option<Id<RecordingKind>>,
    pub track: Option<Id<Track>>,
    pub works: Option<Vec<Id<Work>>>,
}

impl Default for BrainzIds {
    fn default() -> (r: Self)
        ensures
            r.artists is None,
            r.release_group is None,
            r.release is None,
            r.recording is None,
            r.track is None,
            r.works is None,
    {
        BrainzIds { artists: None, release_group: None, release: None, recording: None, track: None, works: None }
    }
}

/// What a listen may carry besides the track's names.
pub struct AdditionalInfo<'a> {
    pub ids: BrainzIds,
    pub track_number: Option<u32>,
    pub isrc: Option<&'a str>,
    pub tags: Vec<Tag<'a>>,
    pub music_service: Option<MusicService<'a>>,
    pub submission_client: Option<&'a ProgramInfo<'a>>,
    pub media_player: Option<MediaPlayer<'a>>,
    pub origin_url: Option<&'a str>,
    /// The track's length, in milliseconds.
    pub duration: Option<u64>,
}

impl<'a> Default for AdditionalInfo<'a> {
    fn default() -> (r: Self)
        ensures
            r.track_number is None,
            r.isrc is None,
            r.tags@.len() == 0,
            r.music_service is None,
            r.submission_client is None,
            r.media_player is None,
            r.origin_url is None,
            r.duration is None,
    {
        AdditionalInfo {
            ids: BrainzIds::default(),
            track_number: None,
            isrc: None,
            tags: Vec::new(),
            music_service: None,
            submission_client: None,
            media_player: None,
            origin_url: None,
            duration: None,
        }
    }
}

/// The additional info of a listen as the API spells it.
/// - <https://listenbrainz.readthedocs.io/en/latest/users/json.html#id1>
#[derive(Debug)]
pub struct Raw<'a> {
    pub artist_mbids: Option<Vec<HyphenatedUuidString>>,
    pub release_group_mbid: Option<HyphenatedUuidString>,
    pub release_mbid: Option<HyphenatedUuidString>,
    pub recording_mbid: Option<HyphenatedUuidString>,
    pub track_mbid: Option<HyphenatedUuidString>,
    pub work_mbids: Option<Vec<HyphenatedUuidString>>,
    pub tracknumber: Option<String>,
    pub isrc: Option<&'a str>,
    pub tags: Option<Vec<&'a str>>,
    pub media_player: Option<&'a str>,
    pub media_player_version: Option<&'a str>,
    pub submission_client: Option<&'a str>,
    pub submission_client_version: Option<&'a str>,
    pub music_service: Option<&'a str>,
    pub music_service_name: Option<&'a str>,
    pub origin_url: Option<&'a str>,
    pub duration_ms: Option<u64>,
    pub duration: Option<u64>,
}

/// The texts of a list of ids.
pub open spec fn ids_view<T: crate::brainz::musicbrainz::IdPossessor>(ids: Seq<Id<T>>) -> Seq<Seq<u8>> {
    ids.map_values(|i: Id<T>| i@)
}

/// The texts of a list of UUIDs.
pub open spec fn uuids_view(ids: Seq<HyphenatedUuidString>) -> Seq<Seq<u8>> {
    ids.map_values(|u: HyphenatedUuidString| u@)
}

/// Whether an optional UUID holds the same text as an optional id.
pub open spec fn same_id<T: crate::brainz::musicbrainz::IdPossessor>(u: Option<HyphenatedUuidString>, i: Option<Id<T>>) -> bool {
    match (u, i) {
        (Some(u), Some(i)) => u@ == i@,
        (None, None) => true,
        _ => false,
    }
}

/// Whether an optional list of UUIDs holds the same texts as an optional list of ids.
pub open spec fn same_ids<T: crate::brainz::musicbrainz::IdPossessor>(u: Option<Vec<HyphenatedUuidString>>, i: Option<Vec<Id<T>>>) -> bool {
    match (u, i) {
        (Some(u), Some(i)) => uuids_view(u@) == ids_view(i@),
        (None, None) => true,
        _ => false,
    }
}

/// The texts of a list of ids, as UUIDs.
fn contextless_all<T: crate::brainz::musicbrainz::IdPossessor>(ids: Vec<Id<T>>) -> (r: Vec<HyphenatedUuidString>)
    ensures
        uuids_view(r@) == ids_view(ids@),
{
    let mut out: Vec<HyphenatedUuidString> = Vec::new();
    let mut i: usize = 0;
    while i < ids.len()
        invariant
            i <= ids@.len(),
            uuids_view(out@) == ids_view(ids@.take(i as int)),
        decreases ids@.len() - i,
    {
        let u = ids[i].contextless();
        let ghost before = out@;
        out.push(u);
        proof {
            assert(ids@.take(i as int + 1) =~= ids@.take(i as int).push(ids@[i as int]));
            assert(uuids_view(out@) =~= uuids_view(before).push(u@));
            assert(ids_view(ids@.take(i as int + 1)) =~= ids_view(ids@.take(i as int)).push(ids@[i as int]@));
        }
        i = i + 1;
    }
    assert(ids@.take(ids@.len() as int) =~= ids@);
    out
}

/// The UUID of an optional id.
fn contextless_opt<T: crate::brainz::musicbrainz::IdPossessor>(id: Option<Id<T>>) -> (r: Option<HyphenatedUuidString>)
    ensures
        same_id(r, id),
{
    match id {
        Some(i) => Some(i.contextless()),
        None => None,
    }
}

/// The UUIDs of an optional list of ids.
fn contextless_vec<T: crate::brainz::musicbrainz::IdPossessor>(ids: Option<Vec<Id<T>>>) -> (r: Option<Vec<HyphenatedUuidString>>)
    ensures
        same_ids(r, ids),
{
    match ids {
        Some(v) => Some(contextless_all(v)),
        None => None,
    }
}

impl<'a> AdditionalInfo<'a> {
    /// The info as the API spells it. Tags cannot be sent yet, so there must be none.
    pub fn into_raw(self) -> (r: Raw<'a>)
        requires
            self.tags@.len() == 0,
        ensures
            same_ids(r.artist_mbids, self.ids.artists),
            same_id(r.release_group_mbid, self.ids.release_group),
            same_id(r.release_mbid, self.ids.release),
            same_id(r.recording_mbid, self.ids.recording),
            same_id(r.track_mbid, self.ids.track),
            same_ids(r.work_mbids, self.ids.works),
            match self.track_number {
                Some(n) => r.tracknumber matches Some(t) && t@ == decimal(n as nat),
                None => r.tracknumber is None,
            },
            r.isrc == self.isrc,
            r.tags matches Some(t) && t@.len() == 0,
            r.media_player == (match self.media_player {
                Some(p) => Some(p.name),
                None => None,
            }),
            r.media_player_version == (match self.media_player {
                Some(p) => p.version,
                None => None,
            }),
            r.submission_client.is_some() == self.submission_client.is_some(),
            self.submission_client matches Some(c) ==> r.submission_client.unwrap()@ == c.name@,
            r.submission_client_version.is_some() == (self.submission_client matches Some(c) && c.version is Some),
            self.submission_client matches Some(c) ==> (c.version matches Some(v) ==> r.submission_client_version.unwrap()@ == v@),
            r.music_service == (match self.music_service {
                Some(MusicService::Domain(d)) => Some(d),
                _ => None,
            }),
            r.music_service_name == (match self.music_service {
                Some(MusicService::DomainIndeterminate { name }) => Some(name),
                _ => None,
            }),
            r.origin_url == self.origin_url,
            r.duration_ms == self.duration,
            r.duration is None,
    {
        let tracknumber = match self.track_number {
            Some(n) => Some(to_decimal(n as u64)),
            None => None,
        };
        let (media_player, media_player_version) = match &self.media_player {
            Some(p) => (Some(p.name), p.version),
            None => (None, None),
        };
        let (submission_client, submission_client_version) = match self.submission_client {
            Some(c) => (
                Some(c.name.as_str()),
                match &c.version {
                    Some(v) => Some(v.as_str()),
                    None => None,
                },
            ),
            None => (None, None),
        };
        let (music_service, music_service_name) = match self.music_service {
            Some(MusicService::Domain(d)) => (Some(d), None),
            Some(MusicService::DomainIndeterminate { name }) => (None, Some(name)),
            None => (None, None),
        };
        Raw {
            recording_mbid: contextless_opt(self.ids.recording),
            release_group_mbid: contextless_opt(self.ids.release_group),
            release_mbid: contextless_opt(self.ids.release),
            track_mbid: contextless_opt(self.ids.track),
            work_mbids: contextless_vec(self.ids.works),
            artist_mbids: contextless_vec(self.ids.artists),
            tracknumber,
            isrc: self.isrc,
            tags: Some(Vec::new()),
            media_player,
            media_player_version,
            submission_client,
            submission_client_version,
            music_service,
            music_service_name,
            origin_url: self.origin_url,
            duration_ms: self.duration,
            duration: None,
        }
    }
}

/// The `listened_at` value for a listen at `timestamp` seconds since the Unix epoch: refused
/// before the earliest date the server accepts, else the timestamp cut to 32 bits.
pub fn listened_at(timestamp: i64) -> (r: Result<u32, ListenDateTooHistoric>)
    ensures
        r is Err <==> timestamp < LISTEN_MINIMUM_TIMESTAMP,
        r matches Ok(t) ==> t == timestamp as u32,
{
    if timestamp < LISTEN_MINIMUM_TIMESTAMP {
        Err(ListenDateTooHistoric)
    } else {
        Ok(timestamp as u32)
    }
}

/// Why a listen was not accepted, once the server answered.
#[derive(Debug)]
pub enum ListenSubmissionError {
    HistoricDateError(ListenDateTooHistoric),
    Ratelimited,
    InvalidToken(InvalidTokenError),
    Other(u16, String),
}

/// Why a playing-now notice was not accepted, once the server answered.
#[derive(Debug)]
pub enum CurrentlyPlayingSubmissionError {
    Ratelimited,
    InvalidToken(InvalidTokenError),
    Other(u16, String),
}

impl ListenSubmissionError {
    /// What the server's answer to a listen submission means: 200 is success, 429 rate
    /// limiting, 401 a refused token, anything else an error with the status and body.
    pub fn from_response(status: u16, body: String) -> (r: Result<(), ListenSubmissionError>)
        ensures
            status == 200 ==> r is Ok,
            status == 429 ==> r matches Err(ListenSubmissionError::Ratelimited),
            status == 401 ==> r matches Err(ListenSubmissionError::InvalidToken(_)),
            status != 200 && status != 429 && status != 401 ==> (r matches Err(ListenSubmissionError::Other(s, b)) && s == status && b@ == body@),
    {
        if status == 200 {
            Ok(())
        } else if status == 429 {
            Err(ListenSubmissionError::Ratelimited)
        } else if status == 401 {
            Err(ListenSubmissionError::InvalidToken(InvalidTokenError))
        } else {
            Err(ListenSubmissionError::Other(status, body))
        }
    }
}

impl CurrentlyPlayingSubmissionError {
    /// What the server's answer to a playing-now notice means: 200 is success, 429 rate
    /// limiting, 401 a refused token, anything else an error with the status and body.
    pub fn from_response(status: u16, body: String) -> (r: Result<(), CurrentlyPlayingSubmissionError>)
        ensures
            status == 200 ==> r is Ok,
            status == 429 ==> r matches Err(CurrentlyPlayingSubmissionError::Ratelimited),
            status == 401 ==> r matches Err(CurrentlyPlayingSubmissionError::InvalidToken(_)),
            status != 200 && status != 429 && status != 401 ==> (r matches Err(CurrentlyPlayingSubmissionError::Other(s, b)) && s == status && b@ == body@),
    {
        if status == 200 {
            Ok(())
        } else if status == 429 {
            Err(CurrentlyPlayingSubmissionError::Ratelimited)
        } else if status == 401 {
            Err(CurrentlyPlayingSubmissionError::InvalidToken(InvalidTokenError))
        } else {
            Err(CurrentlyPlayingSubmissionError::Other(status, body))
        }
    }
}

} // verus!
