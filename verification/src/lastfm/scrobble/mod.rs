//! Scrobbles and now-playing notices: what is sent of a track, and how the server's answers
//! are read.
//! - <https://www.last.fm/api/show/track.scrobble>
//! - <https://www.last.fm/api/show/track.updateNowPlaying>
use vstd::prelude::*;
use crate::brainz::musicbrainz::{Id, Track};
use crate::num::{parse_result, parse_u32, ParseIntError};
pub mod raw;

use crate::text::bytes_of;
use self::raw::{MaybeCorrected as RawMaybeCorrected, NowPlayingResponse, Response, ResponseAttributes, ScrobbleResponse};

verus! {

/// What is sent of a track that was or is being listened to.
pub struct HeardTrackInfo<'a> {
    /// The artist's name.
    pub artist: &'a str,
    /// The track's name.
    pub track: &'a str,
    /// The number of the track on its album.
    pub track_number: Option<u32>,
    /// The album's name.
    pub album: Option<&'a str>,
    /// The album's artist, where it differs from the track's.
    pub album_artist: Option<&'a str>,
    /// The MusicBrainz id of the track.
    pub mbid: Option<Id<Track>>,
    /// The track's length, in seconds.
    pub duration_in_seconds: Option<u32>,
}

/// A track that was listened to, with when.
pub struct Scrobble<'a> {
    pub info: HeardTrackInfo<'a>,
    /// When the track started playing, in seconds since the Unix epoch.
    pub timestamp: i64,
    /// Whether the user chose the track; `false` where a station or recommendation did.
    /// Left out where in doubt.
    pub chosen_by_user: Option<bool>,
}

/// What makes a heard track a scrobble.
#[derive(Debug, Clone, Copy)]
pub struct ScrobbleEnrichmentParameters {
    /// When the track started playing, in seconds since the Unix epoch.
    pub timestamp: i64,
    /// Whether the user chose the track.
    pub chosen_by_user: Option<bool>,
}

impl<'a> HeardTrackInfo<'a> {
    /// The scrobble of this track at the given time.
    pub fn promote_to_scrobble(self, parameters: ScrobbleEnrichmentParameters) -> (r: Scrobble<'a>)
        ensures
            r.info == self,
            r.timestamp == parameters.timestamp,
            r.chosen_by_user == parameters.chosen_by_user,
    {
        Scrobble { info: self, timestamp: parameters.timestamp, chosen_by_user: parameters.chosen_by_user }
    }
}

/// Why a scrobble was ignored.
#[derive(Debug, Clone, Copy, PartialEq, Eq, Structural)]
pub enum ScrobbleError {
    /// The artist's name is blocked (also given for timestamps in milliseconds).
    BadArtist,
    /// The track's name is blocked.
    BadTrack,
    /// The timestamp is too old.
    TimestampTooOld,
    /// The timestamp is too new.
    TimestampTooNew,
    /// The daily limit of scrobbles was reached.
    DailyLimitReached,
}

/// A code that names no reason for ignoring a scrobble.
#[derive(Debug, Clone, Copy, PartialEq, Eq, Structural)]
pub struct InvalidScrobbleErrorCodeError {
    pub code: u8,
}

impl ScrobbleError {
    /// The code the API gives.
    pub open spec fn code(self) -> u8 {
        match self {
            ScrobbleError::BadArtist => 1,
            ScrobbleError::BadTrack => 2,
            ScrobbleError::TimestampTooOld => 3,
            ScrobbleError::TimestampTooNew => 4,
            ScrobbleError::DailyLimitReached => 5,
        }
    }

    /// The reason the API means by `value`.
    pub fn try_from(value: u8) -> (r: Result<Self, InvalidScrobbleErrorCodeError>)
        ensures
            r matches Ok(v) ==> v.code() == value,
            r matches Err(e) ==> e.code == value && !(1 <= value <= 5),
    {
        match value {
            1 => Ok(ScrobbleError::BadArtist),
            2 => Ok(ScrobbleError::BadTrack),
            3 => Ok(ScrobbleError::TimestampTooOld),
            4 => Ok(ScrobbleError::TimestampTooNew),
            5 => Ok(ScrobbleError::DailyLimitReached),
            _ => Err(InvalidScrobbleErrorCodeError { code: value }),
        }
    }
}

/// No two reasons share a code.
pub proof fn law_scrobble_error_code_roundtrip(a: ScrobbleError, b: ScrobbleError)
    ensures
        a.code() == b.code() ==> a == b,
{
}

/// The reasons for ignoring a scrobble carry Last.fm's numbers: 1 a blocked artist, 2 a
/// blocked track, 3 a timestamp too old, 4 one too new, 5 the daily limit; the reason read
/// from a number is the one that carries it, and no other number names a reason.
pub proof fn law_scrobble_error_numbers(c: u8)
    ensures
        ScrobbleError::BadArtist.code() == 1,
        ScrobbleError::BadTrack.code() == 2,
        ScrobbleError::TimestampTooOld.code() == 3,
        ScrobbleError::TimestampTooNew.code() == 4,
        ScrobbleError::DailyLimitReached.code() == 5,
        ScrobbleError::try_from_spec(c) matches Some(e) ==> e.code() == c,
        ScrobbleError::try_from_spec(c) is None <==> !(1 <= c <= 5),
{
}

/// A value the server may have corrected.
#[derive(Debug, Clone, PartialEq, Eq)]
pub struct MaybeCorrected<T> {
    pub corrected: bool,
    pub value: T,
}

/// What the server says it received of a track.
#[derive(Debug)]
pub struct Acknowledgement<S> {
    pub artist: MaybeCorrected<S>,
    pub track: MaybeCorrected<S>,
    pub album: Option<MaybeCorrected<S>>,
    pub album_artist: Option<MaybeCorrected<S>>,
}

/// An acknowledgement with the timestamp it was for.
#[derive(Debug)]
pub struct TimestampedAcknowledgement<S> {
    pub ack: Acknowledgement<S>,
    pub timestamp: u32,
}

impl ScrobbleError {
    /// The reason `code` names, if any.
    pub open spec fn try_from_spec(code: u8) -> Option<Self> {
        if code == 1 {
            Some(ScrobbleError::BadArtist)
        } else if code == 2 {
            Some(ScrobbleError::BadTrack)
        } else if code == 3 {
            Some(ScrobbleError::TimestampTooOld)
        } else if code == 4 {
            Some(ScrobbleError::TimestampTooNew)
        } else if code == 5 {
            Some(ScrobbleError::DailyLimitReached)
        } else {
            None
        }
    }
}

/// A value as received: corrected or not.
fn received(raw: RawMaybeCorrected) -> (r: MaybeCorrected<String>)
    ensures
        r.value@ == raw.text@,
        r.corrected == raw.corrected,
{
    MaybeCorrected { value: raw.text, corrected: raw.corrected }
}

/// A value that may be left out: absent where the server wrote no text.
fn received_optional(raw: RawMaybeCorrected) -> (r: Option<MaybeCorrected<String>>)
    ensures
        raw.text@.len() == 0 <==> r is None,
        r matches Some(m) ==> m.value@ == raw.text@ && m.corrected == raw.corrected,
{
    if raw.text.as_str().unicode_len() == 0 {
        None
    } else {
        Some(MaybeCorrected { value: raw.text, corrected: raw.corrected })
    }
}

/// Whether an acknowledgement is what the server wrote: the artist and track as given, the
/// album and album artist where their text is not empty.
pub open spec fn acknowledges(a: Acknowledgement<String>, artist: RawMaybeCorrected, track: RawMaybeCorrected, album: RawMaybeCorrected, album_artist: RawMaybeCorrected) -> bool {
    &&& a.artist.value@ == artist.text@ && a.artist.corrected == artist.corrected
    &&& a.track.value@ == track.text@ && a.track.corrected == track.corrected
    &&& (album.text@.len() == 0 <==> a.album is None)
    &&& (a.album matches Some(m) ==> m.value@ == album.text@ && m.corrected == album.corrected)
    &&& (album_artist.text@.len() == 0 <==> a.album_artist is None)
    &&& (a.album_artist matches Some(m) ==> m.value@ == album_artist.text@ && m.corrected == album_artist.corrected)
}

/// The server's answer to a batch of scrobbles.
#[derive(Debug)]
pub struct ScrobbleServerResponse {
    /// For each scrobble, in order: what was received, or why it was ignored.
    pub results: Vec<Result<TimestampedAcknowledgement<String>, ScrobbleError>>,
    pub counts: ResponseAttributes,
}

impl ScrobbleServerResponse {
    /// Reads the server's whole answer to a batch: the answers for each scrobble, read as
    /// [`Self::from_raw`] reads them, and the counts.
    pub fn new(response: Response) -> (r: Result<Self, ParseIntError>)
        ensures
            ({
                let responses = response.scrobbles.inner.items();
                &&& r matches Ok(s) ==> {
                    &&& s.results@.len() == responses.len()
                    &&& s.counts == response.scrobbles.counts
                    &&& forall|i: int| 0 <= i < responses.len() ==> match (#[trigger] responses[i]).ignored_message.code {
                        Some(e) => s.results@[i] == Err::<TimestampedAcknowledgement<String>, ScrobbleError>(e),
                        None => s.results@[i] matches Ok(t) && acknowledges(t.ack, responses[i].artist, responses[i].track, responses[i].album, responses[i].album_artist)
                            && parse_result(vstd::utf8::encode_utf8(responses[i].timestamp@), 10, 0xffff_ffff) == Ok::<nat, ParseIntError>(t.timestamp as nat),
                    }
                }
                &&& (forall|i: int| 0 <= i < responses.len() ==> (#[trigger] responses[i]).ignored_message.code is Some
                    || parse_result(vstd::utf8::encode_utf8(responses[i].timestamp@), 10, 0xffff_ffff) is Ok) ==> r is Ok
            }),
    {
        let ghost expected = response.scrobbles.inner.items();
        let counts = response.scrobbles.counts;
        let responses = response.scrobbles.inner.into_vec();
        assert(responses@ =~= expected);
        let r = Self::from_raw(responses, counts);
        proof {
            if r is Ok {
                let s = r->Ok_0;
                assert forall|i: int| 0 <= i < expected.len() implies match (#[trigger] expected[i]).ignored_message.code {
                    Some(e) => s.results@[i] == Err::<TimestampedAcknowledgement<String>, ScrobbleError>(e),
                    None => s.results@[i] matches Ok(t) && acknowledges(t.ack, expected[i].artist, expected[i].track, expected[i].album, expected[i].album_artist)
                        && parse_result(vstd::utf8::encode_utf8(expected[i].timestamp@), 10, 0xffff_ffff) == Ok::<nat, ParseIntError>(t.timestamp as nat),
                } by {
                    assert(expected[i] == responses@[i]);
                }
            }
        }
        r
    }

    /// Reads the server's answers for each scrobble: an ignored scrobble gives its reason;
    /// any other its acknowledgement and timestamp, which must be decimal and fit 32 bits.
    #[verifier::loop_isolation(false)]
    pub fn from_raw(responses: Vec<ScrobbleResponse>, counts: ResponseAttributes) -> (r: Result<Self, ParseIntError>)
        ensures
            r matches Ok(s) ==> {
                &&& s.results@.len() == responses@.len()
                &&& s.counts == counts
                &&& forall|i: int| 0 <= i < responses@.len() ==> match (#[trigger] responses@[i]).ignored_message.code {
                    Some(e) => s.results@[i] == Err::<TimestampedAcknowledgement<String>, ScrobbleError>(e),
                    None => s.results@[i] matches Ok(t) && acknowledges(t.ack, responses@[i].artist, responses@[i].track, responses@[i].album, responses@[i].album_artist)
                        && parse_result(vstd::utf8::encode_utf8(responses@[i].timestamp@), 10, 0xffff_ffff) == Ok::<nat, ParseIntError>(t.timestamp as nat),
                }
            },
            (forall|i: int| 0 <= i < responses@.len() ==> (#[trigger] responses@[i]).ignored_message.code is Some
                || parse_result(vstd::utf8::encode_utf8(responses@[i].timestamp@), 10, 0xffff_ffff) is Ok) ==> r is Ok,
    {
        let ghost all = responses@;
        let mut responses = responses;
        let mut results: Vec<Result<TimestampedAcknowledgement<String>, ScrobbleError>> = Vec::new();
        let ghost mut k: int = 0;
        while responses.len() > 0
            invariant
                0 <= k <= all.len(),
                responses@ == all.skip(k),
                results@.len() == k,
                forall|i: int| 0 <= i < k ==> match (#[trigger] all[i]).ignored_message.code {
                    Some(e) => results@[i] == Err::<TimestampedAcknowledgement<String>, ScrobbleError>(e),
                    None => results@[i] matches Ok(t) && acknowledges(t.ack, all[i].artist, all[i].track, all[i].album, all[i].album_artist)
                        && parse_result(vstd::utf8::encode_utf8(all[i].timestamp@), 10, 0xffff_ffff) == Ok::<nat, ParseIntError>(t.timestamp as nat),
                },
            decreases responses@.len(),
        {
            let response = responses.remove(0);
            proof {
                assert(response == all[k]);
                assert(all.skip(k + 1) =~= all.skip(k).drop_first());
            }
            match response.ignored_message.code {
                Some(e) => {
                    results.push(Err(e));
                },
                None => {
                    let timestamp = match parse_u32(response.timestamp.as_str()) {
                        Ok(t) => t,
                        Err(e) => { return Err(e); },
                    };
                    let ack = Acknowledgement {
                        artist: received(response.artist),
                        track: received(response.track),
                        album: received_optional(response.album),
                        album_artist: received_optional(response.album_artist),
                    };
                    results.push(Ok(TimestampedAcknowledgement { ack, timestamp }));
                },
            }
            proof { k = k + 1; }
        }
        Ok(ScrobbleServerResponse { results, counts })
    }
}

/// The server's answer to a now-playing notice.
#[derive(Debug)]
pub struct ServerUpdateNowPlayingResponse {
    pub result: Acknowledgement<String>,
}

impl ServerUpdateNowPlayingResponse {
    /// Reads the server's answer to a now-playing notice.
    pub fn new(response: NowPlayingResponse) -> (r: Self)
        ensures
            acknowledges(r.result, response.inner.artist, response.inner.track, response.inner.album, response.inner.album_artist),
    {
        let response = response.inner;
        ServerUpdateNowPlayingResponse {
            result: Acknowledgement {
                artist: received(response.artist),
                track: received(response.track),
                album: received_optional(response.album),
                album_artist: received_optional(response.album_artist),
            },
        }
    }
}

} // verus!
