//! The server's answers as it writes them.
use vstd::prelude::*;
use crate::lastfm::scrobble::{InvalidScrobbleErrorCodeError, ScrobbleError};
use crate::text::bytes_of;

verus! {

/// A value as the server writes it: text, with "1" or "0" for whether it was corrected.
#[derive(Debug)]
pub struct MaybeCorrected {
    pub text: String,
    pub corrected: bool,
}

/// The reason the server ignored a scrobble, where it did.
#[derive(Debug, Clone, Copy)]
pub struct IgnoredMessage {
    pub code: Option<ScrobbleError>,
}

impl IgnoredMessage {
    /// The message for the code the server gives: zero for not ignored.
    pub fn from_code(code: u8) -> (r: Result<Self, InvalidScrobbleErrorCodeError>)
        ensures
            code == 0 ==> (r matches Ok(m) && m.code is None),
            code != 0 ==> match ScrobbleError::try_from_spec(code) {
                Some(e) => (r matches Ok(m) && m.code == Some(e)),
                None => r == Err::<Self, InvalidScrobbleErrorCodeError>(InvalidScrobbleErrorCodeError { code }),
            },
    {
        if code == 0 {
            return Ok(IgnoredMessage { code: None });
        }
        match ScrobbleError::try_from(code) {
            Ok(e) => Ok(IgnoredMessage { code: Some(e) }),
            Err(e) => Err(e),
        }
    }
}

/// Whether text is a numeric boolean: "1" for true, "0" for false.
pub fn numeric_bool(s: &str) -> (r: Option<bool>)
    ensures
        r == (if bytes_of(s) == seq![49u8] { Some(true) } else if bytes_of(s) == seq![48u8] { Some(false) } else { None::<bool> }),
{
    let b = s.as_bytes();
    if b.len() == 1 && b[0] == 49 {
        assert(b@ =~= seq![49u8]);
        Some(true)
    } else if b.len() == 1 && b[0] == 48 {
        assert(b@ =~= seq![48u8]);
        Some(false)
    } else {
        None
    }
}

/// The server's answer for one scrobble, as it writes it.
#[derive(Debug)]
pub struct ScrobbleResponse {
    pub artist: MaybeCorrected,
    pub track: MaybeCorrected,
    pub album: MaybeCorrected,
    pub album_artist: MaybeCorrected,
    /// Seconds since the Unix epoch, in decimal.
    pub timestamp: String,
    pub ignored_message: IgnoredMessage,
}

/// The server's answer for a now-playing notice, as it writes it.
#[derive(Debug)]
pub struct NowPlayingResponseInner {
    pub artist: MaybeCorrected,
    pub track: MaybeCorrected,
    pub album: MaybeCorrected,
    pub album_artist: MaybeCorrected,
    pub ignored_message: IgnoredMessage,
}

/// How many scrobbles were accepted and ignored.
#[derive(Debug, Clone, Copy)]
pub struct ResponseAttributes {
    pub ignored: usize,
    pub accepted: usize,
}

/// The server's answer for a now-playing notice, as it wraps it.
#[derive(Debug)]
pub struct NowPlayingResponse {
    pub inner: NowPlayingResponseInner,
}

/// One value, or several: the server writes a batch of one as the value alone.
#[derive(Debug)]
pub enum MaybeMany<T> {
    Many(Vec<T>),
    One(T),
}

impl<T> MaybeMany<T> {
    /// The values, in order.
    pub open spec fn items(self) -> Seq<T> {
        match self {
            MaybeMany::Many(v) => v@,
            MaybeMany::One(x) => seq![x],
        }
    }

    /// The values, in order.
    pub fn into_vec(self) -> (r: Vec<T>)
        ensures
            r@ == self.items(),
    {
        match self {
            MaybeMany::Many(v) => v,
            MaybeMany::One(x) => {
                let mut v = Vec::new();
                v.push(x);
                assert(v@ =~= seq![x]);
                v
            },
        }
    }
}

/// The server's answers to a batch of scrobbles, with the counts.
#[derive(Debug)]
pub struct ScrobbleContainer {
    pub inner: MaybeMany<ScrobbleResponse>,
    pub counts: ResponseAttributes,
}

/// The server's whole answer to a batch of scrobbles.
#[derive(Debug)]
pub struct Response {
    pub scrobbles: ScrobbleContainer,
}

} // verus!
