//! The iTunes Search API: lookup addresses and the check on the results it answers with.
use vstd::prelude::*;
use crate::num::{decimal, push_decimal};

verus! {

/// The root of the API.
pub const ITUNES_API_BASE_URL: &'static str = "https://itunes.apple.com";

/// Why the results of a lookup or search could not be read.
#[derive(Debug, Clone, Copy, PartialEq, Eq, Structural)]
pub enum ResultsError {
    /// The answer had no results.
    MissingResults,
    /// The answer held another number of results than its count says.
    InvalidLength { expected: usize, found: usize },
}

/// The results of an answer, checked against the count it gives: they must be there, and
/// as many as counted.
pub fn checked_results<T>(result_count: usize, results: Option<Vec<T>>) -> (r: Result<Vec<T>, ResultsError>)
    ensures
        match results {
            None => r == Err::<Vec<T>, ResultsError>(ResultsError::MissingResults),
            Some(v) => if v@.len() == result_count {
                r matches Ok(w) && w@ == v@
            } else {
                r == Err::<Vec<T>, ResultsError>(ResultsError::InvalidLength { expected: result_count, found: v@.len() as usize })
            },
        },
{
    match results {
        None => Err(ResultsError::MissingResults),
        Some(v) => {
            if v.len() != result_count {
                Err(ResultsError::InvalidLength { expected: result_count, found: v.len() })
            } else {
                Ok(v)
            }
        },
    }
}

/// The address that looks up the entity `id` of the kind `entity`.
pub fn lookup_url(id: u32, entity: &str) -> (r: String)
    ensures
        r@ == ITUNES_API_BASE_URL@ + "/lookup?id="@ + decimal(id as nat) + "&entity="@ + entity@,
{
    let mut out = String::from_str(ITUNES_API_BASE_URL);
    out.append("/lookup?id=");
    push_decimal(id as u64, &mut out);
    out.append("&entity=");
    out.append(entity);
    out
}

/// An artist, as the API describes one.
#[derive(Debug)]
pub struct Artist {
    pub name: String,
    pub id: u32,
    pub genre: String,
    pub genre_id: u32,
    /// The AllMusic id; never zero.
    pub amg_id: Option<u32>,
    pub link: String,
}

/// A song, as the API describes one.
#[derive(Debug)]
pub struct Track {
    pub artist_apple_music_url: Option<String>,
    pub artist_name: String,
    pub name_censored: String,
    pub name: String,
    pub artwork_preview_url: String,
    pub apple_music_url: String,
    pub collection_name_censored: String,
    pub collection_name: String,
}

} // verus!
