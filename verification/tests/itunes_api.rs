use am_osx_status::itunes_api::{checked_results, lookup_url, ResultsError, ITUNES_API_BASE_URL};

#[test]
fn lookup_addresses() {
    assert_eq!(lookup_url(909253, "musicArtist"), format!("{ITUNES_API_BASE_URL}/lookup?id=909253&entity=musicArtist"));
    assert_eq!(lookup_url(0, "song"), "https://itunes.apple.com/lookup?id=0&entity=song");
}

#[test]
fn results_must_match_their_count() {
    assert_eq!(checked_results(2, Some(vec![1, 2])).unwrap(), vec![1, 2]);
    assert_eq!(checked_results::<u8>(0, None).unwrap_err(), ResultsError::MissingResults);
    assert_eq!(
        checked_results(3, Some(vec!['a'])).unwrap_err(),
        ResultsError::InvalidLength { expected: 3, found: 1 }
    );
    assert!(checked_results::<u8>(0, Some(vec![])).unwrap().is_empty());
}
