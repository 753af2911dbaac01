use watchsync::matcher::accept_series;
use watchsync::matcher::match_score;
use watchsync::text::normalize;

#[test]
fn longer_candidate_is_rejected() {
    // The candidate must appear as a near-prefix of the query, so a candidate
    // longer than the query can never be accepted.
    assert!(!accept_series("foo", "foobar"));
}

#[test]
fn exact_title_is_accepted() {
    assert!(accept_series("foobar", "foobar"));
}

#[test]
fn empty_candidate_is_rejected() {
    assert!(!accept_series("foo", ""));
    assert!(!accept_series("", ""));
}

#[test]
fn candidate_as_prefix_of_longer_query_is_accepted() {
    // Tracker titles often carry a season suffix missing from the streamer's
    // series name.
    assert!(accept_series("some show 2nd season", "some show"));
}

#[test]
fn spacing_discrepancy_within_tolerance_is_accepted() {
    // One space removed: edit distance 2 against the query prefix, well
    // within 12.5% of the 32-character candidate.
    assert!(accept_series(
        "hitoribocchi no marumaru seikatsu",
        "hitoribocchi no marumaruseikatsu"
    ));
}

#[test]
fn distance_above_threshold_is_rejected() {
    // Three substitutions on an eight-character candidate: 37.5% > 12.5%.
    assert!(!accept_series("abcdefgh", "zzzdefgh"));
    // One substitution on an eight-character candidate: 12.5% exactly.
    assert!(accept_series("abcdefgh", "zbcdefgh"));
    // One substitution on a seven-character candidate: above 12.5%.
    assert!(!accept_series("abcdefg", "zbcdefg"));
}

#[test]
fn acceptance_ignores_case_and_trailing_whitespace() {
    let plain = accept_series("some show 2nd season", "some show");
    assert!(plain);
    assert_eq!(accept_series("Some Show 2nd Season  ", "SOME SHOW\t"), plain);
    let rejected = accept_series("foo", "foobar");
    assert_eq!(accept_series("FOO  ", "FooBar "), rejected);
}

#[test]
fn acceptance_ignores_case_beyond_ascii() {
    assert!(accept_series("étoile", "étoile"));
    assert_eq!(accept_series("Étoile", "étoile"), accept_series("étoile", "Étoile"));
    assert!(accept_series("Étoile", "étoile"));
}

#[test]
fn match_score_reports_the_prefix_distance() {
    // One space removed on a 32-character candidate: distance 2.
    assert_eq!(
        match_score(
            "hitoribocchi no marumaru seikatsu",
            "hitoribocchi no marumaruseikatsu"
        ),
        Some((2, 32))
    );
    assert_eq!(match_score("foobar", "foobar"), Some((0, 6)));
    // The near-prefix rule rejects these by their lengths alone.
    assert_eq!(match_score("foo", "foobar"), None);
    assert_eq!(match_score("foo", ""), None);
}

#[test]
fn normalization_lowercases_and_trims() {
    let n = normalize("  Some Show 2\t ");
    let expected: Vec<char> = "  some show 2".chars().collect();
    assert_eq!(n, expected);
}
