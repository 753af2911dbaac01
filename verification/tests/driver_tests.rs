use watchsync::date::parse_date;
use watchsync::driver::process_entry;
use watchsync::driver::reconcile;
use watchsync::driver::mark_plan;
use watchsync::driver::EpisodeData;
use watchsync::driver::MarkCall;
use watchsync::driver::SeasonData;
use watchsync::driver::SeriesData;
use watchsync::driver::scan_season;
use watchsync::driver::TreatedSet;
use watchsync::matcher::SeasonScan;
use watchsync::tracker::TrackerEntry;

fn day(s: &str) -> i64 {
    parse_date(s).unwrap().day_number()
}

fn entry(title: &str, watched: u32, start: Option<&str>) -> TrackerEntry {
    TrackerEntry {
        title: title.to_string(),
        alt_title_en: None,
        start_date: start.map(|s| s.to_string()),
        watched,
    }
}

fn episodes(prefix: &str, count: u32, first_day: i64) -> Vec<EpisodeData> {
    let mut v = Vec::new();
    for i in 0..count {
        v.push(EpisodeData {
            id: format!("{}-{}", prefix, i + 1),
            number: Some(i + 1),
            air_day: first_day + 7 * (i as i64),
        });
    }
    v
}

fn season(id: &str, title: &str, total: u32, first_day: i64) -> SeasonData {
    SeasonData {
        id: id.to_string(),
        title: title.to_string(),
        number_of_episodes: total,
        episodes: episodes(id, total, first_day),
    }
}

#[test]
fn fully_watched_season_gets_one_season_mark() {
    // A spacing discrepancy between the two services, resolved by the fuzzy
    // near-prefix rule; the only season is matched by air-date proximity.
    let e = entry(
        "Hitoribocchi no Marumaru Seikatsu",
        12,
        Some("2019-04-05"),
    );
    let series = SeriesData {
        title: "Hitoribocchi no Marumaruseikatsu".to_string(),
        seasons: vec![season(
            "season-1",
            "Hitoribocchi no Marumaruseikatsu",
            12,
            day("2019-04-05"),
        )],
    };
    let out = reconcile(&vec![e], &vec![Some(series)]);
    assert_eq!(out.unresolved.len(), 0);
    assert_eq!(out.calls.len(), 1);
    assert!(out.calls[0].is_season());
    assert_eq!(out.calls[0].id().as_str(), "season-1");
}

#[test]
fn partially_watched_season_marks_only_watched_episodes() {
    let e = entry("bocchi", 3, Some("2019-04-05"));
    let series = SeriesData {
        title: "bocchi".to_string(),
        seasons: vec![season("s1", "bocchi", 12, day("2019-04-05"))],
    };
    let out = reconcile(&vec![e], &vec![Some(series)]);
    assert_eq!(out.unresolved.len(), 0);
    assert_eq!(out.calls.len(), 3);
    for (i, c) in out.calls.iter().enumerate() {
        assert!(!c.is_season());
        assert_eq!(c.id(), &format!("s1-{}", i + 1));
    }
}

#[test]
fn two_entries_pick_their_seasons_by_air_date() {
    // Both entries resolve to the same series; air-date proximity sends the
    // first to season A and the second to season B, and neither is marked
    // twice.
    let e1 = entry("s", 12, Some("2019-04-05"));
    let e2 = entry("s", 12, Some("2019-10-05"));
    let make_series = || SeriesData {
        title: "s".to_string(),
        seasons: vec![
            season("season-a", "s one", 12, day("2019-04-05")),
            season("season-b", "s two", 12, day("2019-10-05")),
        ],
    };
    let out = reconcile(
        &vec![e1, e2],
        &vec![Some(make_series()), Some(make_series())],
    );
    assert_eq!(out.unresolved.len(), 0);
    assert_eq!(out.calls.len(), 2);
    assert!(out.calls[0].is_season());
    assert_eq!(out.calls[0].id().as_str(), "season-a");
    assert!(out.calls[1].is_season());
    assert_eq!(out.calls[1].id().as_str(), "season-b");
}

#[test]
fn a_treated_season_is_never_marked_twice() {
    // Two entries resolving to the same single season: the second finds it
    // treated and goes unresolved.
    let e1 = entry("show", 12, Some("2019-04-05"));
    let e2 = entry("show", 12, Some("2019-04-05"));
    let make_series = || SeriesData {
        title: "show".to_string(),
        seasons: vec![season("only", "show", 12, day("2019-04-05"))],
    };
    let out = reconcile(
        &vec![e1, e2],
        &vec![Some(make_series()), Some(make_series())],
    );
    assert_eq!(out.calls.len(), 1);
    assert_eq!(out.calls[0].id().as_str(), "only");
    assert_eq!(out.unresolved.len(), 1);
    assert_eq!(out.unresolved[0], "show");
}

#[test]
fn unresolved_entries_are_reported_by_query_title() {
    let no_candidate = entry("Ghost Show", 5, Some("2019-04-05"));
    let rejected = entry("foo", 5, Some("2019-04-05"));
    let reject_series = SeriesData {
        title: "foobar".to_string(),
        seasons: vec![season("x", "foobar", 5, day("2019-04-05"))],
    };
    let out = reconcile(
        &vec![no_candidate, rejected],
        &vec![None, Some(reject_series)],
    );
    assert_eq!(out.calls.len(), 0);
    assert_eq!(out.unresolved.len(), 2);
    assert_eq!(out.unresolved[0], "ghost show");
    assert_eq!(out.unresolved[1], "foo");
}

#[test]
fn a_past_window_episode_abandons_the_series() {
    // The first season's first episode airs far after the query date: the
    // whole series is abandoned, later seasons included, and the entry goes
    // unresolved.
    let e = entry("show", 12, Some("2019-04-05"));
    let series = SeriesData {
        title: "show".to_string(),
        seasons: vec![
            season("late", "show one", 12, day("2019-08-01")),
            season("later", "show two", 12, day("2019-04-05")),
        ],
    };
    let out = reconcile(&vec![e], &vec![Some(series)]);
    assert_eq!(out.calls.len(), 0);
    assert_eq!(out.unresolved.len(), 1);
}

#[test]
fn an_entry_without_a_date_matches_only_by_exact_title() {
    let undated = entry("show", 12, None);
    let series = SeriesData {
        title: "show".to_string(),
        seasons: vec![
            season("by-date", "show one", 12, day("2019-04-05")),
            season("by-title", "Show", 12, day("2019-10-05")),
        ],
    };
    let out = reconcile(&vec![undated], &vec![Some(series)]);
    assert_eq!(out.calls.len(), 1);
    assert_eq!(out.calls[0].id().as_str(), "by-title");
}

#[test]
fn episode_plan_skips_zero_and_beyond_watched_and_keeps_unnumbered() {
    let s = SeasonData {
        id: "s1".to_string(),
        title: "t".to_string(),
        number_of_episodes: 5,
        episodes: vec![
            EpisodeData { id: "zero".to_string(), number: Some(0), air_day: 0 },
            EpisodeData { id: "one".to_string(), number: Some(1), air_day: 0 },
            EpisodeData { id: "special".to_string(), number: None, air_day: 0 },
            EpisodeData { id: "two".to_string(), number: Some(2), air_day: 0 },
            EpisodeData { id: "five".to_string(), number: Some(5), air_day: 0 },
        ],
    };
    let plan = mark_plan(&s, 2);
    let ids: Vec<&str> = plan.iter().map(|c| c.id().as_str()).collect();
    assert_eq!(ids, vec!["one", "special", "two"]);
    for c in &plan {
        assert!(!c.is_season());
    }
}

#[test]
fn the_english_title_is_preferred_when_nonempty() {
    let e = TrackerEntry {
        title: "Japanese Title".to_string(),
        alt_title_en: Some("English Title".to_string()),
        start_date: Some("2019-04-05".to_string()),
        watched: 12,
    };
    let series = SeriesData {
        title: "english title".to_string(),
        seasons: vec![season("s1", "english title", 12, day("2019-04-05"))],
    };
    let mut treated = TreatedSet::new();
    let out = process_entry(&e, Some(&series), &mut treated);
    assert!(out.resolved);
    assert_eq!(out.calls.len(), 1);

    let empty_alt = TrackerEntry {
        title: "Japanese Title".to_string(),
        alt_title_en: Some(String::new()),
        start_date: Some("2019-04-05".to_string()),
        watched: 12,
    };
    let series2 = SeriesData {
        title: "japanese title".to_string(),
        seasons: vec![season("s2", "japanese title", 12, day("2019-04-05"))],
    };
    let mut treated2 = TreatedSet::new();
    let out2 = process_entry(&empty_alt, Some(&series2), &mut treated2);
    assert!(out2.resolved);
}

#[test]
fn treated_set_remembers_inserted_identifiers() {
    let mut t = TreatedSet::new();
    let id = "some-season".to_string();
    assert!(!t.contains(&id));
    t.insert(id.clone());
    assert!(t.contains(&id));
    assert!(!t.contains(&"other".to_string()));
}

#[test]
fn the_date_window_boundaries_are_exact() {
    let d = day("2019-04-05");
    let ep = |air_day: i64| EpisodeData { id: "e".to_string(), number: Some(1), air_day };

    // Exactly sixty days out, on either side, is still within the window.
    assert_eq!(scan_season(&vec![ep(d + 60)], d), SeasonScan::Accept);
    assert_eq!(scan_season(&vec![ep(d - 60)], d), SeasonScan::Accept);
    // Strictly past sixty days later: the series is abandoned.
    assert_eq!(scan_season(&vec![ep(d + 61)], d), SeasonScan::AbandonSeries);
    // Strictly more than sixty days earlier: outside the window, the walk
    // goes on.
    assert_eq!(scan_season(&vec![ep(d - 61)], d), SeasonScan::Reject);
    // An early episode does not abandon; a later one within the window wins.
    assert_eq!(scan_season(&vec![ep(d - 200), ep(d)], d), SeasonScan::Accept);
    assert_eq!(scan_season(&Vec::new(), d), SeasonScan::Reject);
}

#[test]
fn zero_numbered_skips_are_reported_with_the_season_title() {
    let e = entry("bocchi", 2, Some("2019-04-05"));
    let s = SeasonData {
        id: "s1".to_string(),
        title: "Bocchi".to_string(),
        number_of_episodes: 5,
        episodes: vec![
            EpisodeData { id: "zero".to_string(), number: Some(0), air_day: day("2019-04-05") },
            EpisodeData { id: "one".to_string(), number: Some(1), air_day: day("2019-04-05") },
            EpisodeData { id: "two".to_string(), number: Some(2), air_day: day("2019-04-12") },
        ],
    };
    let series = SeriesData { title: "bocchi".to_string(), seasons: vec![s] };
    let mut treated = TreatedSet::new();
    let out = process_entry(&e, Some(&series), &mut treated);
    assert!(out.resolved);
    assert_eq!(out.season_title.as_deref(), Some("Bocchi"));
    assert_eq!(out.zero_skipped, vec!["zero".to_string()]);
    assert_eq!(out.calls.len(), 2);

    // A season-level mark skips nothing episode by episode.
    let full = entry("bocchi", 3, Some("2019-04-05"));
    let s2 = SeasonData {
        id: "s2".to_string(),
        title: "bocchi".to_string(),
        number_of_episodes: 3,
        episodes: vec![
            EpisodeData { id: "zero2".to_string(), number: Some(0), air_day: day("2019-04-05") },
        ],
    };
    let series2 = SeriesData { title: "bocchi".to_string(), seasons: vec![s2] };
    let mut treated2 = TreatedSet::new();
    let out2 = process_entry(&full, Some(&series2), &mut treated2);
    assert!(out2.resolved);
    assert_eq!(out2.zero_skipped.len(), 0);
}

#[test]
fn season_calls_carry_their_kind_and_identifier() {
    let c = MarkCall::Season("a".to_string());
    assert!(c.is_season());
    assert_eq!(c.id().as_str(), "a");
    let c = MarkCall::Episode("b".to_string());
    assert!(!c.is_season());
    assert_eq!(c.id().as_str(), "b");
}
