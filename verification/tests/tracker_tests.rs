use watchsync::tracker::Ingest;
use watchsync::tracker::RawItem;
use watchsync::tracker::entry_air_day;
use watchsync::tracker::TrackerEntry;
use watchsync::date::parse_date;

fn item(title: &str, watched: Option<u32>) -> RawItem {
    RawItem {
        title: title.to_string(),
        alt_title_en: None,
        start_date: None,
        status_watched: watched,
    }
}

fn page(prefix: &str, count: usize) -> Vec<RawItem> {
    let mut v = Vec::new();
    for i in 0..count {
        v.push(item(&format!("{}{}", prefix, i), Some(1)));
    }
    v
}

#[test]
fn pagination_reads_three_pages_with_advancing_offsets() {
    let mut ing = Ingest::new();
    assert_eq!(ing.offset, 0);
    assert!(!ing.done);

    ing.ingest_page(&page("a", 1000));
    assert_eq!(ing.offset, 1000);
    assert!(!ing.done);

    ing.ingest_page(&page("b", 1000));
    assert_eq!(ing.offset, 2000);
    assert!(!ing.done);

    ing.ingest_page(&page("c", 300));
    assert_eq!(ing.offset, 3000);
    assert!(ing.done);

    let list = ing.finish();
    assert_eq!(list.len(), 2300);
}

#[test]
fn entries_without_status_or_watch_progress_are_dropped() {
    let mut ing = Ingest::new();
    let items = vec![
        item("watched", Some(3)),
        item("statusless", None),
        item("unwatched", Some(0)),
        item("watched once", Some(1)),
    ];
    ing.ingest_page(&items);
    assert!(ing.done);
    let list = ing.finish();
    assert_eq!(list.len(), 2);
    for e in &list {
        assert!(e.watched >= 1);
    }
}

#[test]
fn finish_reverses_the_accumulated_list() {
    let mut ing = Ingest::new();
    ing.ingest_page(&vec![item("first", Some(1)), item("second", Some(2))]);
    let list = ing.finish();
    assert_eq!(list[0].title, "second");
    assert_eq!(list[1].title, "first");
}

#[test]
fn remote_error_keeps_the_partial_list() {
    let mut ing = Ingest::new();
    ing.ingest_page(&page("a", 1000));
    ing.ingest_error();
    assert!(ing.done);
    assert_eq!(ing.offset, 2000);
    let list = ing.finish();
    assert_eq!(list.len(), 1000);
}

#[test]
fn entry_air_day_follows_the_parsed_date() {
    let entry = TrackerEntry {
        title: "t".to_string(),
        alt_title_en: None,
        start_date: Some("2019-04-05".to_string()),
        watched: 1,
    };
    let expected = parse_date("2019-04-05").unwrap().day_number();
    assert_eq!(entry_air_day(&entry), Some(expected));

    let undated = TrackerEntry {
        title: "t".to_string(),
        alt_title_en: None,
        start_date: None,
        watched: 1,
    };
    assert_eq!(entry_air_day(&undated), None);
}
