use open_tv::epg::{XtreamEPGItem, epg_from_times, get_epg, get_timeshift_url, get_timeshift_url_base, is_valid_epg, xtream_epg_to_epg};
use open_tv::error::Error;
use open_tv::source_type;
use open_tv::types::Source;

fn item(id: &str, start_ts: i64, archive: u8, playing: u8) -> XtreamEPGItem {
    XtreamEPGItem {
        id: id.to_string(),
        title: "SGVsbG8=".to_string(),
        description: "V29ybGQ=".to_string(),
        start_timestamp: start_ts.to_string(),
        stop_timestamp: (start_ts + 3600).to_string(),
        now_playing: playing,
        has_archive: archive,
        start: "2024-12-15 00:00:00".to_string(),
        end: "2024-12-15 01:30:00".to_string(),
    }
}

const BASE: &str = "http://panel.example/streaming/timeshift.php?username=u&password=p";

#[test]
fn timeshift_base() {
    let source = Source {
        id: Some(1),
        name: "p".to_string(),
        url: None,
        url_origin: Some("http://panel.example".to_string()),
        username: Some("u".to_string()),
        password: Some("p".to_string()),
        source_type: source_type::XTREAM,
        use_tvg_id: None,
        enabled: true,
        user_agent: None,
        max_streams: None,
    };
    assert_eq!(get_timeshift_url_base(&source).unwrap(), BASE);
    let mut no_origin = source.clone();
    no_origin.url_origin = None;
    assert_eq!(get_timeshift_url_base(&no_origin), Err(Error::InvalidUrl));
}

#[test]
fn timeshift_url_has_start_and_minutes() {
    let url = get_timeshift_url(BASE, "2024-12-15 00:00:00", "2024-12-15 01:30:00", "42").unwrap();
    assert_eq!(url, format!("{BASE}&stream=42&start=2024-12-15%3A00-00&duration=90"));
    assert_eq!(get_timeshift_url(BASE, "bad", "2024-12-15 01:30:00", "42"), Err(Error::InvalidTime));
}

#[test]
fn listing_entry_decodes() {
    let e = xtream_epg_to_epg(item("9", 1734217200, 1, 0), BASE, "42").unwrap();
    assert_eq!(e.title, "Hello");
    assert_eq!(e.description, "World");
    assert_eq!(e.start_timestamp, 1734217200);
    assert!(e.has_archive);
    assert!(e.timeshift_url.unwrap().ends_with("duration=90"));
    let mut bad = item("9", 0, 0, 0);
    bad.title = "@@@".to_string();
    assert_eq!(xtream_epg_to_epg(bad, BASE, "42"), Err(Error::InvalidText));
}

#[test]
fn past_entries_without_archive_are_dropped() {
    let now = 1_000_000;
    let entries = get_epg(
        vec![item("past", 10, 0, 0), item("archived", 10, 1, 0), item("playing", 10, 0, 1), item("future", 2_000_000, 0, 0)],
        BASE,
        "42",
        now,
    )
    .unwrap();
    let ids: Vec<&str> = entries.iter().map(|e| e.epg_id.as_str()).collect();
    assert_eq!(ids, vec!["archived", "playing", "future"]);
    assert!(entries.iter().all(|e| is_valid_epg(e, now)));
}

#[test]
fn entry_with_given_local_times() {
    let e = epg_from_times(item("7", 100, 0, 1), BASE, "42", Some("start".to_string()), Some("end".to_string())).unwrap();
    assert_eq!(e.epg_id, "7");
    assert_eq!(e.title, "Hello");
    assert_eq!(e.start_time, "start");
    assert_eq!(e.end_time, "end");
    assert_eq!(e.start_timestamp, 100);
    assert_eq!(e.stop_timestamp, 3700);
    assert!(e.now_playing && !e.has_archive);
    assert_eq!(e.timeshift_url, None);
    assert_eq!(
        epg_from_times(item("7", 100, 0, 0), BASE, "42", None, Some("end".to_string())),
        Err(Error::InvalidTime)
    );
}

#[test]
fn entry_errors_by_field() {
    let mut bad_description = item("1", 100, 0, 0);
    bad_description.description = "***".to_string();
    assert_eq!(xtream_epg_to_epg(bad_description, BASE, "42"), Err(Error::InvalidText));
    let mut bad_start = item("1", 100, 0, 0);
    bad_start.start_timestamp = "soon".to_string();
    assert_eq!(xtream_epg_to_epg(bad_start, BASE, "42"), Err(Error::InvalidNumber));
    let mut bad_stop = item("1", 100, 0, 0);
    bad_stop.stop_timestamp = "".to_string();
    assert_eq!(
        epg_from_times(bad_stop, BASE, "42", Some("s".to_string()), Some("e".to_string())),
        Err(Error::InvalidNumber)
    );
    let mut bad_archive = item("1", 100, 1, 0);
    bad_archive.end = "later".to_string();
    assert_eq!(
        epg_from_times(bad_archive, BASE, "42", Some("s".to_string()), Some("e".to_string())),
        Err(Error::InvalidTime)
    );
}

#[test]
fn running_entries_are_kept_until_they_end() {
    let now = 5_000;
    let entries = get_epg(vec![item("running", 3_000, 0, 0), item("over", 10, 0, 0)], BASE, "42", now).unwrap();
    let ids: Vec<&str> = entries.iter().map(|e| e.epg_id.as_str()).collect();
    assert_eq!(ids, vec!["running"]);
    let mut broken = item("broken", 10, 0, 0);
    broken.stop_timestamp = "x".to_string();
    assert_eq!(get_epg(vec![item("a", 10, 0, 0), broken], BASE, "42", now), Err(Error::InvalidNumber));
}
