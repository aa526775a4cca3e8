use open_tv::catalog::Catalog;
use open_tv::error::Error;
use open_tv::m3u::{get_channel_from_lines, get_media_type, read_m3u8};
use open_tv::media_type;
use open_tv::source_type;
use open_tv::tags::{get_name_from_line, resolve_name, set_http_headers};
use open_tv::types::{ChannelHttpHeaders, Source};

fn m3u_source(name: &str) -> Source {
    Source {
        id: None,
        name: name.to_string(),
        url: Some("/tmp/playlist.m3u".to_string()),
        url_origin: None,
        username: None,
        password: None,
        source_type: source_type::M3U,
        use_tvg_id: Some(true),
        enabled: true,
        user_agent: None,
        max_streams: Some(1),
    }
}

fn lines(text: &[&str]) -> Vec<String> {
    text.iter().map(|l| l.to_string()).collect()
}

fn channel_count(catalog: &Catalog, source_id: i64) -> u64 {
    catalog.get_channel_count_by_source(source_id)
}

fn find<'a>(catalog: &'a Catalog, name: &str) -> Option<&'a open_tv::catalog::StoredChannel> {
    catalog.channels.iter().find(|c| c.channel.name == name)
}

#[test]
fn test_get_channel_from_lines() {
    get_channel_from_lines(r#"#EXTINF:-1 tvg-id="Amazing Channel" tvg-name="Amazing Channel" tvg-logo="http://myurl.local/logos/amazing/amazing-1.png" group-title="The Best Channels"#.to_string()
       , r#"http://myurl.local/1234/1234/1234"#.to_string(), 0, Some(true)).unwrap();
    get_channel_from_lines(r#"#EXTINF:-1 tvg-id="Amazing Channel" tvg-name="" tvg-logo="http://myurl.local/logos/amazing/amazing-1.png" group-title="The Best Channels"#.to_string()
       , r#"http://myurl.local/1234/1234/1234"#.to_string(), 0, Some(true)).unwrap();
    assert!(get_channel_from_lines(r#"#EXTINF:-1 tvg-id="" tvg-name="" tvg-logo="http://myurl.local/logos/amazing/amazing-1.png" group-title="The Best Channels"#.to_string()
       , r#"http://myurl.local/1234/1234/1234"#.to_string(), 0, Some(true)).is_err());
    assert!(get_channel_from_lines(r#"#EXTINF:-1 tvg-id=" " tvg-name="" tvg-logo="http://myurl.local/logos/amazing/amazing-1.png" group-title="The Best Channels"#.to_string()
       , r#"http://myurl.local/1234/1234/1234"#.to_string(), 0, Some(true)).is_err());
    assert!(get_channel_from_lines(r#"#EXTINF:-1 tvg-id="Id Of Channel" tvg-name="Name Of Channel" tvg-logo="http://myurl.local/amazing/stuff.png" group-title="|EU| FRANCE HEVC",Alt Name Of Channel"#.to_string(), "http://myurl.local/1111/1111.ts".to_string(), 0, Some(true)).unwrap().name == "Name Of Channel");
    assert!(get_channel_from_lines(r#"#EXTINF:-1 tvg-id="Id Of Channel" tvg-name="" tvg-logo="http://myurl.local/amazing/stuff.png" group-title="|EU| FRANCE HEVC",Alt Name Of Channel"#.to_string(), "http://myurl.local/1111/1111.ts".to_string(), 0, Some(true)).unwrap().name == "Id Of Channel");
    assert!(get_channel_from_lines(r#"#EXTINF:-1 tvg-id="Id Of Channel" tvg-name="" tvg-logo="http://myurl.local/amazing/stuff.png" group-title="|EU| FRANCE HEVC",Alt Name Of Channel"#.to_string(), "http://myurl.local/1111/1111.ts".to_string(), 0, Some(false)).unwrap().name == "Alt Name Of Channel");
}

#[test]
fn channel_fields_are_trimmed() {
    let c = get_channel_from_lines(
        r#"#EXTINF:-1 tvg-name="  Spaced  " tvg-logo=" http://logo/x.png " group-title=" News ""#.to_string(),
        "   http://host/movie.mkv  ".to_string(),
        7,
        None,
    )
    .unwrap();
    assert_eq!(c.name, "Spaced");
    assert_eq!(c.url.as_deref(), Some("http://host/movie.mkv"));
    assert_eq!(c.group.as_deref(), Some("News"));
    assert_eq!(c.image.as_deref(), Some("http://logo/x.png"));
    assert_eq!(c.media_type, media_type::MOVIE);
    assert_eq!(c.source_id, Some(7));
}

#[test]
fn empty_url_line_is_an_error() {
    let r = get_channel_from_lines(r#"#EXTINF:-1 tvg-name="A""#.to_string(), "   ".to_string(), 0, None);
    assert_eq!(r.unwrap_err(), Error::EmptyUrlLine);
    let r = get_channel_from_lines(r#"#EXTINF:-1 tvg-name="""#.to_string(), "http://a".to_string(), 0, None);
    assert_eq!(r.unwrap_err(), Error::NoName);
}

#[test]
fn media_type_by_extension() {
    assert_eq!(get_media_type("foo.mp4".to_string()), media_type::MOVIE);
    assert_eq!(get_media_type("foo.mkv".to_string()), media_type::MOVIE);
    assert_eq!(get_media_type("foo.ts".to_string()), media_type::LIVESTREAM);
    assert_eq!(get_media_type("foo".to_string()), media_type::LIVESTREAM);
    assert_eq!(get_media_type("foo.mp4.m3u8".to_string()), media_type::LIVESTREAM);
    assert_eq!(get_media_type("".to_string()), media_type::LIVESTREAM);
}

#[test]
fn name_fallback_order() {
    assert_eq!(
        resolve_name(None, Some("id".to_string()), Some("alt".to_string()), Some(true)).as_deref(),
        Some("id")
    );
    assert_eq!(
        resolve_name(None, Some("id".to_string()), Some("alt".to_string()), None).as_deref(),
        Some("alt")
    );
    assert_eq!(
        resolve_name(Some("n".to_string()), Some("id".to_string()), None, Some(true)).as_deref(),
        Some("n")
    );
    assert_eq!(resolve_name(None, None, None, Some(false)), None);
    let line = r#"#EXTINF:-1 tvg-name="" tvg-id="The Id",Display"#;
    assert_eq!(get_name_from_line(line, Some(true)).as_deref(), Some("The Id"));
    assert_eq!(get_name_from_line(line, Some(false)).as_deref(), Some("Display"));
}

#[test]
fn header_directives() {
    let mut h = ChannelHttpHeaders::empty();
    assert!(set_http_headers("#EXTVLCOPT:http-referrer=http://ref", &mut h));
    assert_eq!(h.referrer.as_deref(), Some("http://ref"));
    assert!(set_http_headers("#EXTVLCOPT:http-user-agent=Agent 1", &mut h));
    assert_eq!(h.user_agent.as_deref(), Some("Agent 1"));
    assert!(!set_http_headers("#EXTVLCOPT:network-caching=1000", &mut h));
    assert!(set_http_headers("#EXTVLCOPT:http-origin=http://o", &mut h));
    assert_eq!(h.http_origin.as_deref(), Some("http://o"));
}

#[test]
fn parsed_channel_found_by_name_with_trimmed_url() {
    let mut catalog = Catalog::new();
    let playlist = lines(&[
        "#EXTM3U",
        r#"#EXTINF:-1 tvg-name="One" group-title="G",One"#,
        "  http://host/one.ts  ",
    ]);
    read_m3u8(&mut catalog, &m3u_source("s"), &playlist, false).unwrap();
    let row = find(&catalog, "One").unwrap();
    assert_eq!(row.channel.url.as_deref(), Some("http://host/one.ts"));
    assert!(row.channel.group_id.is_some());
    assert_eq!(catalog.groups.len(), 1);
}

#[test]
fn nameless_block_is_skipped_and_parsing_continues() {
    let mut catalog = Catalog::new();
    let playlist = lines(&[
        "#EXTM3U",
        r#"#EXTINF:-1 tvg-id="" tvg-name="" group-title="G""#,
        "http://host/bad.ts",
        "",
        r#"#extinf:-1 tvg-name="" tvg-id="Good""#,
        "#EXTVLCOPT:http-referrer=http://ref",
        "#EXTVLCOPT:unknown=1",
        "http://host/good.mp4",
    ]);
    read_m3u8(&mut catalog, &m3u_source("s"), &playlist, false).unwrap();
    assert_eq!(catalog.channels.len(), 1);
    let good = find(&catalog, "Good").unwrap();
    assert_eq!(good.channel.media_type, media_type::MOVIE);
    assert_eq!(catalog.headers.len(), 1);
    assert_eq!(catalog.headers[0].channel_id, Some(good.id));
    assert_eq!(catalog.headers[0].referrer.as_deref(), Some("http://ref"));
}

#[test]
fn block_without_url_line_is_skipped() {
    let mut catalog = Catalog::new();
    let playlist = lines(&[r#"#EXTINF:-1 tvg-name="A""#, r#"#EXTINF:-1 tvg-name="B""#, "http://b"]);
    read_m3u8(&mut catalog, &m3u_source("s"), &playlist, false).unwrap();
    assert_eq!(catalog.channels.len(), 1);
    assert!(find(&catalog, "B").is_some());
}

#[test]
fn wipe_without_source_id_fails() {
    let mut catalog = Catalog::new();
    let r = read_m3u8(&mut catalog, &m3u_source("s"), &lines(&["#EXTINF:-1,A", "http://a"]), true);
    assert_eq!(r, Err(Error::NoSourceId));
    assert!(catalog.channels.is_empty());
    assert!(catalog.sources.is_empty());
}

#[test]
fn rerun_with_wipe_keeps_count() {
    let mut catalog = Catalog::new();
    let playlist = lines(&[
        "#EXTINF:-1,A",
        "http://a",
        "#EXTINF:-1,B",
        "http://b",
        "#EXTINF:-1,A",
        "http://a",
    ]);
    let mut source = m3u_source("s");
    read_m3u8(&mut catalog, &source, &playlist, false).unwrap();
    let id = catalog.sources[0].id.unwrap();
    source.id = Some(id);
    let first = channel_count(&catalog, id);
    assert_eq!(first, 2);
    read_m3u8(&mut catalog, &source, &playlist, true).unwrap();
    assert_eq!(channel_count(&catalog, id), first);
    read_m3u8(&mut catalog, &source, &playlist, true).unwrap();
    assert_eq!(channel_count(&catalog, id), first);
}

#[test]
fn favorite_survives_refresh() {
    let mut catalog = Catalog::new();
    let mut source = m3u_source("s");
    read_m3u8(&mut catalog, &source, &lines(&["#EXTINF:-1,A", "http://a", "#EXTINF:-1,Z", "http://z"]), false).unwrap();
    source.id = catalog.sources[0].id;
    let a = find(&catalog, "A").unwrap().id;
    let z = find(&catalog, "Z").unwrap().id;
    catalog.favorite_channel(a, true);
    catalog.favorite_channel(z, true);
    read_m3u8(&mut catalog, &source, &lines(&["#EXTINF:-1,A", "http://a2"]), true).unwrap();
    assert!(find(&catalog, "A").unwrap().channel.favorite);
    assert!(find(&catalog, "Z").is_none());
}

#[test]
fn refresh_scenario_keeps_user_state_by_name() {
    let mut catalog = Catalog::new();
    let mut source = m3u_source("S");
    read_m3u8(
        &mut catalog,
        &source,
        &lines(&["#EXTINF:-1,A", "http://a", "#EXTINF:-1,B", "http://b", "#EXTINF:-1,C", "http://c"]),
        false,
    )
    .unwrap();
    source.id = catalog.sources[0].id;
    let a = find(&catalog, "A").unwrap().id;
    let c = find(&catalog, "C").unwrap().id;
    catalog.favorite_channel(a, true);
    catalog.add_last_watched(c, 100);
    read_m3u8(
        &mut catalog,
        &source,
        &lines(&["#EXTINF:-1,A", "http://a", "#EXTINF:-1,C", "http://c", "#EXTINF:-1,D", "http://d"]),
        true,
    )
    .unwrap();
    let a = find(&catalog, "A").unwrap();
    assert!(a.channel.favorite);
    let c = find(&catalog, "C").unwrap();
    assert_eq!(c.last_watched, Some(100));
    assert!(!c.channel.favorite);
    assert!(find(&catalog, "B").is_none());
    let d = find(&catalog, "D").unwrap();
    assert!(!d.channel.favorite);
    assert_eq!(d.last_watched, None);
    assert_eq!(catalog.get_channel_count_by_source(source.id.unwrap()), 3);
}

#[test]
fn other_sources_untouched_by_wipe() {
    let mut catalog = Catalog::new();
    read_m3u8(&mut catalog, &m3u_source("one"), &lines(&["#EXTINF:-1,A", "http://a"]), false).unwrap();
    read_m3u8(&mut catalog, &m3u_source("two"), &lines(&["#EXTINF:-1,A", "http://a"]), false).unwrap();
    assert_eq!(catalog.sources.len(), 2);
    let mut two = m3u_source("two");
    two.id = catalog.sources[1].id;
    read_m3u8(&mut catalog, &two, &lines(&[]), true).unwrap();
    assert_eq!(catalog.get_channel_count_by_source(catalog.sources[0].id.unwrap()), 1);
    assert_eq!(catalog.get_channel_count_by_source(two.id.unwrap()), 0);
    assert!(catalog.source_name_exists("two"));
    assert!(!catalog.source_name_exists("three"));
}

#[test]
fn header_rows_belong_to_their_blocks() {
    let mut catalog = Catalog::new();
    let playlist = lines(&[
        "#EXTM3U",
        r#"#EXTINF:-1 tvg-name="A",A"#,
        "#EXTVLCOPT:http-referrer=http://ref",
        "#EXTVLCOPT:http-referrer=http://ref2",
        "http://host/a.ts",
        r#"#EXTINF:-1 tvg-name="B",B"#,
        "#EXTVLCOPT:network-caching=1000",
        "http://host/b.ts",
        r#"#EXTINF:-1 tvg-name="C",C"#,
        "http://host/c.mp4",
    ]);
    read_m3u8(&mut catalog, &m3u_source("s"), &playlist, false).unwrap();
    assert_eq!(catalog.headers.len(), 1);
    let a = find(&catalog, "A").unwrap();
    assert_eq!(catalog.headers[0].channel_id, Some(a.id));
    assert_eq!(catalog.headers[0].referrer.as_deref(), Some("http://ref2"));
    let c = find(&catalog, "C").unwrap();
    assert_eq!(c.channel.media_type, media_type::MOVIE);
    assert_eq!(c.channel.image, None);
}
