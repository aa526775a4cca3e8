use open_tv::catalog::Catalog;
use open_tv::error::Error;
use open_tv::media_type;
use open_tv::source_type;
use open_tv::types::Source;
use open_tv::xtream::{
    JsonScalar, XtreamCategory, XtreamFetch, XtreamStream, build_xtream_url, categories_by_id,
    convert_xtream_live_to_channel, get_cat_name, get_media_type_string, get_serde_json_number,
    get_serde_json_string, get_url, get_xtream,
};

fn xtream_source() -> Source {
    Source {
        id: None,
        name: "my-xtream".to_string(),
        url: Some("http://panel.example:8080/player_api.php".to_string()),
        url_origin: None,
        username: Some("user".to_string()),
        password: Some("pass".to_string()),
        source_type: source_type::XTREAM,
        use_tvg_id: None,
        enabled: true,
        user_agent: None,
        max_streams: None,
    }
}

fn stream(id: JsonScalar, name: &str, cat: JsonScalar) -> XtreamStream {
    XtreamStream {
        stream_id: id,
        name: Some(name.to_string()),
        category_id: cat,
        stream_icon: Some(" http://icon ".to_string()),
        series_id: JsonScalar::Other,
        cover: None,
        container_extension: None,
        tv_archive: JsonScalar::Num(1),
    }
}

fn category(id: JsonScalar, name: &str) -> XtreamCategory {
    XtreamCategory { category_id: id, category_name: name.to_string() }
}

#[test]
fn json_coercion() {
    assert_eq!(get_serde_json_string(&JsonScalar::Num(42)).as_deref(), Some("42"));
    assert_eq!(get_serde_json_string(&JsonScalar::Str(" 7 ".to_string())).as_deref(), Some("7"));
    assert_eq!(get_serde_json_string(&JsonScalar::Other), None);
    assert_eq!(get_serde_json_number(&JsonScalar::Str(" 42 ".to_string())), Some(42));
    assert_eq!(get_serde_json_number(&JsonScalar::Str("4x".to_string())), None);
    assert_eq!(get_serde_json_number(&JsonScalar::Num(9)), Some(9));
    assert_eq!(get_serde_json_number(&JsonScalar::Other), None);
}

#[test]
fn category_lookup_later_entry_wins() {
    let cats = categories_by_id(&vec![
        category(JsonScalar::Num(1), "One"),
        category(JsonScalar::Str("2".to_string()), "Two"),
        category(JsonScalar::Other, "Nobody"),
        category(JsonScalar::Str("1".to_string()), "Uno"),
    ]);
    assert_eq!(cats.len(), 3);
    assert_eq!(get_cat_name(&cats, Some("1".to_string())).as_deref(), Some("Uno"));
    assert_eq!(get_cat_name(&cats, Some("2".to_string())).as_deref(), Some("Two"));
    assert_eq!(get_cat_name(&cats, Some("3".to_string())), None);
    assert_eq!(get_cat_name(&cats, None), None);
}

#[test]
fn base_url_and_origin() {
    let mut s = xtream_source();
    let url = build_xtream_url(&mut s).unwrap();
    assert_eq!(s.url_origin.as_deref(), Some("http://panel.example:8080"));
    assert_eq!(url, "http://panel.example:8080/player_api.php?username=user&password=pass");
    let mut s = xtream_source();
    s.url = None;
    assert_eq!(build_xtream_url(&mut s), Err(Error::MissingUrl));
    let mut s = xtream_source();
    s.url = Some("not a url".to_string());
    assert_eq!(build_xtream_url(&mut s), Err(Error::InvalidUrl));
    let mut s = xtream_source();
    s.username = None;
    assert_eq!(build_xtream_url(&mut s), Err(Error::MissingUsername));
    let mut s = xtream_source();
    s.password = None;
    assert_eq!(build_xtream_url(&mut s), Err(Error::MissingPassword));
}

#[test]
fn playback_urls() {
    let mut s = xtream_source();
    build_xtream_url(&mut s).unwrap();
    assert_eq!(
        get_url("12".to_string(), &s, media_type::LIVESTREAM, None).unwrap(),
        "http://panel.example:8080/live/user/pass/12.ts"
    );
    assert_eq!(
        get_url("5".to_string(), &s, media_type::MOVIE, Some("mkv".to_string())).unwrap(),
        "http://panel.example:8080/movie/user/pass/5.mkv"
    );
    assert_eq!(get_media_type_string(9), Err(Error::InvalidStreamType));
    assert_eq!(get_media_type_string(media_type::SERIE).unwrap(), "series");
}

#[test]
fn stream_to_channel() {
    let mut s = xtream_source();
    build_xtream_url(&mut s).unwrap();
    s.id = Some(3);
    let c = convert_xtream_live_to_channel(
        stream(JsonScalar::Str("77".to_string()), " Live One ", JsonScalar::Num(1)),
        &s,
        media_type::LIVESTREAM,
        Some(" Sports ".to_string()),
    )
    .unwrap();
    assert_eq!(c.name, "Live One");
    assert_eq!(c.group.as_deref(), Some("Sports"));
    assert_eq!(c.image.as_deref(), Some("http://icon"));
    assert_eq!(c.url.as_deref(), Some("http://panel.example:8080/live/user/pass/77.ts"));
    assert_eq!(c.stream_id, Some(77));
    assert_eq!(c.tv_archive, Some(true));
    assert_eq!(c.source_id, Some(3));
    let mut series = stream(JsonScalar::Other, "Show", JsonScalar::Other);
    series.series_id = JsonScalar::Num(900);
    let c = convert_xtream_live_to_channel(series, &s, media_type::SERIE, None).unwrap();
    assert_eq!(c.url.as_deref(), Some("900"));
    let r = convert_xtream_live_to_channel(stream(JsonScalar::Other, "X", JsonScalar::Other), &s, media_type::MOVIE, None);
    assert_eq!(r, Err(Error::MissingStreamId));
    let mut nameless = stream(JsonScalar::Num(1), "X", JsonScalar::Other);
    nameless.name = None;
    assert_eq!(convert_xtream_live_to_channel(nameless, &s, media_type::MOVIE, None), Err(Error::NoName));
}

fn fetch(live_ok: bool, vods_ok: bool, series_ok: bool) -> XtreamFetch {
    let live = vec![stream(JsonScalar::Num(1), "L1", JsonScalar::Num(10)), stream(JsonScalar::Num(2), "L2", JsonScalar::Num(10))];
    let vods = vec![stream(JsonScalar::Num(3), "V1", JsonScalar::Num(20))];
    let mut s = stream(JsonScalar::Other, "S1", JsonScalar::Num(30));
    s.series_id = JsonScalar::Num(500);
    XtreamFetch {
        live: if live_ok { Ok(live) } else { Err(Error::Upstream) },
        live_cats: Ok(vec![category(JsonScalar::Num(10), "News")]),
        vods: Ok(vods),
        vod_cats: if vods_ok { Ok(vec![category(JsonScalar::Num(20), "Films")]) } else { Err(Error::Upstream) },
        series: if series_ok { Ok(vec![s]) } else { Err(Error::Upstream) },
        series_cats: Ok(vec![]),
    }
}

#[test]
fn one_failed_pipeline_still_commits_the_others() {
    let mut catalog = Catalog::new();
    get_xtream(&mut catalog, xtream_source(), fetch(true, false, true), false).unwrap();
    let names: Vec<&str> = catalog.channels.iter().map(|c| c.channel.name.as_str()).collect();
    assert_eq!(names, vec!["L1", "L2", "S1"]);
    assert_eq!(catalog.sources.len(), 1);
}

#[test]
fn two_failed_pipelines_still_commit_the_third() {
    let mut catalog = Catalog::new();
    get_xtream(&mut catalog, xtream_source(), fetch(false, false, true), false).unwrap();
    assert_eq!(catalog.channels.len(), 1);
}

#[test]
fn all_failed_pipelines_roll_back() {
    let mut catalog = Catalog::new();
    let r = get_xtream(&mut catalog, xtream_source(), fetch(false, false, false), false);
    assert_eq!(r, Err(Error::TooManyFailures));
    assert!(catalog.sources.is_empty());
    assert!(catalog.channels.is_empty());
}

#[test]
fn xtream_refresh_keeps_favorites() {
    let mut catalog = Catalog::new();
    get_xtream(&mut catalog, xtream_source(), fetch(true, true, true), false).unwrap();
    assert_eq!(catalog.channels.len(), 4);
    let v1 = catalog.channels.iter().find(|c| c.channel.name == "V1").unwrap().id;
    catalog.favorite_channel(v1, true);
    let mut s = xtream_source();
    s.id = catalog.sources[0].id;
    get_xtream(&mut catalog, s, fetch(true, true, false), true).unwrap();
    assert_eq!(catalog.channels.len(), 3);
    assert!(catalog.channels.iter().find(|c| c.channel.name == "V1").unwrap().channel.favorite);
    let groups: Vec<&str> = catalog.groups.iter().map(|g| g.name.as_str()).collect();
    assert_eq!(groups, vec!["News", "Films"]);
}
