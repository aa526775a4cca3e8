use open_tv::catalog::Catalog;
use open_tv::error::Error;
use open_tv::media_type;
use open_tv::source_type;
use open_tv::stalker::{
    categories_url, create_stream, genres_url, handshake_url, ordered_list_url,
    StalkerFetch, StalkerGenre, StalkerItem, collect_pages, get_stalker, page_count,
    stalker_to_channel, stalker_type_to_otv_type,
};
use open_tv::stalker_type;
use open_tv::types::Source;

fn item(name: &str, genre: Option<&str>, category: Option<&str>) -> StalkerItem {
    StalkerItem {
        name: name.to_string(),
        cmd: format!("ffrt http://portal/{name}"),
        tv_genre_id: genre.map(|g| g.to_string()),
        category_id: category.map(|c| c.to_string()),
        logo: None,
        screenshot_uri: Some("http://shot".to_string()),
        enable_tv_archive: Some(1),
        tv_archive_duration: None,
    }
}

fn portal() -> Source {
    Source {
        id: None,
        name: "portal".to_string(),
        url: Some("http://portal/stalker_portal/server/load.php".to_string()),
        url_origin: None,
        username: Some("00:1A:79:00:00:01".to_string()),
        password: None,
        source_type: source_type::STALKER,
        use_tvg_id: None,
        enabled: true,
        user_agent: None,
        max_streams: None,
    }
}

fn genre(id: &str, title: &str) -> StalkerGenre {
    StalkerGenre { id: id.to_string(), title: title.to_string() }
}

#[test]
fn type_mapping() {
    assert_eq!(stalker_type_to_otv_type(stalker_type::LIVE), media_type::LIVESTREAM);
    assert_eq!(stalker_type_to_otv_type(stalker_type::VOD), media_type::MOVIE);
    assert_eq!(stalker_type_to_otv_type(stalker_type::SERIES), media_type::SERIE);
    assert_eq!(stalker_type_to_otv_type("radio"), media_type::LIVESTREAM);
}

#[test]
fn pages() {
    assert_eq!(page_count(10, 3), 4);
    assert_eq!(page_count(9, 3), 3);
    assert_eq!(page_count(0, 14), 0);
    assert_eq!(page_count(5, 0), 1);
    assert_eq!(page_count(u32::MAX, 2), 2_147_483_648);
}

#[test]
fn failed_pages_are_dropped() {
    let items = collect_pages(vec![
        Ok(vec![item("a", None, None)]),
        Err(Error::Upstream),
        Ok(vec![item("b", None, None), item("c", None, None)]),
    ]);
    let names: Vec<&str> = items.iter().map(|i| i.name.as_str()).collect();
    assert_eq!(names, vec!["a", "b", "c"]);
}

#[test]
fn item_to_channel() {
    let c = stalker_to_channel(item("News", Some("5"), None), Some("World".to_string()), stalker_type::VOD, 4);
    assert_eq!(c.name, "News");
    assert_eq!(c.url.as_deref(), Some("ffrt http://portal/News"));
    assert_eq!(c.image.as_deref(), Some("http://shot"));
    assert_eq!(c.media_type, media_type::MOVIE);
    assert_eq!(c.tv_archive, Some(true));
    assert_eq!(c.group.as_deref(), Some("World"));
    assert_eq!(c.source_id, Some(4));
}

fn fetched(vods: Result<Vec<StalkerItem>, Error>) -> StalkerFetch {
    StalkerFetch {
        live_cats: Ok(vec![genre("1", "News")]),
        vod_cats: Ok(vec![genre("2", "Films")]),
        series_cats: Ok(vec![]),
        lives: Ok(vec![item("L", Some("1"), None)]),
        vods,
        series: Ok(vec![item("S", None, Some("9"))]),
    }
}

#[test]
fn portal_ingestion() {
    let mut catalog = Catalog::new();
    get_stalker(&mut catalog, &portal(), fetched(Ok(vec![item("V", None, Some("2"))])), false).unwrap();
    assert_eq!(catalog.channels.len(), 3);
    let groups: Vec<&str> = catalog.groups.iter().map(|g| g.name.as_str()).collect();
    assert_eq!(groups, vec!["News", "Films"]);
    let s = catalog.channels.iter().find(|c| c.channel.name == "S").unwrap();
    assert_eq!(s.channel.group, None);
}

#[test]
fn portal_errors() {
    let mut catalog = Catalog::new();
    let r = get_stalker(&mut catalog, &portal(), fetched(Err(Error::Upstream)), false);
    assert_eq!(r, Err(Error::Upstream));
    assert!(catalog.sources.is_empty());
    let mut no_mac = portal();
    no_mac.username = None;
    assert_eq!(get_stalker(&mut catalog, &no_mac, fetched(Ok(vec![])), false), Err(Error::MissingUsername));
    let mut no_url = portal();
    no_url.url = None;
    assert_eq!(get_stalker(&mut catalog, &no_url, fetched(Ok(vec![])), false), Err(Error::MissingUrl));
    assert_eq!(get_stalker(&mut catalog, &portal(), fetched(Ok(vec![])), true), Err(Error::NoSourceId));
}

#[test]
fn portal_request_urls() {
    let base = "http://portal/stalker_portal/server/load.php";
    assert_eq!(
        handshake_url(base, "00:1A").unwrap(),
        format!("{base}?mac=00%3A1A&type=stb&action=handshake")
    );
    assert_eq!(
        ordered_list_url(base, "vod", 3, "tok", "m").unwrap(),
        format!("{base}?type=vod&token=tok&mac=m&p=3&action=get_ordered_list")
    );
    assert_eq!(
        categories_url(base, "series", "tok", "m").unwrap(),
        format!("{base}?type=series&token=tok&mac=m&action=get_categories")
    );
    assert_eq!(genres_url(base, "tok", "m").unwrap(), format!("{base}?type=itv&token=tok&mac=m&action=get_genres"));
    assert_eq!(
        create_stream(base, "ffrt x", "m", "tok", Some(2)).unwrap(),
        format!("{base}?type=itv&mac=m&action=create_link&token=tok&cmd=ffrt+x&series=2")
    );
    assert_eq!(handshake_url("nope", "m"), Err(Error::InvalidUrl));
}

#[test]
fn portal_episode_request() {
    let base = "http://portal/load.php";
    assert_eq!(
        open_tv::stalker::episodes_url(base, "tok", "m", "12").unwrap(),
        format!("{base}?token=tok&mac=m&type=series&action=get_ordered_list&movie_id=12")
    );
}
