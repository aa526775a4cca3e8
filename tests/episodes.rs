use open_tv::catalog::Catalog;
use open_tv::episodes::{XtreamEpisode, get_episodes, plan_episodes, sort_episodes};
use open_tv::error::Error;
use open_tv::media_type;
use open_tv::source_type;
use open_tv::types::{Channel, Source};
use open_tv::xtream::JsonScalar;

fn episode(id: &str, title: &str, season: JsonScalar, num: JsonScalar) -> XtreamEpisode {
    XtreamEpisode {
        id: id.to_string(),
        title: title.to_string(),
        container_extension: "mkv".to_string(),
        episode_num: num,
        season,
        image: None,
    }
}

fn panel(id: Option<i64>) -> Source {
    Source {
        id,
        name: "panel".to_string(),
        url: Some("http://panel.example/player_api.php".to_string()),
        url_origin: Some("http://panel.example".to_string()),
        username: Some("u".to_string()),
        password: Some("p".to_string()),
        source_type: source_type::XTREAM,
        use_tvg_id: None,
        enabled: true,
        user_agent: None,
        max_streams: None,
    }
}

#[test]
fn episodes_sort_by_season_then_number() {
    let sorted = sort_episodes(vec![
        episode("1", "s2e1", JsonScalar::Num(2), JsonScalar::Num(1)),
        episode("2", "s1e2", JsonScalar::Str("1".to_string()), JsonScalar::Num(2)),
        episode("3", "none", JsonScalar::Other, JsonScalar::Num(5)),
        episode("4", "s1e1", JsonScalar::Num(1), JsonScalar::Str("1".to_string())),
    ]);
    let titles: Vec<&str> = sorted.iter().map(|e| e.title.as_str()).collect();
    assert_eq!(titles, vec!["none", "s1e1", "s1e2", "s2e1"]);
}

#[test]
fn episodes_are_stored_with_seasons() {
    let mut catalog = Catalog::new();
    let source = panel(Some(1));
    get_episodes(
        &mut catalog,
        &source,
        77,
        vec![
            episode("10", " Pilot ", JsonScalar::Num(1), JsonScalar::Num(1)),
            episode("11", "Second", JsonScalar::Num(1), JsonScalar::Num(2)),
            episode("12", "Extra", JsonScalar::Other, JsonScalar::Other),
        ],
    )
    .unwrap();
    assert_eq!(catalog.channels.len(), 3);
    assert_eq!(catalog.seasons.len(), 2);
    let names: Vec<&str> = catalog.seasons.iter().map(|s| s.name.as_str()).collect();
    assert_eq!(names, vec!["Uncategorized", "Season 1"]);
    let pilot = catalog.channels.iter().find(|c| c.channel.name == "Pilot").unwrap();
    assert_eq!(pilot.channel.url.as_deref(), Some("http://panel.example/series/u/p/10.mkv"));
    assert_eq!(pilot.channel.series_id, Some(77));
    assert_eq!(pilot.channel.media_type, media_type::MOVIE);
    assert_eq!(pilot.channel.episode_num, Some(1));
    let season_one = catalog.seasons.iter().find(|s| s.season_number == 1).unwrap();
    assert_eq!(pilot.channel.season_id, season_one.id);
}

#[test]
fn episodes_need_a_usable_source() {
    let mut catalog = Catalog::new();
    assert_eq!(get_episodes(&mut catalog, &panel(None), 1, vec![]), Err(Error::NoSourceId));
    let mut s = panel(Some(1));
    s.url_origin = None;
    assert_eq!(get_episodes(&mut catalog, &s, 1, vec![]), Err(Error::InvalidUrl));
    assert!(catalog.seasons.is_empty());
}

fn series_channel(url: Option<&str>, source_id: Option<i64>) -> Channel {
    Channel {
        id: None,
        name: "Show".to_string(),
        url: url.map(|u| u.to_string()),
        group: None,
        image: None,
        media_type: media_type::SERIE,
        source_id,
        series_id: None,
        group_id: None,
        favorite: false,
        stream_id: None,
        tv_archive: None,
        season_id: None,
        episode_num: None,
    }
}

#[test]
fn episode_fetch_is_skipped_when_stored() {
    let mut catalog = Catalog::new();
    let show = series_channel(Some("77"), Some(1));
    assert_eq!(plan_episodes(&catalog, &show), Ok(Some(77)));
    get_episodes(&mut catalog, &panel(Some(1)), 77, vec![episode("1", "E", JsonScalar::Num(1), JsonScalar::Num(1))]).unwrap();
    assert_eq!(plan_episodes(&catalog, &show), Ok(None));
    assert_eq!(plan_episodes(&catalog, &series_channel(None, Some(1))), Err(Error::MissingUrl));
    assert_eq!(plan_episodes(&catalog, &series_channel(Some("x"), Some(1))), Err(Error::InvalidNumber));
    assert_eq!(plan_episodes(&catalog, &series_channel(Some("5"), None)), Err(Error::NoSourceId));
}

#[test]
fn episodes_link_to_named_seasons() {
    let mut catalog = Catalog::new();
    let source = panel(Some(1));
    get_episodes(
        &mut catalog,
        &source,
        5,
        vec![
            episode("20", "B", JsonScalar::Num(12), JsonScalar::Num(1)),
            episode("21", "A", JsonScalar::Other, JsonScalar::Num(1)),
        ],
    )
    .unwrap();
    for row in &catalog.channels {
        let season = catalog.seasons.iter().find(|s| s.id == row.channel.season_id).unwrap();
        let expected = if row.channel.name == "B" { "Season 12" } else { "Uncategorized" };
        assert_eq!(season.name, expected);
        assert_eq!(season.series_id, 5);
        assert_eq!(season.source_id, 1);
    }
    assert_eq!(catalog.channels.len(), 2);
    let order: Vec<&str> = catalog.channels.iter().map(|c| c.channel.name.as_str()).collect();
    assert_eq!(order, vec!["A", "B"]);
}
