use open_tv::catalog::{Catalog, channel_headers_empty, get_custom_source};
use open_tv::m3u::read_m3u8;
use open_tv::settings::{get_settings, update_settings};
use open_tv::source_type;
use open_tv::types::{Channel, EPGNotify, Season, Settings, Source};

fn source(name: &str) -> Source {
    Source {
        id: None,
        name: name.to_string(),
        url: None,
        url_origin: None,
        username: None,
        password: None,
        source_type: source_type::M3U,
        use_tvg_id: None,
        enabled: true,
        user_agent: None,
        max_streams: None,
    }
}

fn lines(text: &[&str]) -> Vec<String> {
    text.iter().map(|l| l.to_string()).collect()
}

#[test]
fn custom_source_shape() {
    let s = get_custom_source("Mine".to_string());
    assert_eq!(s.name, "Mine");
    assert_eq!(s.source_type, source_type::CUSTOM);
    assert!(s.enabled);
    assert!(s.id.is_none() && s.url.is_none());
}

#[test]
fn sources_listing_and_lookup() {
    let mut catalog = Catalog::new();
    read_m3u8(&mut catalog, &source("a"), &lines(&["#EXTINF:-1,X", "http://x"]), false).unwrap();
    read_m3u8(&mut catalog, &source("a"), &lines(&["#EXTINF:-1,Y", "http://y"]), false).unwrap();
    let mut b = source("b");
    b.enabled = false;
    read_m3u8(&mut catalog, &b, &lines(&[]), false).unwrap();
    assert!(catalog.sources[1].enabled);
    catalog.sources[1].enabled = false;
    assert_eq!(catalog.get_sources().len(), 2);
    let enabled = catalog.get_enabled_sources();
    assert_eq!(enabled.len(), 1);
    assert_eq!(enabled[0].name, "a");
    let id = enabled[0].id.unwrap();
    assert_eq!(catalog.get_channel_count_by_source(id), 2);
    assert_eq!(catalog.get_source_from_id(id).unwrap().name, "a");
    assert!(catalog.get_source_from_id(999).is_err());
}

#[test]
fn backup_and_drop() {
    let mut catalog = Catalog::new();
    read_m3u8(&mut catalog, &source("a"), &lines(&["#EXTINF:-1,X", "http://x", "#EXTINF:-1,Y", "http://y"]), false).unwrap();
    let id = catalog.sources[0].id.unwrap();
    let x = catalog.channels[0].id;
    catalog.favorite_channel(x, true);
    let backup = catalog.backup_favs(id);
    assert_eq!(backup.len(), 1);
    assert_eq!(backup[0].name, "X");
    assert!(backup[0].favorite);
    catalog.drop_db();
    assert!(catalog.channels.is_empty() && catalog.sources.is_empty() && catalog.groups.is_empty());
}

#[test]
fn old_reminders_are_cleaned() {
    let mut catalog = Catalog::new();
    for (id, ts) in [("a", 10), ("b", 50), ("c", 100)] {
        catalog.add_epg(EPGNotify {
            epg_id: id.to_string(),
            title: id.to_string(),
            start_timestamp: ts,
            channel_name: "ch".to_string(),
        });
    }
    catalog.clean_epgs(50);
    let ids: Vec<&str> = catalog.epgs.iter().map(|e| e.epg_id.as_str()).collect();
    assert_eq!(ids, vec!["b", "c"]);
}

#[test]
fn settings_round_trip() {
    let settings = Settings {
        recording_path: Some("/videos".to_string()),
        mpv_params: None,
        use_stream_caching: Some(true),
        default_view: Some(2),
        volume: Some(80),
        refresh_on_start: Some(false),
        restream_port: Some(3000),
        enable_tray_icon: None,
        zoom: Some(110),
        default_sort: None,
        enable_hwdec: Some(true),
        always_ask_save: None,
        enable_gpu: Some(false),
    };
    let pairs = update_settings(settings.clone());
    assert!(pairs.contains(&("volume".to_string(), "80".to_string())));
    assert!(pairs.contains(&("useStreamingCaching".to_string(), "true".to_string())));
    assert_eq!(pairs.len(), 9);
    assert_eq!(get_settings(&pairs), settings);
}

#[test]
fn settings_parse_failures_read_as_unset() {
    let pairs = vec![
        ("volume".to_string(), "300".to_string()),
        ("zoom".to_string(), "abc".to_string()),
        ("enableGPU".to_string(), "yes".to_string()),
        ("defaultView".to_string(), "1".to_string()),
        ("defaultView".to_string(), "3".to_string()),
    ];
    let s = get_settings(&pairs);
    assert_eq!(s.volume, None);
    assert_eq!(s.zoom, None);
    assert_eq!(s.enable_gpu, None);
    assert_eq!(s.default_view, Some(3));
}

fn custom_channel(name: &str, url: &str, source_id: i64, referrer: Option<&str>) -> open_tv::types::CustomChannel {
    open_tv::types::CustomChannel {
        data: open_tv::types::Channel {
            id: None,
            name: name.to_string(),
            url: Some(url.to_string()),
            group: None,
            image: None,
            media_type: open_tv::media_type::LIVESTREAM,
            source_id: Some(source_id),
            series_id: None,
            group_id: None,
            favorite: false,
            stream_id: None,
            tv_archive: None,
            season_id: None,
            episode_num: None,
        },
        headers: Some(open_tv::types::ChannelHttpHeaders {
            id: None,
            channel_id: None,
            referrer: referrer.map(|r| r.to_string()),
            user_agent: None,
            http_origin: None,
            ignore_ssl: None,
        }),
    }
}

#[test]
fn custom_channels_and_headers() {

    let mut catalog = Catalog::new();
    catalog.add_custom_channel(custom_channel("Mine", "http://m", 5, Some("http://ref")));
    catalog.add_custom_channel(custom_channel("Bare", "http://b", 5, None));
    assert_eq!(catalog.channels.len(), 2);
    assert_eq!(catalog.headers.len(), 1);
    assert!(catalog.channel_exists("Mine", "http://m", 5));
    assert!(!catalog.channel_exists("Mine", "http://other", 5));
    let mine = catalog.channels[0].id;
    let extra = catalog.get_custom_channel_extra_data(mine, None);
    assert_eq!(extra.headers.unwrap().referrer.as_deref(), Some("http://ref"));
    assert!(extra.group.is_none());
    assert!(catalog.get_channel_headers_by_id(catalog.channels[1].id).is_none());
    assert!(channel_headers_empty(&open_tv::types::ChannelHttpHeaders::empty()));
    catalog.delete_custom_channel(mine);
    assert_eq!(catalog.channels.len(), 1);
    assert!(!catalog.channel_exists("Mine", "http://m", 5));
}

#[test]
fn groups_by_name_and_id() {
    let mut catalog = Catalog::new();
    read_m3u8(&mut catalog, &source("a"), &lines(&[r#"#EXTINF:-1 group-title="News",X"#, "http://x"]), false).unwrap();
    let sid = catalog.sources[0].id.unwrap();
    assert!(catalog.group_exists("News", sid));
    assert!(!catalog.group_exists("News", sid + 100));
    let gid = catalog.groups[0].id.unwrap();
    assert_eq!(catalog.get_group_by_id(gid).unwrap().name, "News");
    let extra = catalog.get_custom_channel_extra_data(catalog.channels[0].id, Some(gid));
    assert_eq!(extra.group.unwrap().name, "News");
}

#[test]
fn listed_sources_carry_no_origin() {
    let mut catalog = Catalog::new();
    read_m3u8(&mut catalog, &source("a"), &lines(&[]), false).unwrap();
    catalog.sources[0].url_origin = Some("http://origin".to_string());
    assert_eq!(catalog.get_enabled_sources()[0].url_origin, None);
    assert_eq!(catalog.get_sources()[0].url_origin, None);
    assert_eq!(catalog.get_enabled_sources()[0].name, "a");
}

#[test]
fn season_insert_overwrites_name_and_image() {
    let mut catalog = Catalog::new();
    let season = |name: &str, number: i64, image: Option<&str>| Season {
        id: None,
        name: name.to_string(),
        season_number: number,
        image: image.map(|i| i.to_string()),
        series_id: 9,
        source_id: 1,
    };
    let first = catalog.insert_season(season("Season 1", 1, None));
    let other = catalog.insert_season(season("Season 2", 2, None));
    let again = catalog.insert_season(season("First", 1, Some("img")));
    assert_eq!(first, again);
    assert_ne!(first, other);
    assert_eq!(catalog.seasons.len(), 2);
    assert_eq!(catalog.seasons[0].name, "First");
    assert_eq!(catalog.seasons[0].image.as_deref(), Some("img"));
    assert_eq!(catalog.seasons[1].name, "Season 2");
}

#[test]
fn group_ids_through_the_cache() {
    let mut catalog = Catalog::new();
    let mut cache: Vec<(String, i64)> = Vec::new();
    let mut channel = Channel {
        id: None,
        name: "c".to_string(),
        url: Some("http://c".to_string()),
        group: None,
        image: None,
        media_type: 0,
        source_id: Some(1),
        series_id: None,
        group_id: None,
        favorite: false,
        stream_id: None,
        tv_archive: None,
        season_id: None,
        episode_num: None,
    };
    catalog.set_channel_group_id(&mut cache, &mut channel, 1);
    assert!(cache.is_empty() && catalog.groups.is_empty() && channel.group_id.is_none());
    channel.group = Some("News".to_string());
    catalog.set_channel_group_id(&mut cache, &mut channel, 1);
    let id = channel.group_id.unwrap();
    assert_eq!(cache, vec![("News".to_string(), id)]);
    assert_eq!(catalog.groups.len(), 1);
    let mut second = channel.clone();
    second.group_id = None;
    catalog.set_channel_group_id(&mut cache, &mut second, 1);
    assert_eq!(second.group_id, Some(id));
    assert_eq!(catalog.groups.len(), 1);
}
