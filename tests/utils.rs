use open_tv::error::Error;
use open_tv::source_type;
use open_tv::types::Source;
use open_tv::utils::{
    RefreshAction, get_extension, get_filename, get_user_agent_from_source, refresh_action,
    sanitize,
};

#[test]
fn test_sanitize() {
    assert_eq!(
        "SuperShow Who will win the million".to_string(),
        sanitize("SuperShow: Who will win the million?".to_string())
    );
}

#[test]
fn sanitize_removes_control_and_path_chars() {
    assert_eq!(sanitize("a/b\\c<d>e|f*g\"h\u{1}".to_string()), "abcdefgh");
}

#[test]
fn extension_rules() {
    assert_eq!(get_extension("http://host/movie.mkv".to_string()), "mkv");
    assert_eq!(get_extension("http://host/get.php?id=1".to_string()), "mp4");
    assert_eq!(get_extension("noext".to_string()), "noext");
    assert_eq!(get_filename("Show: One?".to_string(), "http://h/x.avi".to_string()).unwrap(), "Show One.avi");
}

fn source(agent: Option<&str>) -> Source {
    Source {
        id: None,
        name: "s".to_string(),
        url: None,
        url_origin: None,
        username: None,
        password: None,
        source_type: source_type::M3U_LINK,
        use_tvg_id: None,
        enabled: true,
        user_agent: agent.map(|a| a.to_string()),
        max_streams: None,
    }
}

#[test]
fn user_agent_defaults() {
    assert_eq!(get_user_agent_from_source(&source(None)).unwrap(), "Fred TV");
    assert_eq!(get_user_agent_from_source(&source(Some("  "))).unwrap(), "Fred TV");
    assert_eq!(get_user_agent_from_source(&source(Some("VLC"))).unwrap(), "VLC");
}

#[test]
fn refresh_dispatch() {
    assert_eq!(refresh_action(source_type::M3U), Ok(RefreshAction::ReadM3u));
    assert_eq!(refresh_action(source_type::M3U_LINK), Ok(RefreshAction::DownloadM3u));
    assert_eq!(refresh_action(source_type::XTREAM), Ok(RefreshAction::Xtream));
    assert_eq!(refresh_action(source_type::STALKER), Ok(RefreshAction::Stalker));
    assert_eq!(refresh_action(source_type::CUSTOM), Ok(RefreshAction::Skip));
    assert_eq!(refresh_action(42), Err(Error::InvalidSourceType));
}
