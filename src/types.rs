//! The catalog's records and their mathematical views.
use crate::text::opt_view;
use vstd::prelude::*;

verus! {

/// A playable unit: a live stream, a movie, a series container or an episode.
#[derive(Clone, Debug, PartialEq)]
pub struct Channel {
    pub id: Option<i64>,
    pub name: String,
    pub url: Option<String>,
    pub group: Option<String>,
    pub image: Option<String>,
    pub media_type: u8,
    pub source_id: Option<i64>,
    pub series_id: Option<u64>,
    pub group_id: Option<i64>,
    pub favorite: bool,
    pub stream_id: Option<u64>,
    pub tv_archive: Option<bool>,
    pub season_id: Option<i64>,
    pub episode_num: Option<i64>,
}

pub ghost struct ChannelView {
    pub id: Option<i64>,
    pub name: Seq<char>,
    pub url: Option<Seq<char>>,
    pub group: Option<Seq<char>>,
    pub image: Option<Seq<char>>,
    pub media_type: u8,
    pub source_id: Option<i64>,
    pub series_id: Option<u64>,
    pub group_id: Option<i64>,
    pub favorite: bool,
    pub stream_id: Option<u64>,
    pub tv_archive: Option<bool>,
    pub season_id: Option<i64>,
    pub episode_num: Option<i64>,
}

impl View for Channel {
    type V = ChannelView;

    open spec fn view(&self) -> ChannelView {
        ChannelView {
            id: self.id,
            name: self.name@,
            url: opt_view(self.url),
            group: opt_view(self.group),
            image: opt_view(self.image),
            media_type: self.media_type,
            source_id: self.source_id,
            series_id: self.series_id,
            group_id: self.group_id,
            favorite: self.favorite,
            stream_id: self.stream_id,
            tv_archive: self.tv_archive,
            season_id: self.season_id,
            episode_num: self.episode_num,
        }
    }
}

/// The compound key under which a channel row is unique: name, source,
/// url, series and season.
pub ghost struct ChannelKey {
    pub name: Seq<char>,
    pub source_id: Option<i64>,
    pub url: Option<Seq<char>>,
    pub series_id: Option<u64>,
    pub season_id: Option<i64>,
}

impl ChannelView {
    pub open spec fn key(self) -> ChannelKey {
        ChannelKey {
            name: self.name,
            source_id: self.source_id,
            url: self.url,
            series_id: self.series_id,
            season_id: self.season_id,
        }
    }
}

/// A season of a series: unique by series, season number and source.
#[derive(Clone, Debug, PartialEq)]
pub struct Season {
    pub id: Option<i64>,
    pub name: String,
    pub season_number: i64,
    pub image: Option<String>,
    pub series_id: u64,
    pub source_id: i64,
}

pub ghost struct SeasonView {
    pub id: Option<i64>,
    pub name: Seq<char>,
    pub season_number: i64,
    pub image: Option<Seq<char>>,
    pub series_id: u64,
    pub source_id: i64,
}

impl View for Season {
    type V = SeasonView;

    open spec fn view(&self) -> SeasonView {
        SeasonView {
            id: self.id,
            name: self.name@,
            season_number: self.season_number,
            image: opt_view(self.image),
            series_id: self.series_id,
            source_id: self.source_id,
        }
    }
}

/// One configured provider.
#[derive(Clone, Debug, PartialEq)]
pub struct Source {
    pub id: Option<i64>,
    pub name: String,
    pub url: Option<String>,
    pub url_origin: Option<String>,
    pub username: Option<String>,
    pub password: Option<String>,
    pub source_type: u8,
    pub use_tvg_id: Option<bool>,
    pub enabled: bool,
    pub user_agent: Option<String>,
    pub max_streams: Option<u8>,
}

pub ghost struct SourceView {
    pub id: Option<i64>,
    pub name: Seq<char>,
    pub url: Option<Seq<char>>,
    pub url_origin: Option<Seq<char>>,
    pub username: Option<Seq<char>>,
    pub password: Option<Seq<char>>,
    pub source_type: u8,
    pub use_tvg_id: Option<bool>,
    pub enabled: bool,
    pub user_agent: Option<Seq<char>>,
    pub max_streams: Option<u8>,
}

impl View for Source {
    type V = SourceView;

    open spec fn view(&self) -> SourceView {
        SourceView {
            id: self.id,
            name: self.name@,
            url: opt_view(self.url),
            url_origin: opt_view(self.url_origin),
            username: opt_view(self.username),
            password: opt_view(self.password),
            source_type: self.source_type,
            use_tvg_id: self.use_tvg_id,
            enabled: self.enabled,
            user_agent: opt_view(self.user_agent),
            max_streams: self.max_streams,
        }
    }
}

/// HTTP headers that a playlist asks for when playing one channel.
#[derive(Clone, Debug, PartialEq)]
pub struct ChannelHttpHeaders {
    pub id: Option<i64>,
    pub channel_id: Option<i64>,
    pub referrer: Option<String>,
    pub user_agent: Option<String>,
    pub http_origin: Option<String>,
    pub ignore_ssl: Option<bool>,
}

pub ghost struct HeadersView {
    pub id: Option<i64>,
    pub channel_id: Option<i64>,
    pub referrer: Option<Seq<char>>,
    pub user_agent: Option<Seq<char>>,
    pub http_origin: Option<Seq<char>>,
    pub ignore_ssl: Option<bool>,
}

impl View for ChannelHttpHeaders {
    type V = HeadersView;

    open spec fn view(&self) -> HeadersView {
        HeadersView {
            id: self.id,
            channel_id: self.channel_id,
            referrer: opt_view(self.referrer),
            user_agent: opt_view(self.user_agent),
            http_origin: opt_view(self.http_origin),
            ignore_ssl: self.ignore_ssl,
        }
    }
}

impl ChannelHttpHeaders {
    /// A field-by-field copy.
    pub fn duplicate(&self) -> (r: ChannelHttpHeaders)
        ensures
            r@ == self@,
    {
        ChannelHttpHeaders {
            id: self.id,
            channel_id: self.channel_id,
            referrer: copy_opt_string(&self.referrer),
            user_agent: copy_opt_string(&self.user_agent),
            http_origin: copy_opt_string(&self.http_origin),
            ignore_ssl: self.ignore_ssl,
        }
    }

    /// Headers with no field set.
    pub fn empty() -> (r: ChannelHttpHeaders)
        ensures
            r@ == (HeadersView {
                id: None,
                channel_id: None,
                referrer: None,
                user_agent: None,
                http_origin: None,
                ignore_ssl: None,
            }),
    {
        ChannelHttpHeaders {
            id: None,
            channel_id: None,
            referrer: None,
            user_agent: None,
            http_origin: None,
            ignore_ssl: None,
        }
    }
}

/// A named category scoped to one source.
#[derive(Clone, Debug, PartialEq)]
pub struct Group {
    pub id: Option<i64>,
    pub name: String,
    pub image: Option<String>,
    pub source_id: Option<i64>,
    pub media_type: Option<u8>,
}

pub ghost struct GroupView {
    pub id: Option<i64>,
    pub name: Seq<char>,
    pub image: Option<Seq<char>>,
    pub source_id: Option<i64>,
    pub media_type: Option<u8>,
}

impl View for Group {
    type V = GroupView;

    open spec fn view(&self) -> GroupView {
        GroupView {
            id: self.id,
            name: self.name@,
            image: opt_view(self.image),
            source_id: self.source_id,
            media_type: self.media_type,
        }
    }
}

/// The user-curated state of one channel, kept across a refresh by name.
#[derive(Clone, Debug, PartialEq)]
pub struct ChannelPreserve {
    pub name: String,
    pub favorite: bool,
    pub last_watched: Option<u64>,
    pub hidden: bool,
}

pub ghost struct PreserveView {
    pub name: Seq<char>,
    pub favorite: bool,
    pub last_watched: Option<u64>,
    pub hidden: bool,
}

impl View for ChannelPreserve {
    type V = PreserveView;

    open spec fn view(&self) -> PreserveView {
        PreserveView {
            name: self.name@,
            favorite: self.favorite,
            last_watched: self.last_watched,
            hidden: self.hidden,
        }
    }
}

#[derive(Clone, Debug, PartialEq)]
pub struct IdName {
    pub id: i64,
    pub name: String,
}

#[derive(Clone, Debug, PartialEq)]
pub struct CustomChannel {
    pub data: Channel,
    pub headers: Option<ChannelHttpHeaders>,
}

#[derive(Clone, Debug, PartialEq)]
pub struct CustomChannelExtraData {
    pub headers: Option<ChannelHttpHeaders>,
    pub group: Option<Group>,
}

#[derive(Clone, Debug, PartialEq)]
pub struct ExportedGroup {
    pub group: Group,
    pub channels: Vec<CustomChannel>,
}

#[derive(Clone, Debug, PartialEq)]
pub struct ExportedSource {
    pub source: Source,
    pub groups: Vec<ExportedGroup>,
    pub channels: Vec<CustomChannel>,
}

/// One programme of an electronic programme guide.
#[derive(Clone, Debug, PartialEq)]
pub struct EPG {
    pub epg_id: String,
    pub title: String,
    pub description: String,
    pub start_time: String,
    pub start_timestamp: i64,
    pub end_time: String,
    pub stop_timestamp: i64,
    pub timeshift_url: Option<String>,
    pub has_archive: bool,
    pub now_playing: bool,
}

#[derive(Clone, Debug, PartialEq)]
pub struct EPGNotify {
    pub epg_id: String,
    pub title: String,
    pub start_timestamp: i64,
    pub channel_name: String,
}

} // verus!

verus! {

/// A copy of an optional string.
pub fn copy_opt_string(o: &Option<String>) -> (r: Option<String>)
    ensures
        r == *o,
{
    match o {
        Some(s) => Some(s.clone()),
        None => None,
    }
}

/// Whether two optional strings hold the same text.
pub fn opt_string_eq(a: &Option<String>, b: &Option<String>) -> (r: bool)
    ensures
        r == (opt_view(*a) == opt_view(*b)),
{
    match (a, b) {
        (Some(x), Some(y)) => *x == *y,
        (None, None) => true,
        _ => false,
    }
}

pub fn opt_i64_eq(a: Option<i64>, b: Option<i64>) -> (r: bool)
    ensures
        r == (a == b),
{
    match (a, b) {
        (Some(x), Some(y)) => x == y,
        (None, None) => true,
        _ => false,
    }
}

pub fn opt_u64_eq(a: Option<u64>, b: Option<u64>) -> (r: bool)
    ensures
        r == (a == b),
{
    match (a, b) {
        (Some(x), Some(y)) => x == y,
        (None, None) => true,
        _ => false,
    }
}

impl Channel {
    /// A field-by-field copy.
    pub fn duplicate(&self) -> (r: Channel)
        ensures
            r@ == self@,
    {
        Channel {
            id: self.id,
            name: self.name.clone(),
            url: copy_opt_string(&self.url),
            group: copy_opt_string(&self.group),
            image: copy_opt_string(&self.image),
            media_type: self.media_type,
            source_id: self.source_id,
            series_id: self.series_id,
            group_id: self.group_id,
            favorite: self.favorite,
            stream_id: self.stream_id,
            tv_archive: self.tv_archive,
            season_id: self.season_id,
            episode_num: self.episode_num,
        }
    }

    /// Whether two channels share the compound uniqueness key.
    pub fn same_key(&self, other: &Channel) -> (r: bool)
        ensures
            r == (self@.key() == other@.key()),
    {
        self.name == other.name && opt_i64_eq(self.source_id, other.source_id) && opt_string_eq(
            &self.url,
            &other.url,
        ) && opt_u64_eq(self.series_id, other.series_id) && opt_i64_eq(
            self.season_id,
            other.season_id,
        )
    }
}

impl Source {
    /// A field-by-field copy.
    pub fn duplicate(&self) -> (r: Source)
        ensures
            r@ == self@,
    {
        Source {
            id: self.id,
            name: self.name.clone(),
            url: copy_opt_string(&self.url),
            url_origin: copy_opt_string(&self.url_origin),
            username: copy_opt_string(&self.username),
            password: copy_opt_string(&self.password),
            source_type: self.source_type,
            use_tvg_id: self.use_tvg_id,
            enabled: self.enabled,
            user_agent: copy_opt_string(&self.user_agent),
            max_streams: self.max_streams,
        }
    }
}

} // verus!

verus! {

/// The user's preferences.
#[derive(Clone, Debug, PartialEq)]
pub struct Settings {
    pub recording_path: Option<String>,
    pub mpv_params: Option<String>,
    pub use_stream_caching: Option<bool>,
    pub default_view: Option<u8>,
    pub volume: Option<u8>,
    pub refresh_on_start: Option<bool>,
    pub restream_port: Option<u16>,
    pub enable_tray_icon: Option<bool>,
    pub zoom: Option<u16>,
    pub default_sort: Option<u8>,
    pub enable_hwdec: Option<bool>,
    pub always_ask_save: Option<bool>,
    pub enable_gpu: Option<bool>,
}

} // verus!
