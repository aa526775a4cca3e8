//! The user's preferences, stored as text under fixed keys.
use crate::text::{decimal_value, opt_view, parse_u64, str_eq, u64_to_string};
use crate::types::Settings;
use crate::xtream::{cat_lookup, pairs_view};
use vstd::prelude::*;

verus! {

pub const MPV_PARAMS: &'static str = "mpvParams";

pub const USE_STREAM_CACHING: &'static str = "useStreamingCaching";

pub const RECORDING_PATH: &'static str = "recordingPath";

pub const DEFAULT_VIEW: &'static str = "defaultView";

pub const VOLUME: &'static str = "volume";

pub const REFRESH_ON_START: &'static str = "refreshOnStart";

pub const RESTREAM_PORT: &'static str = "restreamPort";

pub const ENABLE_TRAY_ICON: &'static str = "enableTrayIcon";

pub const ZOOM: &'static str = "zoom";

pub const DEFAULT_SORT: &'static str = "defaultSort";

pub const ENABLE_HWDEC: &'static str = "enableHWDEC";

pub const ALWAYS_ASK_SAVE: &'static str = "alwaysAskSave";

pub const ENABLE_GPU: &'static str = "enableGPU";

pub const TRUE_TEXT: &'static str = "true";

pub const FALSE_TEXT: &'static str = "false";

/// What `str::parse::<bool>` reads: exactly `true` or `false`.
pub open spec fn bool_of(s: Seq<char>) -> Option<bool> {
    if s == TRUE_TEXT@ {
        Some(true)
    } else if s == FALSE_TEXT@ {
        Some(false)
    } else {
        None
    }
}

/// A decimal number that fits in `max`.
pub open spec fn bounded_of(s: Seq<char>, max: u64) -> Option<u64> {
    match decimal_value(s) {
        Some(n) => if n <= max {
            Some(n)
        } else {
            None
        },
        None => None,
    }
}

pub open spec fn text_of(map: Seq<(Seq<char>, Seq<char>)>, key: Seq<char>) -> Option<Seq<char>> {
    cat_lookup(map, key)
}

pub open spec fn bool_at(map: Seq<(Seq<char>, Seq<char>)>, key: Seq<char>) -> Option<bool> {
    match cat_lookup(map, key) {
        Some(v) => bool_of(v),
        None => None,
    }
}

pub open spec fn u8_at(map: Seq<(Seq<char>, Seq<char>)>, key: Seq<char>) -> Option<u8> {
    match cat_lookup(map, key) {
        Some(v) => match bounded_of(v, 0xff) {
            Some(n) => Some(n as u8),
            None => None,
        },
        None => None,
    }
}

pub open spec fn u16_at(map: Seq<(Seq<char>, Seq<char>)>, key: Seq<char>) -> Option<u16> {
    match cat_lookup(map, key) {
        Some(v) => match bounded_of(v, 0xffff) {
            Some(n) => Some(n as u16),
            None => None,
        },
        None => None,
    }
}

fn lookup(map: &Vec<(String, String)>, key: &str) -> (r: Option<String>)
    ensures
        opt_view(r) == cat_lookup(pairs_view(map@), key@),
{
    crate::xtream::get_cat_name(map, Some(key.to_owned()))
}

fn read_bool(map: &Vec<(String, String)>, key: &str) -> (r: Option<bool>)
    ensures
        r == bool_at(pairs_view(map@), key@),
{
    match lookup(map, key) {
        Some(v) => if str_eq(v.as_str(), TRUE_TEXT) {
            Some(true)
        } else if str_eq(v.as_str(), FALSE_TEXT) {
            Some(false)
        } else {
            None
        },
        None => None,
    }
}

fn read_u8(map: &Vec<(String, String)>, key: &str) -> (r: Option<u8>)
    ensures
        r == u8_at(pairs_view(map@), key@),
{
    match lookup(map, key) {
        Some(v) => match parse_u64(v.as_str()) {
            Some(n) => if n <= 0xff {
                Some(n as u8)
            } else {
                None
            },
            None => None,
        },
        None => None,
    }
}

fn read_u16(map: &Vec<(String, String)>, key: &str) -> (r: Option<u16>)
    ensures
        r == u16_at(pairs_view(map@), key@),
{
    match lookup(map, key) {
        Some(v) => match parse_u64(v.as_str()) {
            Some(n) => if n <= 0xffff {
                Some(n as u16)
            } else {
                None
            },
            None => None,
        },
        None => None,
    }
}

/// Reads the preferences from their stored key-value pairs; a value that
/// does not parse reads as unset.
pub fn get_settings(map: &Vec<(String, String)>) -> (r: Settings)
    ensures
        ({
            let m = pairs_view(map@);
            &&& opt_view(r.mpv_params) == text_of(m, MPV_PARAMS@)
            &&& opt_view(r.recording_path) == text_of(m, RECORDING_PATH@)
            &&& r.use_stream_caching == bool_at(m, USE_STREAM_CACHING@)
            &&& r.default_view == u8_at(m, DEFAULT_VIEW@)
            &&& r.volume == u8_at(m, VOLUME@)
            &&& r.refresh_on_start == bool_at(m, REFRESH_ON_START@)
            &&& r.restream_port == u16_at(m, RESTREAM_PORT@)
            &&& r.enable_tray_icon == bool_at(m, ENABLE_TRAY_ICON@)
            &&& r.zoom == u16_at(m, ZOOM@)
            &&& r.default_sort == u8_at(m, DEFAULT_SORT@)
            &&& r.enable_hwdec == bool_at(m, ENABLE_HWDEC@)
            &&& r.always_ask_save == bool_at(m, ALWAYS_ASK_SAVE@)
            &&& r.enable_gpu == bool_at(m, ENABLE_GPU@)
        }),
{
    Settings {
        mpv_params: lookup(map, MPV_PARAMS),
        recording_path: lookup(map, RECORDING_PATH),
        use_stream_caching: read_bool(map, USE_STREAM_CACHING),
        default_view: read_u8(map, DEFAULT_VIEW),
        volume: read_u8(map, VOLUME),
        refresh_on_start: read_bool(map, REFRESH_ON_START),
        restream_port: read_u16(map, RESTREAM_PORT),
        enable_tray_icon: read_bool(map, ENABLE_TRAY_ICON),
        zoom: read_u16(map, ZOOM),
        default_sort: read_u8(map, DEFAULT_SORT),
        enable_hwdec: read_bool(map, ENABLE_HWDEC),
        always_ask_save: read_bool(map, ALWAYS_ASK_SAVE),
        enable_gpu: read_bool(map, ENABLE_GPU),
    }
}

pub open spec fn bool_text(b: bool) -> Seq<char> {
    if b {
        TRUE_TEXT@
    } else {
        FALSE_TEXT@
    }
}

/// The pair stored for a set field, none for an unset one.
pub open spec fn entry(key: Seq<char>, value: Option<Seq<char>>) -> Seq<(Seq<char>, Seq<char>)> {
    match value {
        Some(v) => seq![(key, v)],
        None => Seq::empty(),
    }
}

pub open spec fn opt_bool_text(b: Option<bool>) -> Option<Seq<char>> {
    match b {
        Some(x) => Some(bool_text(x)),
        None => None,
    }
}

pub open spec fn opt_num_text(n: Option<u64>) -> Option<Seq<char>> {
    match n {
        Some(x) => Some(crate::text::decimal_digits(x as nat)),
        None => None,
    }
}

pub open spec fn opt_u8(n: Option<u8>) -> Option<u64> {
    match n {
        Some(x) => Some(x as u64),
        None => None,
    }
}

pub open spec fn opt_u16(n: Option<u16>) -> Option<u64> {
    match n {
        Some(x) => Some(x as u64),
        None => None,
    }
}

/// The stored form of the preferences: one pair per set field.
pub open spec fn settings_pairs(s: Settings) -> Seq<(Seq<char>, Seq<char>)> {
    entry(MPV_PARAMS@, opt_view(s.mpv_params)) + entry(RECORDING_PATH@, opt_view(s.recording_path))
        + entry(USE_STREAM_CACHING@, opt_bool_text(s.use_stream_caching)) + entry(
        DEFAULT_VIEW@,
        opt_num_text(opt_u8(s.default_view)),
    ) + entry(VOLUME@, opt_num_text(opt_u8(s.volume))) + entry(
        REFRESH_ON_START@,
        opt_bool_text(s.refresh_on_start),
    ) + entry(RESTREAM_PORT@, opt_num_text(opt_u16(s.restream_port))) + entry(
        ENABLE_TRAY_ICON@,
        opt_bool_text(s.enable_tray_icon),
    ) + entry(ZOOM@, opt_num_text(opt_u16(s.zoom))) + entry(
        DEFAULT_SORT@,
        opt_num_text(opt_u8(s.default_sort)),
    ) + entry(ENABLE_HWDEC@, opt_bool_text(s.enable_hwdec)) + entry(
        ALWAYS_ASK_SAVE@,
        opt_bool_text(s.always_ask_save),
    ) + entry(ENABLE_GPU@, opt_bool_text(s.enable_gpu))
}

fn push_text(out: &mut Vec<(String, String)>, key: &str, value: Option<String>)
    ensures
        pairs_view(final(out)@) == pairs_view(old(out)@) + entry(key@, opt_view(value)),
{
    let ghost before = pairs_view(out@);
    match value {
        Some(v) => {
            out.push((key.to_owned(), v));
            assert(pairs_view(out@) =~= before + entry(key@, opt_view(value)));
        },
        None => {
            assert(pairs_view(out@) =~= before + entry(key@, opt_view(value)));
        },
    }
}

fn bool_string(b: Option<bool>) -> (r: Option<String>)
    ensures
        opt_view(r) == opt_bool_text(b),
{
    match b {
        Some(true) => Some(TRUE_TEXT.to_owned()),
        Some(false) => Some(FALSE_TEXT.to_owned()),
        None => None,
    }
}

fn num_string(n: Option<u64>) -> (r: Option<String>)
    ensures
        opt_view(r) == opt_num_text(n),
{
    match n {
        Some(x) => Some(u64_to_string(x)),
        None => None,
    }
}

fn widen8(n: Option<u8>) -> (r: Option<u64>)
    ensures
        r == opt_u8(n),
{
    match n {
        Some(x) => Some(x as u64),
        None => None,
    }
}

fn widen16(n: Option<u16>) -> (r: Option<u64>)
    ensures
        r == opt_u16(n),
{
    match n {
        Some(x) => Some(x as u64),
        None => None,
    }
}

/// The key-value pairs to store for the preferences: one per set field.
pub fn update_settings(settings: Settings) -> (r: Vec<(String, String)>)
    ensures
        pairs_view(r@) == settings_pairs(settings),
{
    let ghost s0 = settings;
    let mut out: Vec<(String, String)> = Vec::new();
    assert(pairs_view(out@) =~= Seq::<(Seq<char>, Seq<char>)>::empty());
    push_text(&mut out, MPV_PARAMS, settings.mpv_params);
    push_text(&mut out, RECORDING_PATH, settings.recording_path);
    push_text(&mut out, USE_STREAM_CACHING, bool_string(settings.use_stream_caching));
    push_text(&mut out, DEFAULT_VIEW, num_string(widen8(settings.default_view)));
    push_text(&mut out, VOLUME, num_string(widen8(settings.volume)));
    push_text(&mut out, REFRESH_ON_START, bool_string(settings.refresh_on_start));
    push_text(&mut out, RESTREAM_PORT, num_string(widen16(settings.restream_port)));
    push_text(&mut out, ENABLE_TRAY_ICON, bool_string(settings.enable_tray_icon));
    push_text(&mut out, ZOOM, num_string(widen16(settings.zoom)));
    push_text(&mut out, DEFAULT_SORT, num_string(widen8(settings.default_sort)));
    push_text(&mut out, ENABLE_HWDEC, bool_string(settings.enable_hwdec));
    push_text(&mut out, ALWAYS_ASK_SAVE, bool_string(settings.always_ask_save));
    push_text(&mut out, ENABLE_GPU, bool_string(settings.enable_gpu));
    assert(Seq::<(Seq<char>, Seq<char>)>::empty() + entry(MPV_PARAMS@, opt_view(s0.mpv_params)) =~= entry(MPV_PARAMS@, opt_view(s0.mpv_params)));
    out
}

} // verus!
