//! Extraction of attribute values from M3U metadata lines.
use crate::text::{opt_view, regex_capture_of, regex_first_capture, trim_of, trim_str};
use crate::types::{ChannelHttpHeaders, HeadersView};
use vstd::prelude::*;

verus! {

pub const NAME_PATTERN: &'static str = r#"tvg-name="(?P<name>[^"]*)""#;

pub const NAME_ALT_PATTERN: &'static str = r#",(?P<name>[^\n\r\t]*)"#;

pub const ID_PATTERN: &'static str = r#"tvg-id="(?P<id>[^"]*)""#;

pub const LOGO_PATTERN: &'static str = r#"tvg-logo="(?P<logo>[^"]*)""#;

pub const GROUP_PATTERN: &'static str = r#"group-title="(?P<group>[^"]*)""#;

pub const HTTP_ORIGIN_PATTERN: &'static str = r#"http-origin=(?P<origin>.+)"#;

pub const HTTP_REFERRER_PATTERN: &'static str = r#"http-referrer=(?P<referrer>.+)"#;

pub const HTTP_USER_AGENT_PATTERN: &'static str = r#"http-user-agent=(?P<user_agent>.+)"#;

/// A capture counts only when it holds more than white space.
pub open spec fn non_empty(c: Option<Seq<char>>) -> Option<Seq<char>> {
    match c {
        Some(s) => if trim_of(s).len() > 0 {
            Some(s)
        } else {
            None
        },
        None => None,
    }
}

/// The value of the attribute that `pattern` captures in `line`.
pub open spec fn tag_of(pattern: Seq<char>, line: Seq<char>) -> Option<Seq<char>> {
    non_empty(regex_capture_of(pattern, line))
}

/// The name a channel gets: `tvg-name` first; else `tvg-id` and the text
/// after the comma, in the order that the source's preference picks.
pub open spec fn resolved_name(
    name: Option<Seq<char>>,
    id: Option<Seq<char>>,
    alt: Option<Seq<char>>,
    use_tvg_id: Option<bool>,
) -> Option<Seq<char>> {
    if name is Some {
        name
    } else if use_tvg_id == Some(true) {
        if id is Some {
            id
        } else {
            alt
        }
    } else {
        if alt is Some {
            alt
        } else {
            id
        }
    }
}

/// The name resolved from a metadata line.
pub open spec fn line_name(line: Seq<char>, use_tvg_id: Option<bool>) -> Option<Seq<char>> {
    resolved_name(
        tag_of(NAME_PATTERN@, line),
        tag_of(ID_PATTERN@, line),
        tag_of(NAME_ALT_PATTERN@, line),
        use_tvg_id,
    )
}

/// Keeps a capture only when it holds more than white space.
pub fn extract_non_empty_capture(cap: Option<String>) -> (r: Option<String>)
    ensures
        opt_view(r) == non_empty(opt_view(cap)),
{
    match cap {
        Some(s) => {
            let t = trim_str(s.as_str());
            if t.as_str().is_empty() {
                None
            } else {
                Some(s)
            }
        },
        None => None,
    }
}

/// The non-blank value that `pattern` captures in `line`.
pub fn capture_tag(pattern: &str, line: &str) -> (r: Option<String>)
    ensures
        opt_view(r) == tag_of(pattern@, line@),
{
    extract_non_empty_capture(regex_first_capture(pattern, line))
}

/// Picks a channel's name from the three captured candidates.
pub fn resolve_name(
    name: Option<String>,
    id: Option<String>,
    alt: Option<String>,
    use_tvg_id: Option<bool>,
) -> (r: Option<String>)
    ensures
        opt_view(r) == resolved_name(opt_view(name), opt_view(id), opt_view(alt), use_tvg_id),
{
    if name.is_some() {
        return name;
    }
    let prefer_id = match use_tvg_id {
        Some(b) => b,
        None => false,
    };
    if prefer_id {
        if id.is_some() {
            id
        } else {
            alt
        }
    } else {
        if alt.is_some() {
            alt
        } else {
            id
        }
    }
}

/// The name of the channel that a metadata line describes.
pub fn get_name_from_line(line: &str, use_tvg_id: Option<bool>) -> (r: Option<String>)
    ensures
        opt_view(r) == line_name(line@, use_tvg_id),
{
    let name = capture_tag(NAME_PATTERN, line);
    let id = capture_tag(ID_PATTERN, line);
    let alt = capture_tag(NAME_ALT_PATTERN, line);
    resolve_name(name, id, alt, use_tvg_id)
}

/// What one `#EXTVLCOPT` line does to a block's headers: the first of
/// origin, referrer and user agent that it sets, or nothing.
pub open spec fn headers_after(line: Seq<char>, h: HeadersView) -> HeadersView {
    let origin = tag_of(HTTP_ORIGIN_PATTERN@, line);
    let referrer = tag_of(HTTP_REFERRER_PATTERN@, line);
    let agent = tag_of(HTTP_USER_AGENT_PATTERN@, line);
    if origin is Some {
        HeadersView { http_origin: origin, ..h }
    } else if referrer is Some {
        HeadersView { referrer: referrer, ..h }
    } else if agent is Some {
        HeadersView { user_agent: agent, ..h }
    } else {
        h
    }
}

/// Whether an `#EXTVLCOPT` line names a header that is understood.
pub open spec fn sets_header(line: Seq<char>) -> bool {
    tag_of(HTTP_ORIGIN_PATTERN@, line) is Some || tag_of(HTTP_REFERRER_PATTERN@, line) is Some
        || tag_of(HTTP_USER_AGENT_PATTERN@, line) is Some
}

/// Merges the header directive of one `#EXTVLCOPT` line into `headers`;
/// true when the line set a known field.
pub fn set_http_headers(line: &str, headers: &mut ChannelHttpHeaders) -> (r: bool)
    ensures
        final(headers)@ == headers_after(line@, old(headers)@),
        r == sets_header(line@),
{
    if let Some(origin) = capture_tag(HTTP_ORIGIN_PATTERN, line) {
        headers.http_origin = Some(origin);
        return true;
    }
    if let Some(referrer) = capture_tag(HTTP_REFERRER_PATTERN, line) {
        headers.referrer = Some(referrer);
        return true;
    }
    if let Some(user_agent) = capture_tag(HTTP_USER_AGENT_PATTERN, line) {
        headers.user_agent = Some(user_agent);
        return true;
    }
    false
}

} // verus!
