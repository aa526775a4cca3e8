//! Helpers around sources and downloads, and the choice of ingestion path.
use crate::error::Error;
use crate::m3u::has_prefix;
use crate::source_type;
use crate::text::{regex_remove_all, regex_removed, starts_with, trim_of, trim_str};
use crate::types::Source;
use vstd::prelude::*;
use vstd::string::*;

verus! {

/// The user agent of sources that name none.
pub const DEFAULT_USER_AGENT: &'static str = "Fred TV";

/// Characters that file names cannot hold.
pub const ILLEGAL_CHARS_PATTERN: &'static str = r#"[<>:"/\\|?*\x00-\x1F]"#;

/// The extension given to downloads whose URL names a script rather than a file.
pub const DEFAULT_EXTENSION: &'static str = "mp4";

pub const SCRIPT_QUERY_PREFIX: &'static str = "php?";

/// The user agent to request a source with: its own when it is not blank.
pub open spec fn user_agent_of(src: crate::types::SourceView) -> Seq<char> {
    match src.user_agent {
        Some(u) => if trim_of(u).len() > 0 {
            u
        } else {
            DEFAULT_USER_AGENT@
        },
        None => DEFAULT_USER_AGENT@,
    }
}

pub fn get_user_agent_from_source(source: &Source) -> (r: Result<String, Error>)
    ensures
        r is Ok,
        r->Ok_0@ == user_agent_of(source@),
{
    match &source.user_agent {
        Some(u) => {
            let t = trim_str(u.as_str());
            if t.as_str().is_empty() {
                Ok(DEFAULT_USER_AGENT.to_owned())
            } else {
                Ok(u.clone())
            }
        },
        None => Ok(DEFAULT_USER_AGENT.to_owned()),
    }
}

/// Removes the characters that file names cannot hold.
pub fn sanitize(str: String) -> (r: String)
    ensures
        r@ == regex_removed(ILLEGAL_CHARS_PATTERN@, str@),
{
    regex_remove_all(ILLEGAL_CHARS_PATTERN, str.as_str())
}

/// Where the text after the last `.` starts; 0 when there is no `.`.
pub open spec fn after_last_dot(s: Seq<char>) -> int
    decreases s.len(),
{
    if s.len() == 0 {
        0
    } else if s.last() == '.' {
        s.len() as int
    } else {
        after_last_dot(s.drop_last())
    }
}

/// The extension of a download: the text after the URL's last `.`, unless
/// that names a script query, in which case `mp4`.
pub open spec fn extension_of(url: Seq<char>) -> Seq<char> {
    let tail = url.subrange(after_last_dot(url), url.len() as int);
    if has_prefix(tail, SCRIPT_QUERY_PREFIX@) {
        DEFAULT_EXTENSION@
    } else {
        tail
    }
}

pub proof fn lemma_after_last_dot_bounds(s: Seq<char>)
    ensures
        0 <= after_last_dot(s) <= s.len(),
    decreases s.len(),
{
    if s.len() > 0 {
        lemma_after_last_dot_bounds(s.drop_last());
    }
}

pub fn get_extension(url: String) -> (r: String)
    ensures
        r@ == extension_of(url@),
{
    let n = url.as_str().unicode_len();
    let mut i: usize = n;
    assert(url@.subrange(0, n as int) =~= url@);
    while i > 0
        invariant
            n == url@.len(),
            i <= n,
            after_last_dot(url@) == after_last_dot(url@.subrange(0, i as int)),
        ensures
            i <= n,
            after_last_dot(url@) == i as int,
        decreases i,
    {
        let sub = Ghost(url@.subrange(0, i as int));
        assert(sub@.last() == url@[i - 1]);
        assert(sub@.drop_last() =~= url@.subrange(0, i - 1));
        if url.as_str().get_char(i - 1) == '.' {
            assert(after_last_dot(sub@) == i as int);
            break;
        }
        i = i - 1;
        if i == 0 {
            assert(url@.subrange(0, 0) =~= Seq::<char>::empty());
        }
    }
    proof {
        lemma_after_last_dot_bounds(url@);
    }
    let tail = url.as_str().substring_char(i, n);
    if starts_with(tail, SCRIPT_QUERY_PREFIX) {
        DEFAULT_EXTENSION.to_owned()
    } else {
        tail.to_owned()
    }
}

/// The file name of a download: the channel's name, sanitised, with the
/// URL's extension.
pub fn get_filename(channel_name: String, url: String) -> (r: Result<String, Error>)
    ensures
        r is Ok,
        r->Ok_0@ == regex_removed(ILLEGAL_CHARS_PATTERN@, channel_name@) + seq!['.'] + extension_of(url@),
{
    let extension = get_extension(url);
    let mut name = sanitize(channel_name);
    proof {
        reveal_strlit(".");
    }
    name.append(".");
    name.append(extension.as_str());
    assert("."@ =~= seq!['.']);
    Ok(name)
}

/// What refreshing a source takes.
#[derive(Clone, Copy, Debug, PartialEq, Eq, Structural)]
pub enum RefreshAction {
    /// Parse the playlist file at the source's path.
    ReadM3u,
    /// Download the playlist, then parse it.
    DownloadM3u,
    /// Query the Xtream panel.
    Xtream,
    /// Query the portal.
    Stalker,
    /// Nothing: custom sources are edited by hand.
    Skip,
}

pub open spec fn refresh_action_of(source_type: u8) -> Result<RefreshAction, Error> {
    if source_type == source_type::M3U {
        Ok(RefreshAction::ReadM3u)
    } else if source_type == source_type::M3U_LINK {
        Ok(RefreshAction::DownloadM3u)
    } else if source_type == source_type::XTREAM {
        Ok(RefreshAction::Xtream)
    } else if source_type == source_type::STALKER {
        Ok(RefreshAction::Stalker)
    } else if source_type == source_type::CUSTOM {
        Ok(RefreshAction::Skip)
    } else {
        Err(Error::InvalidSourceType)
    }
}

/// Which ingestion path refreshes a source of this kind.
pub fn refresh_action(source_type: u8) -> (r: Result<RefreshAction, Error>)
    ensures
        r == refresh_action_of(source_type),
{
    if source_type == source_type::M3U {
        Ok(RefreshAction::ReadM3u)
    } else if source_type == source_type::M3U_LINK {
        Ok(RefreshAction::DownloadM3u)
    } else if source_type == source_type::XTREAM {
        Ok(RefreshAction::Xtream)
    } else if source_type == source_type::STALKER {
        Ok(RefreshAction::Stalker)
    } else if source_type == source_type::CUSTOM {
        Ok(RefreshAction::Skip)
    } else {
        Err(Error::InvalidSourceType)
    }
}

} // verus!
