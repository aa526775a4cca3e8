//! The Xtream-Codes client's logic: coercion of loosely-typed ids, category
//! resolution, playback URLs, and the three content pipelines with their
//! partial-failure rule. The HTTP requests themselves are made by the caller,
//! who hands their results in.
use crate::catalog::{Catalog, cache_ok, fresh_rows, groups_cover, groups_extend, has_key, holds_fields, row_kept, snapshot};
use crate::catalog::{lemma_group_has_name, lemma_groups_cover_concat, lemma_groups_cover_extend, lemma_groups_cover_push, lemma_groups_extend_refl, lemma_groups_extend_trans};
use crate::error::Error;
use crate::m3u::{fields_match, keys_match, lemma_fields_concat, lemma_fields_kept, lemma_fields_step, lemma_others_kept_refl, lemma_others_step, others_kept};
use crate::m3u::keys_have;
use crate::media_type::{LIVESTREAM, MOVIE, SERIE};
use crate::refresh::{begin_refresh, finish_refresh, refresh_source_id, state_restored};
use crate::text::{
    decimal_digits, decimal_value, opt_trim, opt_view, parse_u64, trim_of, trim_str, u64_to_string,
};
use crate::types::{Channel, ChannelKey, ChannelView, Source, SourceView, copy_opt_string};
use vstd::prelude::*;
use vstd::string::*;

verus! {

pub const LIVE_PATH: &'static str = "live";

pub const MOVIE_PATH: &'static str = "movie";

pub const SERIES_PATH: &'static str = "series";

/// Extension of live streams whose record names none.
pub const LIVE_STREAM_EXTENSION: &'static str = "ts";

/// An upstream field that panels send either as a string or as a number.
#[derive(Clone, Debug, PartialEq)]
pub enum JsonScalar {
    Str(String),
    Num(u64),
    Other,
}

/// One record of a stream list.
#[derive(Clone, Debug, PartialEq)]
pub struct XtreamStream {
    pub stream_id: JsonScalar,
    pub name: Option<String>,
    pub category_id: JsonScalar,
    pub stream_icon: Option<String>,
    pub series_id: JsonScalar,
    pub cover: Option<String>,
    pub container_extension: Option<String>,
    pub tv_archive: JsonScalar,
}

/// One record of a category list.
#[derive(Clone, Debug, PartialEq)]
pub struct XtreamCategory {
    pub category_id: JsonScalar,
    pub category_name: String,
}

/// What the six requests of a refresh returned.
pub struct XtreamFetch {
    pub live: Result<Vec<XtreamStream>, Error>,
    pub live_cats: Result<Vec<XtreamCategory>, Error>,
    pub vods: Result<Vec<XtreamStream>, Error>,
    pub vod_cats: Result<Vec<XtreamCategory>, Error>,
    pub series: Result<Vec<XtreamStream>, Error>,
    pub series_cats: Result<Vec<XtreamCategory>, Error>,
}

/// The origin of a URL as the `url` crate serialises it; `None` when the
/// URL does not parse.
pub uninterp spec fn url_origin_of(url: Seq<char>) -> Option<Seq<char>>;

/// The URL with one more query pair, as the `url` crate serialises it;
/// `None` when the URL does not parse.
pub uninterp spec fn url_with_pair(url: Seq<char>, key: Seq<char>, value: Seq<char>) -> Option<Seq<char>>;

/// Relies on `url::Url::parse`, `Url::origin` and `Origin::ascii_serialization`.
#[verifier::external_body]
pub(crate) fn parse_origin(url: &str) -> (r: Option<String>)
    ensures
        opt_view(r) == url_origin_of(url@),
{
    match url::Url::parse(url) {
        Ok(u) => Some(u.origin().ascii_serialization()),
        Err(_) => None,
    }
}

/// Relies on `url::Url::parse` and `Url::query_pairs_mut().append_pair`.
#[verifier::external_body]
pub(crate) fn append_query_pair(url: &str, key: &str, value: &str) -> (r: Option<String>)
    ensures
        opt_view(r) == url_with_pair(url@, key@, value@),
{
    match url::Url::parse(url) {
        Ok(mut u) => {
            u.query_pairs_mut().append_pair(key, value);
            Some(u.to_string())
        },
        Err(_) => None,
    }
}

pub open spec fn json_string_of(v: JsonScalar) -> Option<Seq<char>> {
    match v {
        JsonScalar::Str(s) => Some(trim_of(s@)),
        JsonScalar::Num(n) => Some(trim_of(decimal_digits(n as nat))),
        JsonScalar::Other => None,
    }
}

pub open spec fn json_number_of(v: JsonScalar) -> Option<u64> {
    match v {
        JsonScalar::Str(s) => decimal_value(trim_of(s@)),
        JsonScalar::Num(n) => Some(n),
        JsonScalar::Other => None,
    }
}

/// Reads an id field as text, whether it came as a string or a number.
pub fn get_serde_json_string(value: &JsonScalar) -> (r: Option<String>)
    ensures
        opt_view(r) == json_string_of(*value),
{
    match value {
        JsonScalar::Str(s) => Some(trim_str(s.as_str())),
        JsonScalar::Num(n) => {
            let s = u64_to_string(*n);
            Some(trim_str(s.as_str()))
        },
        JsonScalar::Other => None,
    }
}

/// Reads an id field as a number, whether it came as a string or a number.
pub fn get_serde_json_number(value: &JsonScalar) -> (r: Option<u64>)
    ensures
        r == json_number_of(*value),
{
    match value {
        JsonScalar::Str(s) => {
            let t = trim_str(s.as_str());
            parse_u64(t.as_str())
        },
        JsonScalar::Num(n) => Some(*n),
        JsonScalar::Other => None,
    }
}

/// The (id, name) pairs of the categories whose id can be read.
pub open spec fn cat_pairs(cats: Seq<XtreamCategory>) -> Seq<(Seq<char>, Seq<char>)>
    decreases cats.len(),
{
    if cats.len() == 0 {
        Seq::empty()
    } else {
        let prev = cat_pairs(cats.drop_last());
        match json_string_of(cats.last().category_id) {
            Some(id) => prev.push((id, cats.last().category_name@)),
            None => prev,
        }
    }
}

/// The name under which `id` is listed; a later entry wins over an earlier one.
pub open spec fn cat_lookup(pairs: Seq<(Seq<char>, Seq<char>)>, id: Seq<char>) -> Option<Seq<char>>
    decreases pairs.len(),
{
    if pairs.len() == 0 {
        None
    } else if pairs.last().0 == id {
        Some(pairs.last().1)
    } else {
        cat_lookup(pairs.drop_last(), id)
    }
}

pub open spec fn pairs_view(p: Seq<(String, String)>) -> Seq<(Seq<char>, Seq<char>)> {
    p.map_values(|e: (String, String)| (e.0@, e.1@))
}

/// The category lookup of one content type.
pub fn categories_by_id(cats: &Vec<XtreamCategory>) -> (r: Vec<(String, String)>)
    ensures
        pairs_view(r@) == cat_pairs(cats@),
{
    let mut out: Vec<(String, String)> = Vec::new();
    let mut i: usize = 0;
    while i < cats.len()
        invariant
            i <= cats@.len(),
            pairs_view(out@) == cat_pairs(cats@.subrange(0, i as int)),
        decreases cats@.len() - i,
    {
        let c = &cats[i];
        if let Some(id) = get_serde_json_string(&c.category_id) {
            out.push((id, c.category_name.clone()));
        }
        proof {
            let sub = cats@.subrange(0, i + 1);
            assert(sub.drop_last() =~= cats@.subrange(0, i as int));
            assert(sub.last() == cats@[i as int]);
            assert(pairs_view(out@) =~= cat_pairs(sub));
        }
        i = i + 1;
    }
    assert(cats@.subrange(0, cats@.len() as int) =~= cats@);
    out
}

/// The name of a stream's category, when its id is listed.
pub fn get_cat_name(cats: &Vec<(String, String)>, category_id: Option<String>) -> (r: Option<String>)
    ensures
        category_id is None ==> r is None,
        category_id is Some ==> opt_view(r) == cat_lookup(pairs_view(cats@), category_id->0@),
{
    let id = match &category_id {
        Some(id) => id,
        None => {
            return None;
        },
    };
    assert(opt_view(category_id) == Some(id@));
    let ghost pv = pairs_view(cats@);
    let mut i: usize = cats.len();
    assert(pv.subrange(0, i as int) =~= pv);
    while i > 0
        invariant
            i <= cats@.len(),
            pv == pairs_view(cats@),
            opt_view(category_id) == Some(id@),
            cat_lookup(pv, id@) == cat_lookup(pv.subrange(0, i as int), id@),
        decreases i,
    {
        let ghost sub = pv.subrange(0, i as int);
        assert(sub.last() == pv[i - 1]);
        assert(sub.drop_last() =~= pv.subrange(0, i - 1));
        assert(pv[i - 1] == (cats@[i - 1].0@, cats@[i - 1].1@));
        if cats[i - 1].0 == *id {
            assert(cats@[i - 1].0@ == id@);
            assert(cat_lookup(sub, id@) == Some(cats@[i - 1].1@));
            let name = cats[i - 1].1.clone();
            assert(name@ == cats@[i - 1].1@);
            assert(cat_lookup(pv, id@) == Some(name@));
            return Some(name);
        }
        i = i - 1;
    }
    None
}

/// The path segment of a media type in playback URLs.
pub open spec fn media_type_path(t: u8) -> Option<Seq<char>> {
    if t == LIVESTREAM {
        Some(LIVE_PATH@)
    } else if t == MOVIE {
        Some(MOVIE_PATH@)
    } else if t == SERIE {
        Some(SERIES_PATH@)
    } else {
        None
    }
}

pub fn get_media_type_string(stream_type: u8) -> (r: Result<String, Error>)
    ensures
        match media_type_path(stream_type) {
            Some(p) => r is Ok && r->Ok_0@ == p,
            None => r == Err::<String, Error>(Error::InvalidStreamType),
        },
{
    if stream_type == LIVESTREAM {
        Ok(LIVE_PATH.to_owned())
    } else if stream_type == MOVIE {
        Ok(MOVIE_PATH.to_owned())
    } else if stream_type == SERIE {
        Ok(SERIES_PATH.to_owned())
    } else {
        Err(Error::InvalidStreamType)
    }
}

/// `origin/{kind}/{username}/{password}/{id}.{extension}`.
pub open spec fn playback_url(id: Seq<char>, src: SourceView, t: u8, ext: Option<Seq<char>>) -> Result<Seq<char>, Error> {
    if src.url_origin is None {
        Err(Error::InvalidUrl)
    } else if media_type_path(t) is None {
        Err(Error::InvalidStreamType)
    } else if src.username is None {
        Err(Error::MissingUsername)
    } else if src.password is None {
        Err(Error::MissingPassword)
    } else {
        Ok(
            src.url_origin->0 + seq!['/'] + media_type_path(t)->0 + seq!['/'] + src.username->0 + seq!['/']
                + src.password->0 + seq!['/'] + id + seq!['.'] + match ext {
                Some(e) => e,
                None => LIVE_STREAM_EXTENSION@,
            },
        )
    }
}

pub open spec fn string_result(r: Result<String, Error>) -> Result<Seq<char>, Error> {
    match r {
        Ok(s) => Ok(s@),
        Err(e) => Err(e),
    }
}

/// The playback URL of a stream.
pub fn get_url(stream_id: String, source: &Source, stream_type: u8, extension: Option<String>) -> (r: Result<String, Error>)
    ensures
        string_result(r) == playback_url(stream_id@, source@, stream_type, opt_view(extension)),
{
    let origin = match &source.url_origin {
        Some(o) => o,
        None => {
            return Err(Error::InvalidUrl);
        },
    };
    let kind = match get_media_type_string(stream_type) {
        Ok(k) => k,
        Err(e) => {
            return Err(e);
        },
    };
    let user = match &source.username {
        Some(u) => u,
        None => {
            return Err(Error::MissingUsername);
        },
    };
    let pass = match &source.password {
        Some(p) => p,
        None => {
            return Err(Error::MissingPassword);
        },
    };
    let ext = match extension {
        Some(e) => e,
        None => LIVE_STREAM_EXTENSION.to_owned(),
    };
    proof {
        reveal_strlit("/");
        reveal_strlit(".");
    }
    let mut url = origin.clone();
    url.append("/");
    url.append(kind.as_str());
    url.append("/");
    url.append(user.as_str());
    url.append("/");
    url.append(pass.as_str());
    url.append("/");
    url.append(stream_id.as_str());
    url.append(".");
    url.append(ext.as_str());
    assert("/"@ =~= seq!['/']);
    assert("."@ =~= seq!['.']);
    Ok(url)
}

pub open spec fn opt_or(a: Option<Seq<char>>, b: Option<Seq<char>>) -> Option<Seq<char>> {
    if a is Some {
        a
    } else {
        b
    }
}

/// The channel that a stream record becomes, under category name `cat`.
pub open spec fn xtream_channel(s: XtreamStream, src: SourceView, t: u8, cat: Option<Seq<char>>) -> Result<ChannelView, Error> {
    let stream_id = json_number_of(s.stream_id);
    if s.name is None {
        Err(Error::NoName)
    } else {
        let url: Result<Option<Seq<char>>, Error> = if t == SERIE {
            Ok(json_string_of(s.series_id))
        } else if stream_id is None {
            Err(Error::MissingStreamId)
        } else {
            match playback_url(decimal_digits(stream_id->0 as nat), src, t, opt_view(s.container_extension)) {
                Ok(u) => Ok(Some(u)),
                Err(e) => Err(e),
            }
        };
        match url {
            Err(e) => Err(e),
            Ok(u) => Ok(
                ChannelView {
                    id: None,
                    name: trim_of(s.name->0@),
                    url: u,
                    group: opt_trim(cat),
                    image: opt_trim(opt_or(opt_view(s.stream_icon), opt_view(s.cover))),
                    media_type: t,
                    source_id: src.id,
                    series_id: None,
                    group_id: None,
                    favorite: false,
                    stream_id: stream_id,
                    tv_archive: match json_number_of(s.tv_archive) {
                        Some(x) => Some(x == 1),
                        None => None,
                    },
                    season_id: None,
                    episode_num: None,
                },
            ),
        }
    }
}

pub open spec fn channel_result(r: Result<Channel, Error>) -> Result<ChannelView, Error> {
    match r {
        Ok(c) => Ok(c@),
        Err(e) => Err(e),
    }
}

fn trim_opt(o: Option<String>) -> (r: Option<String>)
    ensures
        opt_view(r) == opt_trim(opt_view(o)),
{
    match o {
        Some(s) => Some(trim_str(s.as_str())),
        None => None,
    }
}

/// Turns a stream record into a channel.
pub fn convert_xtream_live_to_channel(
    stream: XtreamStream,
    source: &Source,
    stream_type: u8,
    category_name: Option<String>,
) -> (r: Result<Channel, Error>)
    ensures
        channel_result(r) == xtream_channel(stream, source@, stream_type, opt_view(category_name)),
{
    let stream_id = get_serde_json_number(&stream.stream_id);
    let name = match &stream.name {
        Some(n) => trim_str(n.as_str()),
        None => {
            return Err(Error::NoName);
        },
    };
    let url = if stream_type == SERIE {
        get_serde_json_string(&stream.series_id)
    } else {
        let id = match stream_id {
            Some(id) => id,
            None => {
                return Err(Error::MissingStreamId);
            },
        };
        match get_url(u64_to_string(id), source, stream_type, copy_opt_string(&stream.container_extension)) {
            Ok(u) => Some(u),
            Err(e) => {
                return Err(e);
            },
        }
    };
    let image = match &stream.stream_icon {
        Some(i) => Some(i.clone()),
        None => copy_opt_string(&stream.cover),
    };
    let tv_archive = match get_serde_json_number(&stream.tv_archive) {
        Some(x) => Some(x == 1),
        None => None,
    };
    Ok(
        Channel {
            id: None,
            group: trim_opt(category_name),
            image: trim_opt(image),
            media_type: stream_type,
            name: name,
            source_id: source.id,
            url: url,
            stream_id: stream_id,
            favorite: false,
            group_id: None,
            series_id: None,
            tv_archive: tv_archive,
            season_id: None,
            episode_num: None,
        },
    )
}

/// The category name of a stream record.
pub open spec fn stream_cat(s: XtreamStream, pairs: Seq<(Seq<char>, Seq<char>)>) -> Option<Seq<char>> {
    match json_string_of(s.category_id) {
        Some(id) => cat_lookup(pairs, id),
        None => None,
    }
}

/// The channels that a stream list yields; records that fail are skipped.
pub open spec fn xtream_channels(
    streams: Seq<XtreamStream>,
    pairs: Seq<(Seq<char>, Seq<char>)>,
    src: SourceView,
    t: u8,
) -> Seq<ChannelView>
    decreases streams.len(),
{
    if streams.len() == 0 {
        Seq::empty()
    } else {
        let prev = xtream_channels(streams.drop_last(), pairs, src, t);
        match xtream_channel(streams.last(), src, t, stream_cat(streams.last(), pairs)) {
            Ok(c) => prev.push(c),
            Err(_) => prev,
        }
    }
}

/// Stores the channels of one content type under their categories.
pub fn process_xtream(
    catalog: &mut Catalog,
    streams: Vec<XtreamStream>,
    cats: Vec<XtreamCategory>,
    source: &Source,
    stream_type: u8,
)
    requires
        old(catalog).wf(),
        old(catalog).has_room(2 * streams@.len() as int),
        source.id is Some,
    ensures
        final(catalog).wf(),
        final(catalog).source_rows() == old(catalog).source_rows(),
        old(catalog).next_id <= final(catalog).next_id <= old(catalog).next_id + 2 * streams@.len(),
        keys_match(
            final(catalog).rows(),
            old(catalog).rows(),
            xtream_channels(streams@, cat_pairs(cats@), source@, stream_type),
        ),
        fields_match(final(catalog).rows(), xtream_channels(streams@, cat_pairs(cats@), source@, stream_type)),
        others_kept(
            old(catalog).rows(),
            final(catalog).rows(),
            xtream_channels(streams@, cat_pairs(cats@), source@, stream_type),
        ),
        groups_extend(old(catalog).group_rows(), final(catalog).group_rows()),
        groups_cover(
            final(catalog).group_rows(),
            xtream_channels(streams@, cat_pairs(cats@), source@, stream_type),
            source.id->0,
        ),
        fresh_rows(old(catalog).rows(), source.id) ==> fresh_rows(final(catalog).rows(), source.id),
{
    proof {
        lemma_others_kept_refl(catalog.rows(), Seq::empty());
        lemma_groups_extend_refl(catalog.group_rows());
    }
    let pairs = categories_by_id(&cats);
    let sid = match source.id {
        Some(id) => id,
        None => 0,
    };
    let mut groups: Vec<(String, i64)> = Vec::new();
    let ghost base = catalog.rows();
    let ghost pv = pairs_view(pairs@);
    let mut i: usize = 0;
    assert(streams@.subrange(0, 0) =~= Seq::<XtreamStream>::empty());
    while i < streams.len()
        invariant
            i <= streams@.len(),
            source.id == Some(sid),
            pv == pairs_view(pairs@),
            pv == cat_pairs(cats@),
            base == old(catalog).rows(),
            catalog.wf(),
            catalog.source_rows() == old(catalog).source_rows(),
            old(catalog).next_id <= catalog.next_id <= old(catalog).next_id + 2 * i,
            catalog.has_room(2 * (streams@.len() - i) as int),
            cache_ok(groups@, catalog.group_rows(), sid),
            keys_match(catalog.rows(), base, xtream_channels(streams@.subrange(0, i as int), pv, source@, stream_type)),
            fields_match(catalog.rows(), xtream_channels(streams@.subrange(0, i as int), pv, source@, stream_type)),
            others_kept(base, catalog.rows(), xtream_channels(streams@.subrange(0, i as int), pv, source@, stream_type)),
            groups_extend(old(catalog).group_rows(), catalog.group_rows()),
            groups_cover(catalog.group_rows(), xtream_channels(streams@.subrange(0, i as int), pv, source@, stream_type), sid),
            fresh_rows(base, source.id) ==> fresh_rows(catalog.rows(), source.id),
        decreases streams@.len() - i,
    {
        let stream = &streams[i];
        let ghost prev = xtream_channels(streams@.subrange(0, i as int), pv, source@, stream_type);
        proof {
            let sub = streams@.subrange(0, i + 1);
            assert(sub.drop_last() =~= streams@.subrange(0, i as int));
            assert(sub.last() == streams@[i as int]);
        }
        let cat_id = get_serde_json_string(&stream.category_id);
        let category_name = get_cat_name(&pairs, cat_id);
        let converted = convert_xtream_live_to_channel(stream.clone_record(), source, stream_type, category_name);
        match converted {
            Ok(channel) => {
                let mut channel = channel;
                let ghost c = channel@;
                let ghost rows_before = catalog.rows();
                let ghost groups_before = catalog.group_rows();
                catalog.set_channel_group_id(&mut groups, &mut channel, sid);
                let ghost grouped = channel@;
                let ghost groups_after = catalog.group_rows();
                let _ = catalog.insert_channel(channel);
                proof {
                    assert(catalog.group_rows() == groups_after);
                    lemma_groups_extend_trans(old(catalog).group_rows(), groups_before, groups_after);
                    lemma_groups_cover_extend(groups_before, groups_after, prev, sid);
                    if c.group is Some {
                        lemma_group_has_name(groups_after, c.group->0, sid, grouped.group_id->0);
                    }
                    lemma_groups_cover_push(groups_after, prev, c, sid);
                    assert forall|j: int| 0 <= j < catalog.rows().len() && (#[trigger] catalog.rows()[j]).channel.key()
                        == c.key() implies holds_fields(catalog.rows()[j], c) by {
                        assert(holds_fields(catalog.rows()[j], grouped));
                    }
                    lemma_fields_step(rows_before, catalog.rows(), prev, Some(c));
                    lemma_others_step(base, rows_before, catalog.rows(), prev, Some(c));
                    crate::m3u::lemma_keys_have_push(prev, c, c.key());
                    assert forall|k: ChannelKey|
                        has_key(catalog.rows(), k) <==> (has_key(base, k) || keys_have(prev.push(c), k)) by {
                        crate::m3u::lemma_keys_have_push(prev, c, k);
                    }
                }
            },
            Err(_) => {},
        }
        let ghost next = xtream_channels(streams@.subrange(0, i + 1), pv, source@, stream_type);
        assert(keys_match(catalog.rows(), base, next));
        i = i + 1;
    }
    assert(streams@.subrange(0, streams@.len() as int) =~= streams@);
}

impl XtreamStream {
    /// A field-by-field copy.
    pub fn clone_record(&self) -> (r: XtreamStream)
        ensures
            r == *self,
    {
        XtreamStream {
            stream_id: self.stream_id.clone_scalar(),
            name: copy_opt_string(&self.name),
            category_id: self.category_id.clone_scalar(),
            stream_icon: copy_opt_string(&self.stream_icon),
            series_id: self.series_id.clone_scalar(),
            cover: copy_opt_string(&self.cover),
            container_extension: copy_opt_string(&self.container_extension),
            tv_archive: self.tv_archive.clone_scalar(),
        }
    }
}

impl JsonScalar {
    /// A copy.
    pub fn clone_scalar(&self) -> (r: JsonScalar)
        ensures
            r == *self,
    {
        match self {
            JsonScalar::Str(s) => JsonScalar::Str(s.clone()),
            JsonScalar::Num(n) => JsonScalar::Num(*n),
            JsonScalar::Other => JsonScalar::Other,
        }
    }
}

pub const USERNAME_KEY: &'static str = "username";

pub const PASSWORD_KEY: &'static str = "password";

/// The request base of a panel: its URL with the credentials as query pairs.
pub open spec fn xtream_base_url(src: SourceView) -> Result<Seq<char>, Error> {
    if src.url is None {
        Err(Error::MissingUrl)
    } else if url_origin_of(src.url->0) is None {
        Err(Error::InvalidUrl)
    } else if src.username is None {
        Err(Error::MissingUsername)
    } else if url_with_pair(src.url->0, USERNAME_KEY@, src.username->0) is None {
        Err(Error::InvalidUrl)
    } else if src.password is None {
        Err(Error::MissingPassword)
    } else {
        match url_with_pair(
            url_with_pair(src.url->0, USERNAME_KEY@, src.username->0)->0,
            PASSWORD_KEY@,
            src.password->0,
        ) {
            Some(u) => Ok(u),
            None => Err(Error::InvalidUrl),
        }
    }
}

/// Checks a panel's connection parameters, records its URL origin, and
/// returns the request base URL.
pub fn build_xtream_url(source: &mut Source) -> (r: Result<String, Error>)
    ensures
        string_result(r) == xtream_base_url(old(source)@),
        old(source)@.url is Some && url_origin_of(old(source)@.url->0) is Some ==> final(source)@
            == (SourceView { url_origin: url_origin_of(old(source)@.url->0), ..old(source)@ }),
        !(old(source)@.url is Some && url_origin_of(old(source)@.url->0) is Some) ==> final(source)@
            == old(source)@,
{
    let url = match &source.url {
        Some(u) => u.clone(),
        None => {
            return Err(Error::MissingUrl);
        },
    };
    let origin = match parse_origin(url.as_str()) {
        Some(o) => o,
        None => {
            return Err(Error::InvalidUrl);
        },
    };
    source.url_origin = Some(origin);
    let user = match &source.username {
        Some(u) => u.clone(),
        None => {
            return Err(Error::MissingUsername);
        },
    };
    let with_user = match append_query_pair(url.as_str(), USERNAME_KEY, user.as_str()) {
        Some(u) => u,
        None => {
            return Err(Error::InvalidUrl);
        },
    };
    let pass = match &source.password {
        Some(p) => p.clone(),
        None => {
            return Err(Error::MissingPassword);
        },
    };
    match append_query_pair(with_user.as_str(), PASSWORD_KEY, pass.as_str()) {
        Some(u) => Ok(u),
        None => Err(Error::InvalidUrl),
    }
}

/// Whether a content type's stream list and category list both arrived.
pub open spec fn pipeline_ok(s: Result<Vec<XtreamStream>, Error>, c: Result<Vec<XtreamCategory>, Error>) -> bool {
    s is Ok && c is Ok
}

/// How many of the three content types failed.
pub open spec fn xtream_failures(f: XtreamFetch) -> nat {
    (if pipeline_ok(f.live, f.live_cats) { 0nat } else { 1nat }) + (if pipeline_ok(f.vods, f.vod_cats) {
        0nat
    } else {
        1nat
    }) + (if pipeline_ok(f.series, f.series_cats) { 0nat } else { 1nat })
}

/// The number of stream records that arrived.
pub open spec fn fetched_len(f: XtreamFetch) -> nat {
    (match f.live { Ok(v) => v@.len(), Err(_) => 0 }) + (match f.vods {
        Ok(v) => v@.len(),
        Err(_) => 0,
    }) + (match f.series { Ok(v) => v@.len(), Err(_) => 0 })
}

/// The channels of one content type; none when it failed.
pub open spec fn pipeline_channels(
    s: Result<Vec<XtreamStream>, Error>,
    c: Result<Vec<XtreamCategory>, Error>,
    src: SourceView,
    t: u8,
) -> Seq<ChannelView> {
    if pipeline_ok(s, c) {
        xtream_channels(s->Ok_0@, cat_pairs(c->Ok_0@), src, t)
    } else {
        Seq::empty()
    }
}

/// The channels of a refresh: live, then movies, then series.
pub open spec fn fetched_channels(f: XtreamFetch, src: SourceView) -> Seq<ChannelView> {
    pipeline_channels(f.live, f.live_cats, src, LIVESTREAM) + pipeline_channels(
        f.vods,
        f.vod_cats,
        src,
        MOVIE,
    ) + pipeline_channels(f.series, f.series_cats, src, SERIE)
}

pub proof fn lemma_keys_have_concat(a: Seq<ChannelView>, b: Seq<ChannelView>, k: ChannelKey)
    ensures
        keys_have(a + b, k) <==> (keys_have(a, k) || keys_have(b, k)),
{
    if keys_have(a + b, k) {
        let j = choose|j: int| 0 <= j < (a + b).len() && (#[trigger] (a + b)[j]).key() == k;
        if j < a.len() {
            assert((a + b)[j] == a[j]);
        } else {
            assert((a + b)[j] == b[j - a.len()]);
        }
    }
    if keys_have(a, k) {
        let j = choose|j: int| 0 <= j < a.len() && (#[trigger] a[j]).key() == k;
        assert((a + b)[j] == a[j]);
    }
    if keys_have(b, k) {
        let j = choose|j: int| 0 <= j < b.len() && (#[trigger] b[j]).key() == k;
        assert((a + b)[j + a.len()] == b[j]);
    }
}

/// The source as the pipelines see it: with its URL origin and its id.
pub open spec fn xtream_source(source: SourceView, sid: i64) -> SourceView {
    SourceView { url_origin: url_origin_of(source.url->0), id: Some(sid), ..source }
}

fn run_pipeline(
    catalog: &mut Catalog,
    streams: Result<Vec<XtreamStream>, Error>,
    cats: Result<Vec<XtreamCategory>, Error>,
    source: &Source,
    stream_type: u8,
)
    requires
        old(catalog).wf(),
        old(catalog).has_room(2 * match streams { Ok(v) => v@.len(), Err(_) => 0 } as int),
        source.id is Some,
    ensures
        final(catalog).wf(),
        final(catalog).source_rows() == old(catalog).source_rows(),
        old(catalog).next_id <= final(catalog).next_id <= old(catalog).next_id + 2 * match streams {
            Ok(v) => v@.len(),
            Err(_) => 0,
        },
        keys_match(final(catalog).rows(), old(catalog).rows(), pipeline_channels(streams, cats, source@, stream_type)),
        fields_match(final(catalog).rows(), pipeline_channels(streams, cats, source@, stream_type)),
        others_kept(old(catalog).rows(), final(catalog).rows(), pipeline_channels(streams, cats, source@, stream_type)),
        groups_extend(old(catalog).group_rows(), final(catalog).group_rows()),
        groups_cover(final(catalog).group_rows(), pipeline_channels(streams, cats, source@, stream_type), source.id->0),
        fresh_rows(old(catalog).rows(), source.id) ==> fresh_rows(final(catalog).rows(), source.id),
{
    match (streams, cats) {
        (Ok(s), Ok(c)) => process_xtream(catalog, s, c, source, stream_type),
        _ => {
            assert(keys_match(catalog.rows(), old(catalog).rows(), Seq::<ChannelView>::empty()));
            proof {
                lemma_others_kept_refl(catalog.rows(), Seq::empty());
                lemma_groups_extend_refl(catalog.group_rows());
            }
        },
    }
}

/// Refreshes, or first adds, an Xtream source from what its six requests
/// returned. Each content type that failed is skipped; when all three
/// failed the refresh fails and the catalog is left as it was.
pub fn get_xtream(catalog: &mut Catalog, source: Source, fetched: XtreamFetch, wipe: bool) -> (r: Result<(), Error>)
    requires
        old(catalog).wf(),
        old(catalog).has_room(2 * fetched_len(fetched) as int + 1),
    ensures
        final(catalog).wf(),
        xtream_base_url(source@) is Err ==> r == Err::<(), Error>(xtream_base_url(source@)->Err_0),
        xtream_base_url(source@) is Ok && wipe && source.id is None ==> r == Err::<(), Error>(Error::NoSourceId),
        xtream_base_url(source@) is Ok && !(wipe && source.id is None) && xtream_failures(fetched) > 2
            ==> r == Err::<(), Error>(Error::TooManyFailures),
        xtream_base_url(source@) is Ok && !(wipe && source.id is None) && xtream_failures(fetched) <= 2
            ==> r is Ok,
        r is Err ==> *final(catalog) == *old(catalog),
        r is Ok ==> keys_match(
            final(catalog).rows(),
            if wipe {
                old(catalog).rows().filter(row_kept(refresh_source_id(old(catalog), &source, wipe)))
            } else {
                old(catalog).rows()
            },
            fetched_channels(fetched, xtream_source(source@, refresh_source_id(old(catalog), &source, wipe))),
        ),
        r is Ok ==> fields_match(
            final(catalog).rows(),
            fetched_channels(fetched, xtream_source(source@, refresh_source_id(old(catalog), &source, wipe))),
        ),
        r is Ok ==> groups_cover(
            final(catalog).group_rows(),
            fetched_channels(fetched, xtream_source(source@, refresh_source_id(old(catalog), &source, wipe))),
            refresh_source_id(old(catalog), &source, wipe),
        ),
        r is Ok && wipe ==> state_restored(
            final(catalog).rows(),
            source.id->0,
            snapshot(old(catalog).rows(), source.id->0),
        ),
{
    let mut source = source;
    let ghost src0 = source@;
    match build_xtream_url(&mut source) {
        Ok(_) => {},
        Err(e) => {
            return Err(e);
        },
    }
    if wipe && source.id.is_none() {
        return Err(Error::NoSourceId);
    }
    let live_ok = fetched.live.is_ok() && fetched.live_cats.is_ok();
    let vods_ok = fetched.vods.is_ok() && fetched.vod_cats.is_ok();
    let series_ok = fetched.series.is_ok() && fetched.series_cats.is_ok();
    let mut fail_count: u8 = 0;
    if !live_ok {
        fail_count = fail_count + 1;
    }
    if !vods_ok {
        fail_count = fail_count + 1;
    }
    if !series_ok {
        fail_count = fail_count + 1;
    }
    assert(fail_count == xtream_failures(fetched));
    if fail_count > 2 {
        return Err(Error::TooManyFailures);
    }
    let (source_id, preserve) = match begin_refresh(catalog, &source, wipe) {
        Ok(p) => p,
        Err(e) => {
            return Err(e);
        },
    };
    source.id = Some(source_id);
    let ghost src = source@;
    assert(src == xtream_source(src0, source_id));
    let ghost base = catalog.rows();
    let ghost a = pipeline_channels(fetched.live, fetched.live_cats, src, LIVESTREAM);
    let ghost b = pipeline_channels(fetched.vods, fetched.vod_cats, src, MOVIE);
    let ghost c = pipeline_channels(fetched.series, fetched.series_cats, src, SERIE);
    let XtreamFetch { live, live_cats, vods, vod_cats, series, series_cats } = fetched;
    run_pipeline(catalog, live, live_cats, &source, LIVESTREAM);
    let ghost mid1 = catalog.rows();
    let ghost g1 = catalog.group_rows();
    run_pipeline(catalog, vods, vod_cats, &source, MOVIE);
    let ghost mid2 = catalog.rows();
    let ghost g2 = catalog.group_rows();
    run_pipeline(catalog, series, series_cats, &source, SERIE);
    proof {
        lemma_groups_cover_extend(g1, g2, a, source_id);
        lemma_groups_extend_trans(g1, g2, catalog.group_rows());
        lemma_groups_cover_extend(g1, catalog.group_rows(), a, source_id);
        lemma_groups_cover_extend(g2, catalog.group_rows(), b, source_id);
        lemma_groups_cover_concat(catalog.group_rows(), a, b, source_id);
        lemma_groups_cover_concat(catalog.group_rows(), a + b, c, source_id);
        assert forall|k: ChannelKey|
            has_key(catalog.rows(), k) <==> (has_key(base, k) || keys_have(a + b + c, k)) by {
            lemma_keys_have_concat(a + b, c, k);
            lemma_keys_have_concat(a, b, k);
        }
        lemma_fields_concat(mid1, mid2, a, b);
        lemma_fields_concat(mid2, catalog.rows(), a + b, c);
    }
    let ghost before_finish = catalog.rows();
    finish_refresh(catalog, source_id, &preserve, wipe);
    proof {
        lemma_fields_kept(before_finish, catalog.rows(), a + b + c);
    }
    assert(keys_match(catalog.rows(), base, a + b + c));
    Ok(())
}

} // verus!
