//! The Stalker portal client's logic: page arithmetic, aggregation of the
//! pages that arrived, category resolution and the mapping of portal items
//! to channels. The handshake and page requests are made by the caller.
use crate::catalog::{Catalog, cache_ok, fresh_rows, groups_cover, groups_extend, has_key, holds_fields, row_kept, snapshot};
use crate::catalog::{lemma_group_has_name, lemma_groups_cover_concat, lemma_groups_cover_extend, lemma_groups_cover_push, lemma_groups_extend_refl, lemma_groups_extend_trans};
use crate::error::Error;
use crate::m3u::{fields_match, keys_have, keys_match, lemma_fields_concat, lemma_fields_kept, lemma_fields_step, lemma_keys_have_push, lemma_others_kept_refl, lemma_others_step, others_kept};
use crate::media_type::{LIVESTREAM, MOVIE, SERIE};
use crate::refresh::{begin_refresh, finish_refresh, refresh_source_id, state_restored};
use crate::stalker_type;
use crate::text::{opt_view, str_eq};
use crate::types::{Channel, ChannelKey, ChannelView, Source, copy_opt_string};
use crate::xtream::{cat_lookup, get_cat_name, lemma_keys_have_concat, opt_or, pairs_view, url_with_pair};
use vstd::prelude::*;

verus! {

/// One item of a portal listing.
#[derive(Clone, Debug, PartialEq)]
pub struct StalkerItem {
    pub name: String,
    pub cmd: String,
    pub tv_genre_id: Option<String>,
    pub category_id: Option<String>,
    pub logo: Option<String>,
    pub screenshot_uri: Option<String>,
    pub enable_tv_archive: Option<u8>,
    pub tv_archive_duration: Option<u32>,
}

/// One genre or category of a portal.
#[derive(Clone, Debug, PartialEq)]
pub struct StalkerGenre {
    pub id: String,
    pub title: String,
}

/// What the requests of a portal refresh returned.
pub struct StalkerFetch {
    pub live_cats: Result<Vec<StalkerGenre>, Error>,
    pub vod_cats: Result<Vec<StalkerGenre>, Error>,
    pub series_cats: Result<Vec<StalkerGenre>, Error>,
    pub lives: Result<Vec<StalkerItem>, Error>,
    pub vods: Result<Vec<StalkerItem>, Error>,
    pub series: Result<Vec<StalkerItem>, Error>,
}

/// The media type of a portal content type; unknown types count as live.
pub open spec fn stalker_media_type(content_type: Seq<char>) -> u8 {
    if content_type == stalker_type::LIVE@ {
        LIVESTREAM
    } else if content_type == stalker_type::VOD@ {
        MOVIE
    } else if content_type == stalker_type::SERIES@ {
        SERIE
    } else {
        LIVESTREAM
    }
}

pub fn stalker_type_to_otv_type(stalker_type: &str) -> (r: u8)
    ensures
        r == stalker_media_type(stalker_type@),
{
    if str_eq(stalker_type, stalker_type::LIVE) {
        LIVESTREAM
    } else if str_eq(stalker_type, stalker_type::VOD) {
        MOVIE
    } else if str_eq(stalker_type, stalker_type::SERIES) {
        SERIE
    } else {
        LIVESTREAM
    }
}

/// The number of pages of a listing: the item count divided by the page
/// size, rounded up. A portal that reports no page size is read as one page.
pub open spec fn page_count_of(total_items: u32, max_page_items: u32) -> u32 {
    if max_page_items == 0 {
        if total_items == 0 {
            0
        } else {
            1
        }
    } else {
        ((total_items as int + max_page_items as int - 1) / max_page_items as int) as u32
    }
}

pub fn page_count(total_items: u32, max_page_items: u32) -> (r: u32)
    ensures
        r == page_count_of(total_items, max_page_items),
        max_page_items > 0 ==> r as int * max_page_items as int >= total_items as int,
        max_page_items > 0 && r > 0 ==> (r as int - 1) * (max_page_items as int) < (total_items as int),
{
    if max_page_items == 0 {
        if total_items == 0 {
            0
        } else {
            1
        }
    } else {
        let q = total_items / max_page_items;
        let r = if total_items % max_page_items == 0 {
            q
        } else {
            assert(q < 0xffff_ffff) by (nonlinear_arith)
                requires
                    max_page_items > 0,
                    q == total_items / max_page_items,
                    total_items % max_page_items != 0,
                    total_items <= 0xffff_ffff,
            {
                assert(max_page_items != 1);
                assert(q * max_page_items <= total_items);
            }
            q + 1
        };
        assert(r == page_count_of(total_items, max_page_items)) by (nonlinear_arith)
            requires
                max_page_items > 0,
                q == total_items / max_page_items,
                r == (if total_items % max_page_items == 0 { q as int } else { q as int + 1 }),
        ;
        assert(r as int * max_page_items as int >= total_items as int) by (nonlinear_arith)
            requires
                max_page_items > 0,
                q == total_items / max_page_items,
                r == (if total_items % max_page_items == 0 { q as int } else { q as int + 1 }),
        ;
        assert(r > 0 ==> (r as int - 1) * (max_page_items as int) < (total_items as int)) by (nonlinear_arith)
            requires
                max_page_items > 0,
                q == total_items / max_page_items,
                r == (if total_items % max_page_items == 0 { q as int } else { q as int + 1 }),
        ;
        r
    }
}

/// The items of the pages that arrived, in page order; a failed page is dropped.
pub open spec fn pages_items(pages: Seq<Result<Vec<StalkerItem>, Error>>) -> Seq<StalkerItem>
    decreases pages.len(),
{
    if pages.len() == 0 {
        Seq::empty()
    } else {
        pages_items(pages.drop_last()) + match pages.last() {
            Ok(v) => v@,
            Err(_) => Seq::empty(),
        }
    }
}

/// Gathers the items of the pages that arrived.
pub fn collect_pages(pages: Vec<Result<Vec<StalkerItem>, Error>>) -> (r: Vec<StalkerItem>)
    ensures
        r@ == pages_items(pages@),
{
    let mut out: Vec<StalkerItem> = Vec::new();
    let mut pages = pages;
    let ghost all = pages@;
    let ghost n = all.len();
    while pages.len() > 0
        invariant
            n == all.len(),
            pages@.len() <= n,
            pages@ == all.subrange(n - pages@.len(), n as int),
            out@ == pages_items(all.subrange(0, n - pages@.len())),
        decreases pages@.len(),
    {
        let ghost k = n - pages@.len();
        let ghost before = pages@;
        let p = pages.remove(0);
        proof {
            assert(before[0] == all.subrange(k, n as int)[0]);
            assert(all[k] == p);
            let sub = all.subrange(0, k + 1);
            assert(sub.drop_last() =~= all.subrange(0, k));
            assert(sub.last() == p);
            assert(pages@ =~= all.subrange(k + 1, n as int));
        }
        match p {
            Ok(mut items) => {
                out.append(&mut items);
            },
            Err(_) => {},
        }
        proof {
            assert(out@ =~= pages_items(all.subrange(0, k + 1)));
        }
    }
    assert(all.subrange(0, n as int) =~= all);
    out
}

/// The channel that a portal item becomes, under category name `cat`.
pub open spec fn stalker_channel(item: StalkerItem, cat: Option<Seq<char>>, content_type: Seq<char>, sid: i64) -> ChannelView {
    ChannelView {
        id: None,
        name: item.name@,
        url: Some(item.cmd@),
        group: cat,
        image: opt_or(opt_view(item.logo), opt_view(item.screenshot_uri)),
        media_type: stalker_media_type(content_type),
        source_id: Some(sid),
        series_id: None,
        group_id: None,
        favorite: false,
        stream_id: None,
        tv_archive: match item.enable_tv_archive {
            Some(f) => Some(f == 1),
            None => None,
        },
        season_id: None,
        episode_num: None,
    }
}

pub fn stalker_to_channel(
    item: StalkerItem,
    category_name: Option<String>,
    content_type: &str,
    source_id: i64,
) -> (r: Channel)
    ensures
        r@ == stalker_channel(item, opt_view(category_name), content_type@, source_id),
{
    let media_type = stalker_type_to_otv_type(content_type);
    let tv_archive = match item.enable_tv_archive {
        Some(f) => Some(f == 1),
        None => None,
    };
    let image = match item.logo {
        Some(l) => Some(l),
        None => item.screenshot_uri,
    };
    Channel {
        id: None,
        name: item.name,
        url: Some(item.cmd),
        group: category_name,
        image: image,
        media_type: media_type,
        source_id: Some(source_id),
        series_id: None,
        group_id: None,
        favorite: false,
        stream_id: None,
        tv_archive: tv_archive,
        season_id: None,
        episode_num: None,
    }
}

/// The (id, title) pairs of a genre or category list.
pub open spec fn genre_pairs(g: Seq<StalkerGenre>) -> Seq<(Seq<char>, Seq<char>)> {
    g.map_values(|x: StalkerGenre| (x.id@, x.title@))
}

pub fn genres_by_id(genres: &Vec<StalkerGenre>) -> (r: Vec<(String, String)>)
    ensures
        pairs_view(r@) == genre_pairs(genres@),
{
    let mut out: Vec<(String, String)> = Vec::new();
    let mut i: usize = 0;
    while i < genres.len()
        invariant
            i <= genres@.len(),
            out@.len() == i,
            pairs_view(out@) == genre_pairs(genres@.subrange(0, i as int)),
        decreases genres@.len() - i,
    {
        let ghost before = out@;
        let id = genres[i].id.clone();
        let title = genres[i].title.clone();
        out.push((id, title));
        proof {
            assert(out@ == before.push((id, title)));
            let sub = genres@.subrange(0, i + 1);
            assert forall|j: int| 0 <= j < sub.len() implies #[trigger] pairs_view(out@)[j] == genre_pairs(sub)[j] by {
                if j < i {
                    assert(out@[j] == before[j]);
                    assert(sub[j] == genres@.subrange(0, i as int)[j]);
                    assert(pairs_view(before)[j] == genre_pairs(genres@.subrange(0, i as int))[j]);
                } else {
                    assert(out@[j] == (id, title));
                    assert(sub[j] == genres@[i as int]);
                }
            }
            assert(pairs_view(out@) =~= genre_pairs(sub));
        }
        i = i + 1;
    }
    assert(genres@.subrange(0, genres@.len() as int) =~= genres@);
    out
}

/// The category name of an item: its category id, else its genre id, looked up.
pub open spec fn item_cat(item: StalkerItem, pairs: Seq<(Seq<char>, Seq<char>)>) -> Option<Seq<char>> {
    match opt_or(opt_view(item.category_id), opt_view(item.tv_genre_id)) {
        Some(id) => cat_lookup(pairs, id),
        None => None,
    }
}

/// The channels of a portal listing.
pub open spec fn stalker_channels(
    items: Seq<StalkerItem>,
    pairs: Seq<(Seq<char>, Seq<char>)>,
    content_type: Seq<char>,
    sid: i64,
) -> Seq<ChannelView> {
    items.map_values(|i: StalkerItem| stalker_channel(i, item_cat(i, pairs), content_type, sid))
}

/// Stores the items of one content type under their categories.
pub fn process_channels(
    catalog: &mut Catalog,
    cats: &Vec<(String, String)>,
    items: Vec<StalkerItem>,
    content_type: &str,
    source_id: i64,
)
    requires
        old(catalog).wf(),
        old(catalog).has_room(2 * items@.len() as int),
    ensures
        final(catalog).wf(),
        final(catalog).source_rows() == old(catalog).source_rows(),
        old(catalog).next_id <= final(catalog).next_id <= old(catalog).next_id + 2 * items@.len(),
        keys_match(
            final(catalog).rows(),
            old(catalog).rows(),
            stalker_channels(items@, pairs_view(cats@), content_type@, source_id),
        ),
        fields_match(final(catalog).rows(), stalker_channels(items@, pairs_view(cats@), content_type@, source_id)),
        others_kept(
            old(catalog).rows(),
            final(catalog).rows(),
            stalker_channels(items@, pairs_view(cats@), content_type@, source_id),
        ),
        groups_extend(old(catalog).group_rows(), final(catalog).group_rows()),
        groups_cover(
            final(catalog).group_rows(),
            stalker_channels(items@, pairs_view(cats@), content_type@, source_id),
            source_id,
        ),
        fresh_rows(old(catalog).rows(), Some(source_id)) ==> fresh_rows(final(catalog).rows(), Some(source_id)),
{
    proof {
        lemma_others_kept_refl(catalog.rows(), Seq::empty());
        lemma_groups_extend_refl(catalog.group_rows());
    }
    let mut groups: Vec<(String, i64)> = Vec::new();
    let ghost base = catalog.rows();
    let ghost pv = pairs_view(cats@);
    let ghost all = items@;
    let ghost n = all.len();
    let mut items = items;
    assert(all.subrange(0, 0) =~= Seq::<StalkerItem>::empty());
    assert(stalker_channels(all.subrange(0, 0), pv, content_type@, source_id) =~= Seq::<ChannelView>::empty());
    while items.len() > 0
        invariant
            n == all.len(),
            items@.len() <= n,
            items@ == all.subrange(n - items@.len(), n as int),
            pv == pairs_view(cats@),
            base == old(catalog).rows(),
            catalog.wf(),
            catalog.source_rows() == old(catalog).source_rows(),
            old(catalog).next_id <= catalog.next_id <= old(catalog).next_id + 2 * (n - items@.len()),
            catalog.has_room(2 * items@.len() as int),
            cache_ok(groups@, catalog.group_rows(), source_id),
            keys_match(catalog.rows(), base, stalker_channels(all.subrange(0, n - items@.len()), pv, content_type@, source_id)),
            fields_match(catalog.rows(), stalker_channels(all.subrange(0, n - items@.len()), pv, content_type@, source_id)),
            others_kept(base, catalog.rows(), stalker_channels(all.subrange(0, n - items@.len()), pv, content_type@, source_id)),
            groups_extend(old(catalog).group_rows(), catalog.group_rows()),
            groups_cover(catalog.group_rows(), stalker_channels(all.subrange(0, n - items@.len()), pv, content_type@, source_id), source_id),
            fresh_rows(base, Some(source_id)) ==> fresh_rows(catalog.rows(), Some(source_id)),
        decreases items@.len(),
    {
        let ghost k = n - items@.len();
        let ghost prev = stalker_channels(all.subrange(0, k), pv, content_type@, source_id);
        let ghost before = items@;
        let item = items.remove(0);
        proof {
            assert(before[0] == all.subrange(k, n as int)[0]);
            assert(items@ =~= all.subrange(k + 1, n as int));
        }
        let id = match &item.category_id {
            Some(c) => Some(c.clone()),
            None => copy_opt_string(&item.tv_genre_id),
        };
        let category_name = get_cat_name(cats, id);
        let mut channel = stalker_to_channel(item, category_name, content_type, source_id);
        let ghost c = channel@;
        proof {
            assert(stalker_channels(all.subrange(0, k + 1), pv, content_type@, source_id) =~= prev.push(c));
        }
        let ghost rows_before = catalog.rows();
        let ghost groups_before = catalog.group_rows();
        catalog.set_channel_group_id(&mut groups, &mut channel, source_id);
        let ghost grouped = channel@;
        let ghost groups_after = catalog.group_rows();
        let _ = catalog.insert_channel(channel);
        proof {
            assert(catalog.group_rows() == groups_after);
            lemma_groups_extend_trans(old(catalog).group_rows(), groups_before, groups_after);
            lemma_groups_cover_extend(groups_before, groups_after, prev, source_id);
            if c.group is Some {
                lemma_group_has_name(groups_after, c.group->0, source_id, grouped.group_id->0);
            }
            lemma_groups_cover_push(groups_after, prev, c, source_id);
            assert forall|j: int| 0 <= j < catalog.rows().len() && (#[trigger] catalog.rows()[j]).channel.key()
                == c.key() implies holds_fields(catalog.rows()[j], c) by {
                assert(holds_fields(catalog.rows()[j], grouped));
            }
            lemma_fields_step(rows_before, catalog.rows(), prev, Some(c));
            lemma_others_step(base, rows_before, catalog.rows(), prev, Some(c));
            assert forall|key: ChannelKey|
                has_key(catalog.rows(), key) <==> (has_key(base, key) || keys_have(prev.push(c), key)) by {
                lemma_keys_have_push(prev, c, key);
            }
        }
    }
    assert(all.subrange(0, n as int) =~= all);
}

/// Whether every request of a portal refresh succeeded.
pub open spec fn stalker_fetch_ok(f: StalkerFetch) -> bool {
    f.live_cats is Ok && f.vod_cats is Ok && f.series_cats is Ok && f.lives is Ok && f.vods is Ok
        && f.series is Ok
}

pub open spec fn stalker_fetch_len(f: StalkerFetch) -> nat {
    (match f.lives { Ok(v) => v@.len(), Err(_) => 0 }) + (match f.vods {
        Ok(v) => v@.len(),
        Err(_) => 0,
    }) + (match f.series { Ok(v) => v@.len(), Err(_) => 0 })
}

/// The channels of a portal refresh: live, then movies, then series.
pub open spec fn stalker_fetched_channels(f: StalkerFetch, sid: i64) -> Seq<ChannelView> {
    stalker_channels(f.lives->Ok_0@, genre_pairs(f.live_cats->Ok_0@), stalker_type::LIVE@, sid)
        + stalker_channels(f.vods->Ok_0@, genre_pairs(f.vod_cats->Ok_0@), stalker_type::VOD@, sid)
        + stalker_channels(f.series->Ok_0@, genre_pairs(f.series_cats->Ok_0@), stalker_type::SERIES@, sid)
}

/// The first error among a portal refresh's requests, in request order.
pub open spec fn stalker_fetch_error(f: StalkerFetch) -> Error {
    if f.live_cats is Err {
        f.live_cats->Err_0
    } else if f.vod_cats is Err {
        f.vod_cats->Err_0
    } else if f.series_cats is Err {
        f.series_cats->Err_0
    } else if f.lives is Err {
        f.lives->Err_0
    } else if f.vods is Err {
        f.vods->Err_0
    } else {
        f.series->Err_0
    }
}

/// Refreshes, or first adds, a portal source from what its requests
/// returned. A portal source needs a URL and a MAC address (held as its
/// user name); any failed request fails the refresh and leaves the catalog
/// as it was.
pub fn get_stalker(catalog: &mut Catalog, source: &Source, fetched: StalkerFetch, wipe: bool) -> (r: Result<(), Error>)
    requires
        old(catalog).wf(),
        old(catalog).has_room(2 * stalker_fetch_len(fetched) as int + 1),
    ensures
        final(catalog).wf(),
        source.url is None ==> r == Err::<(), Error>(Error::MissingUrl),
        source.url is Some && source.username is None ==> r == Err::<(), Error>(Error::MissingUsername),
        source.url is Some && source.username is Some && !stalker_fetch_ok(fetched) ==> r == Err::<(), Error>(
            stalker_fetch_error(fetched),
        ),
        source.url is Some && source.username is Some && stalker_fetch_ok(fetched) && wipe && source.id is None
            ==> r == Err::<(), Error>(Error::NoSourceId),
        source.url is Some && source.username is Some && stalker_fetch_ok(fetched) && !(wipe && source.id is None)
            ==> r is Ok,
        r is Err ==> *final(catalog) == *old(catalog),
        r is Ok ==> keys_match(
            final(catalog).rows(),
            if wipe {
                old(catalog).rows().filter(row_kept(refresh_source_id(old(catalog), source, wipe)))
            } else {
                old(catalog).rows()
            },
            stalker_fetched_channels(fetched, refresh_source_id(old(catalog), source, wipe)),
        ),
        r is Ok ==> fields_match(
            final(catalog).rows(),
            stalker_fetched_channels(fetched, refresh_source_id(old(catalog), source, wipe)),
        ),
        r is Ok ==> groups_cover(
            final(catalog).group_rows(),
            stalker_fetched_channels(fetched, refresh_source_id(old(catalog), source, wipe)),
            refresh_source_id(old(catalog), source, wipe),
        ),
        r is Ok && wipe ==> state_restored(
            final(catalog).rows(),
            source.id->0,
            snapshot(old(catalog).rows(), source.id->0),
        ),
{
    if source.url.is_none() {
        return Err(Error::MissingUrl);
    }
    if source.username.is_none() {
        return Err(Error::MissingUsername);
    }
    let ghost f = fetched;
    let StalkerFetch { live_cats, vod_cats, series_cats, lives, vods, series } = fetched;
    let live_cats = match live_cats {
        Ok(v) => v,
        Err(e) => {
            return Err(e);
        },
    };
    let vod_cats = match vod_cats {
        Ok(v) => v,
        Err(e) => {
            return Err(e);
        },
    };
    let series_cats = match series_cats {
        Ok(v) => v,
        Err(e) => {
            return Err(e);
        },
    };
    let lives = match lives {
        Ok(v) => v,
        Err(e) => {
            return Err(e);
        },
    };
    let vods = match vods {
        Ok(v) => v,
        Err(e) => {
            return Err(e);
        },
    };
    let series = match series {
        Ok(v) => v,
        Err(e) => {
            return Err(e);
        },
    };
    let (source_id, preserve) = match begin_refresh(catalog, source, wipe) {
        Ok(p) => p,
        Err(e) => {
            return Err(e);
        },
    };
    let ghost base = catalog.rows();
    let ghost a = stalker_channels(lives@, genre_pairs(live_cats@), stalker_type::LIVE@, source_id);
    let ghost b = stalker_channels(vods@, genre_pairs(vod_cats@), stalker_type::VOD@, source_id);
    let ghost c = stalker_channels(series@, genre_pairs(series_cats@), stalker_type::SERIES@, source_id);
    let live_pairs = genres_by_id(&live_cats);
    let vod_pairs = genres_by_id(&vod_cats);
    let series_pairs = genres_by_id(&series_cats);
    process_channels(catalog, &live_pairs, lives, stalker_type::LIVE, source_id);
    let ghost mid1 = catalog.rows();
    let ghost g1 = catalog.group_rows();
    process_channels(catalog, &vod_pairs, vods, stalker_type::VOD, source_id);
    let ghost mid2 = catalog.rows();
    let ghost g2 = catalog.group_rows();
    process_channels(catalog, &series_pairs, series, stalker_type::SERIES, source_id);
    proof {
        lemma_groups_extend_trans(g1, g2, catalog.group_rows());
        lemma_groups_cover_extend(g1, catalog.group_rows(), a, source_id);
        lemma_groups_cover_extend(g2, catalog.group_rows(), b, source_id);
        lemma_groups_cover_concat(catalog.group_rows(), a, b, source_id);
        lemma_groups_cover_concat(catalog.group_rows(), a + b, c, source_id);
        lemma_fields_concat(mid1, mid2, a, b);
        lemma_fields_concat(mid2, catalog.rows(), a + b, c);
        assert forall|k: ChannelKey|
            has_key(catalog.rows(), k) <==> (has_key(base, k) || keys_have(a + b + c, k)) by {
            lemma_keys_have_concat(a + b, c, k);
            lemma_keys_have_concat(a, b, k);
        }
    }
    let ghost before_finish = catalog.rows();
    finish_refresh(catalog, source_id, &preserve, wipe);
    proof {
        lemma_fields_kept(before_finish, catalog.rows(), a + b + c);
    }
    assert(keys_match(catalog.rows(), base, a + b + c));
    Ok(())
}

pub const MAC_KEY: &'static str = "mac";

pub const TYPE_KEY: &'static str = "type";

pub const ACTION_KEY: &'static str = "action";

pub const TOKEN_KEY: &'static str = "token";

pub const PAGE_KEY: &'static str = "p";

pub const CMD_KEY: &'static str = "cmd";

pub const SERIES_KEY: &'static str = "series";

pub const STB_TYPE: &'static str = "stb";

pub const HANDSHAKE_ACTION: &'static str = "handshake";

pub const ORDERED_LIST_ACTION: &'static str = "get_ordered_list";

pub const CATEGORIES_ACTION: &'static str = "get_categories";

pub const GENRES_ACTION: &'static str = "get_genres";

pub const CREATE_LINK_ACTION: &'static str = "create_link";

/// `url` with the query pairs of `pairs` appended in order.
pub open spec fn with_pairs(url: Seq<char>, pairs: Seq<(Seq<char>, Seq<char>)>) -> Option<Seq<char>>
    decreases pairs.len(),
{
    if pairs.len() == 0 {
        Some(url)
    } else {
        match with_pairs(url, pairs.drop_last()) {
            Some(u) => url_with_pair(u, pairs.last().0, pairs.last().1),
            None => None,
        }
    }
}

/// Once a URL fails to parse, appending more pairs cannot mend it.
proof fn lemma_pairs_stay_none(url: Seq<char>, pv: Seq<(Seq<char>, Seq<char>)>, j: int)
    requires
        0 <= j <= pv.len(),
        with_pairs(url, pv.subrange(0, j)) is None,
    ensures
        with_pairs(url, pv) is None,
    decreases pv.len() - j,
{
    if j == pv.len() {
        assert(pv.subrange(0, j) =~= pv);
    } else {
        assert(pv.subrange(0, j + 1).drop_last() =~= pv.subrange(0, j));
        lemma_pairs_stay_none(url, pv, j + 1);
    }
}

/// Appends query pairs in order; `None` when the URL does not parse.
fn append_pairs(url: &str, pairs: &Vec<(&str, String)>) -> (r: Option<String>)
    ensures
        opt_view(r) == with_pairs(url@, pairs@.map_values(|p: (&str, String)| (p.0@, p.1@))),
{
    let ghost pv = pairs@.map_values(|p: (&str, String)| (p.0@, p.1@));
    let mut current = url.to_owned();
    let mut i: usize = 0;
    assert(pv.subrange(0, 0) =~= Seq::<(Seq<char>, Seq<char>)>::empty());
    while i < pairs.len()
        invariant
            i <= pairs@.len(),
            pv == pairs@.map_values(|p: (&str, String)| (p.0@, p.1@)),
            with_pairs(url@, pv.subrange(0, i as int)) == Some(current@),
        decreases pairs@.len() - i,
    {
        let (k, v) = &pairs[i];
        proof {
            assert(pv.subrange(0, i + 1).drop_last() =~= pv.subrange(0, i as int));
            assert(pv.subrange(0, i + 1).last() == pv[i as int]);
        }
        match crate::xtream::append_query_pair(current.as_str(), k, v.as_str()) {
            Some(u) => {
                current = u;
            },
            None => {
                proof {
                    lemma_pairs_stay_none(url@, pv, i + 1);
                }
                return None;
            },
        }
        i = i + 1;
    }
    assert(pv.subrange(0, pv.len() as int) =~= pv);
    Some(current)
}

fn url_result(r: Option<String>) -> (out: Result<String, Error>)
    ensures
        match r {
            Some(s) => out is Ok && out->Ok_0 == s,
            None => out == Err::<String, Error>(Error::InvalidUrl),
        },
{
    match r {
        Some(s) => Ok(s),
        None => Err(Error::InvalidUrl),
    }
}

/// The handshake request of a portal: the MAC address, the device type
/// and the action.
pub fn handshake_url(url: &str, mac: &str) -> (r: Result<String, Error>)
    ensures
        crate::xtream::string_result(r) == match with_pairs(
            url@,
            seq![(MAC_KEY@, mac@), (TYPE_KEY@, STB_TYPE@), (ACTION_KEY@, HANDSHAKE_ACTION@)],
        ) {
            Some(u) => Ok(u),
            None => Err(Error::InvalidUrl),
        },
{
    let pairs = vec![(MAC_KEY, mac.to_owned()), (TYPE_KEY, STB_TYPE.to_owned()), (ACTION_KEY, HANDSHAKE_ACTION.to_owned())];
    assert(pairs@.map_values(|p: (&str, String)| (p.0@, p.1@)) =~= seq![(MAC_KEY@, mac@), (TYPE_KEY@, STB_TYPE@), (ACTION_KEY@, HANDSHAKE_ACTION@)]);
    url_result(append_pairs(url, &pairs))
}

/// The request of one page of a portal listing.
pub fn ordered_list_url(url: &str, content_type: &str, page: u32, token: &str, mac: &str) -> (r: Result<String, Error>)
    ensures
        crate::xtream::string_result(r) == match with_pairs(
            url@,
            seq![
                (TYPE_KEY@, content_type@),
                (TOKEN_KEY@, token@),
                (MAC_KEY@, mac@),
                (PAGE_KEY@, crate::text::decimal_digits(page as nat)),
                (ACTION_KEY@, ORDERED_LIST_ACTION@),
            ],
        ) {
            Some(u) => Ok(u),
            None => Err(Error::InvalidUrl),
        },
{
    let pairs = vec![
        (TYPE_KEY, content_type.to_owned()),
        (TOKEN_KEY, token.to_owned()),
        (MAC_KEY, mac.to_owned()),
        (PAGE_KEY, crate::text::u64_to_string(page as u64)),
        (ACTION_KEY, ORDERED_LIST_ACTION.to_owned()),
    ];
    assert(pairs@.map_values(|p: (&str, String)| (p.0@, p.1@)) =~= seq![
        (TYPE_KEY@, content_type@),
        (TOKEN_KEY@, token@),
        (MAC_KEY@, mac@),
        (PAGE_KEY@, crate::text::decimal_digits(page as nat)),
        (ACTION_KEY@, ORDERED_LIST_ACTION@),
    ]);
    url_result(append_pairs(url, &pairs))
}

/// The category request of movies or series; live channels have genres
/// instead, which `genres_url` asks for.
pub fn categories_url(url: &str, content_type: &str, token: &str, mac: &str) -> (r: Result<String, Error>)
    requires
        content_type@ != stalker_type::LIVE@,
    ensures
        crate::xtream::string_result(r) == match with_pairs(
            url@,
            seq![(TYPE_KEY@, content_type@), (TOKEN_KEY@, token@), (MAC_KEY@, mac@), (ACTION_KEY@, CATEGORIES_ACTION@)],
        ) {
            Some(u) => Ok(u),
            None => Err(Error::InvalidUrl),
        },
{
    let pairs = vec![
        (TYPE_KEY, content_type.to_owned()),
        (TOKEN_KEY, token.to_owned()),
        (MAC_KEY, mac.to_owned()),
        (ACTION_KEY, CATEGORIES_ACTION.to_owned()),
    ];
    assert(pairs@.map_values(|p: (&str, String)| (p.0@, p.1@)) =~= seq![(TYPE_KEY@, content_type@), (TOKEN_KEY@, token@), (MAC_KEY@, mac@), (ACTION_KEY@, CATEGORIES_ACTION@)]);
    url_result(append_pairs(url, &pairs))
}

/// The genre request of live channels.
pub fn genres_url(url: &str, token: &str, mac: &str) -> (r: Result<String, Error>)
    ensures
        crate::xtream::string_result(r) == match with_pairs(
            url@,
            seq![(TYPE_KEY@, stalker_type::LIVE@), (TOKEN_KEY@, token@), (MAC_KEY@, mac@), (ACTION_KEY@, GENRES_ACTION@)],
        ) {
            Some(u) => Ok(u),
            None => Err(Error::InvalidUrl),
        },
{
    let pairs = vec![
        (TYPE_KEY, stalker_type::LIVE.to_owned()),
        (TOKEN_KEY, token.to_owned()),
        (MAC_KEY, mac.to_owned()),
        (ACTION_KEY, GENRES_ACTION.to_owned()),
    ];
    assert(pairs@.map_values(|p: (&str, String)| (p.0@, p.1@)) =~= seq![(TYPE_KEY@, stalker_type::LIVE@), (TOKEN_KEY@, token@), (MAC_KEY@, mac@), (ACTION_KEY@, GENRES_ACTION@)]);
    url_result(append_pairs(url, &pairs))
}

/// The request that resolves a playable command into a stream URL,
/// optionally for one episode of a series.
pub fn create_stream(url: &str, cmd: &str, mac: &str, token: &str, episode: Option<u32>) -> (r: Result<String, Error>)
    ensures
        crate::xtream::string_result(r) == match with_pairs(
            url@,
            seq![
                (TYPE_KEY@, stalker_type::LIVE@),
                (MAC_KEY@, mac@),
                (ACTION_KEY@, CREATE_LINK_ACTION@),
                (TOKEN_KEY@, token@),
                (CMD_KEY@, cmd@),
            ] + match episode {
                Some(e) => seq![(SERIES_KEY@, crate::text::decimal_digits(e as nat))],
                None => Seq::empty(),
            },
        ) {
            Some(u) => Ok(u),
            None => Err(Error::InvalidUrl),
        },
{
    let mut pairs = vec![
        (TYPE_KEY, stalker_type::LIVE.to_owned()),
        (MAC_KEY, mac.to_owned()),
        (ACTION_KEY, CREATE_LINK_ACTION.to_owned()),
        (TOKEN_KEY, token.to_owned()),
        (CMD_KEY, cmd.to_owned()),
    ];
    if let Some(e) = episode {
        pairs.push((SERIES_KEY, crate::text::u64_to_string(e as u64)));
    }
    assert(pairs@.map_values(|p: (&str, String)| (p.0@, p.1@)) =~= seq![
        (TYPE_KEY@, stalker_type::LIVE@),
        (MAC_KEY@, mac@),
        (ACTION_KEY@, CREATE_LINK_ACTION@),
        (TOKEN_KEY@, token@),
        (CMD_KEY@, cmd@),
    ] + match episode {
        Some(e) => seq![(SERIES_KEY@, crate::text::decimal_digits(e as nat))],
        None => Seq::empty(),
    });
    url_result(append_pairs(url, &pairs))
}

pub const MOVIE_ID_KEY: &'static str = "movie_id";

/// The request of the episodes of a portal series.
pub fn episodes_url(url: &str, token: &str, mac: &str, movie_id: &str) -> (r: Result<String, Error>)
    ensures
        crate::xtream::string_result(r) == match with_pairs(
            url@,
            seq![
                (TOKEN_KEY@, token@),
                (MAC_KEY@, mac@),
                (TYPE_KEY@, stalker_type::SERIES@),
                (ACTION_KEY@, ORDERED_LIST_ACTION@),
                (MOVIE_ID_KEY@, movie_id@),
            ],
        ) {
            Some(u) => Ok(u),
            None => Err(Error::InvalidUrl),
        },
{
    let pairs = vec![
        (TOKEN_KEY, token.to_owned()),
        (MAC_KEY, mac.to_owned()),
        (TYPE_KEY, stalker_type::SERIES.to_owned()),
        (ACTION_KEY, ORDERED_LIST_ACTION.to_owned()),
        (MOVIE_ID_KEY, movie_id.to_owned()),
    ];
    assert(pairs@.map_values(|p: (&str, String)| (p.0@, p.1@)) =~= seq![
        (TOKEN_KEY@, token@),
        (MAC_KEY@, mac@),
        (TYPE_KEY@, stalker_type::SERIES@),
        (ACTION_KEY@, ORDERED_LIST_ACTION@),
        (MOVIE_ID_KEY@, movie_id@),
    ]);
    url_result(append_pairs(url, &pairs))
}

} // verus!
