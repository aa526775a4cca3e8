//! Expansion of an Xtream series into its seasons and episodes, fetched on
//! demand: the caller asks `plan_episodes` whether a fetch is needed, makes
//! the request, and hands the episodes to `get_episodes`.
use crate::catalog::{Catalog, RowView, has_key, rows_extend};
use crate::error::Error;
use crate::media_type::{MOVIE, SERIE};
use crate::text::{decimal_digits, parse_u64, trim_of, trim_str, u64_to_string};
use crate::types::{Channel, ChannelKey, Season, SeasonView, Source, SourceView};
use crate::xtream::{
    JsonScalar, get_serde_json_number, get_url, json_number_of, playback_url,
};
use vstd::prelude::*;

verus! {

/// One episode of a series' info.
#[derive(Clone, Debug, PartialEq)]
pub struct XtreamEpisode {
    pub id: String,
    pub title: String,
    pub container_extension: String,
    pub episode_num: JsonScalar,
    pub season: JsonScalar,
    pub image: Option<String>,
}

/// The name of the season that collects episodes without a usable season number.
pub const UNCATEGORIZED: &'static str = "Uncategorized";

pub const SEASON_PREFIX: &'static str = "Season ";

/// The season number under which uncategorized episodes are kept.
pub const UNCATEGORIZED_NUMBER: i64 = -1;

/// A number field as a sort key; a missing number sorts first.
pub open spec fn num_key(v: JsonScalar) -> int {
    match json_number_of(v) {
        Some(n) => n as int,
        None => -1,
    }
}

/// Episodes are ordered by season number, then by episode number.
pub open spec fn ep_before(a: XtreamEpisode, b: XtreamEpisode) -> bool {
    num_key(a.season) < num_key(b.season) || (num_key(a.season) == num_key(b.season) && num_key(
        a.episode_num,
    ) <= num_key(b.episode_num))
}

pub open spec fn sorted_episodes(s: Seq<XtreamEpisode>) -> bool {
    forall|i: int, j: int| 0 <= i < j < s.len() ==> ep_before(#[trigger] s[i], #[trigger] s[j])
}

fn key_of(v: &JsonScalar) -> (r: Option<u64>)
    ensures
        match r {
            Some(n) => num_key(*v) == n as int,
            None => num_key(*v) == -1,
        },
{
    get_serde_json_number(v)
}

fn option_lt(a: Option<u64>, b: Option<u64>) -> (r: bool)
    ensures
        r == (match (a, b) {
            (None, Some(_)) => true,
            (Some(x), Some(y)) => x < y,
            _ => false,
        }),
{
    match (a, b) {
        (None, Some(_)) => true,
        (Some(x), Some(y)) => x < y,
        _ => false,
    }
}

fn episode_before(a: &XtreamEpisode, b: &XtreamEpisode) -> (r: bool)
    ensures
        r == ep_before(*a, *b),
{
    let sa = key_of(&a.season);
    let sb = key_of(&b.season);
    let ea = key_of(&a.episode_num);
    let eb = key_of(&b.episode_num);
    option_lt(sa, sb) || (!option_lt(sa, sb) && !option_lt(sb, sa) && !option_lt(eb, ea))
}

/// Orders episodes by season, then episode number, keeping the input order among equals.
pub fn sort_episodes(episodes: Vec<XtreamEpisode>) -> (r: Vec<XtreamEpisode>)
    ensures
        sorted_episodes(r@),
        r@.to_multiset() == episodes@.to_multiset(),
{
    broadcast use vstd::seq_lib::group_to_multiset_ensures;
    let mut input = episodes;
    let ghost all = input@;
    let ghost n = all.len();
    let mut sorted: Vec<XtreamEpisode> = Vec::new();
    while input.len() > 0
        invariant
            n == all.len(),
            input@.len() <= n,
            input@ == all.subrange(n - input@.len(), n as int),
            sorted_episodes(sorted@),
            sorted@.to_multiset() == all.subrange(0, n - input@.len()).to_multiset(),
        decreases input@.len(),
    {
        let ghost k = n - input@.len();
        let ghost before_input = input@;
        let e = input.remove(0);
        proof {
            assert(before_input[0] == all.subrange(k, n as int)[0]);
            assert(input@ =~= all.subrange(k + 1, n as int));
            assert(all.subrange(0, k + 1) =~= all.subrange(0, k).push(e));
        }
        let mut p: usize = 0;
        while p < sorted.len() && episode_before(&sorted[p], &e)
            invariant
                p <= sorted@.len(),
                forall|i: int| 0 <= i < p ==> ep_before(#[trigger] sorted@[i], e),
            decreases sorted@.len() - p,
        {
            p = p + 1;
        }
        let ghost old_sorted = sorted@;
        sorted.insert(p, e);
        proof {
            assert(sorted@ == old_sorted.insert(p as int, e));
            assert forall|i: int, j: int| 0 <= i < j < sorted@.len() implies ep_before(
                #[trigger] sorted@[i],
                #[trigger] sorted@[j],
            ) by {
                if j < p {
                    assert(sorted@[i] == old_sorted[i] && sorted@[j] == old_sorted[j]);
                } else if j == p {
                    assert(sorted@[i] == old_sorted[i]);
                } else if i == p {
                    assert(sorted@[j] == old_sorted[j - 1]);
                    assert(!ep_before(old_sorted[p as int], e));
                    if j - 1 > p {
                        assert(ep_before(old_sorted[p as int], old_sorted[j - 1]));
                    }
                } else if i < p {
                    assert(sorted@[i] == old_sorted[i] && sorted@[j] == old_sorted[j - 1]);
                } else {
                    assert(sorted@[i] == old_sorted[i - 1] && sorted@[j] == old_sorted[j - 1]);
                }
            }
            vstd::seq_lib::to_multiset_insert(old_sorted, p as int, e);
            vstd::seq_lib::to_multiset_build(all.subrange(0, k), e);
        }
    }
    assert(all.subrange(0, n as int) =~= all);
    sorted
}

/// The season number of an episode, when it has one that fits.
pub open spec fn season_number_of(e: XtreamEpisode) -> Option<i64> {
    match json_number_of(e.season) {
        Some(n) => if n <= i64::MAX as u64 {
            Some(n as i64)
        } else {
            None
        },
        None => None,
    }
}

/// The key of the row that episode `e` becomes, in season `season_id`.
pub open spec fn episode_key(e: XtreamEpisode, src: SourceView, series_id: u64, season_id: i64) -> ChannelKey {
    ChannelKey {
        name: trim_of(e.title@),
        source_id: src.id,
        url: Some(playback_url(e.id@, src, SERIE, Some(e.container_extension@))->Ok_0),
        series_id: Some(series_id),
        season_id: Some(season_id),
    }
}

/// The number of the season that episode `e` goes into.
pub open spec fn season_number_for(e: XtreamEpisode) -> i64 {
    match season_number_of(e) {
        Some(n) => n,
        None => UNCATEGORIZED_NUMBER,
    }
}

/// The name of season `n`: "Season n", or "Uncategorized".
pub open spec fn season_name(n: i64) -> Seq<char> {
    if n == UNCATEGORIZED_NUMBER {
        UNCATEGORIZED@
    } else {
        SEASON_PREFIX@ + decimal_digits(n as nat)
    }
}

/// Whether `seasons` holds, under id `season_id`, the season of series
/// `series_id` and source `sid` that episode `e` goes into, with its name.
pub open spec fn season_row_of(seasons: Seq<SeasonView>, e: XtreamEpisode, series_id: u64, sid: i64, season_id: i64) -> bool {
    exists|j: int|
        0 <= j < seasons.len() && (#[trigger] seasons[j]).id == Some(season_id) && seasons[j].series_id == series_id
            && seasons[j].source_id == sid && seasons[j].season_number == season_number_for(e) && seasons[j].name
            == season_name(season_number_for(e))
}

/// Whether the row of episode `e` is stored, linked to the row of its season.
pub open spec fn episode_stored(
    rows: Seq<RowView>,
    seasons: Seq<SeasonView>,
    e: XtreamEpisode,
    src: SourceView,
    series_id: u64,
) -> bool {
    exists|season_id: i64|
        has_key(rows, #[trigger] episode_key(e, src, series_id, season_id)) && season_row_of(
            seasons,
            e,
            series_id,
            src.id->0,
            season_id,
        )
}

/// Whether row `r` is the row of episode `e`.
pub open spec fn row_of_episode(r: RowView, e: XtreamEpisode, src: SourceView, series_id: u64) -> bool {
    r.channel.season_id is Some && r.channel.key() == episode_key(e, src, series_id, r.channel.season_id->0)
}

/// The rows after the first `n` of `rows` are rows of episodes of
/// `episodes`, added in order of season, then episode number.
pub open spec fn added_in_order(
    rows: Seq<RowView>,
    n: int,
    episodes: Seq<XtreamEpisode>,
    src: SourceView,
    series_id: u64,
) -> bool {
    forall|a: int, b: int|
        n <= a < b < rows.len() ==> rows_in_order(#[trigger] rows[a], #[trigger] rows[b], episodes, src, series_id)
}

/// Rows `ra` and `rb` are rows of episodes of `episodes`, the first one
/// ordered before the second.
pub open spec fn rows_in_order(
    ra: RowView,
    rb: RowView,
    episodes: Seq<XtreamEpisode>,
    src: SourceView,
    series_id: u64,
) -> bool {
    exists|ea: XtreamEpisode, eb: XtreamEpisode|
        episodes.contains(ea) && episodes.contains(eb) && row_of_episode(ra, ea, src, series_id) && row_of_episode(
            rb,
            eb,
            src,
            series_id,
        ) && #[trigger] ep_before(ea, eb)
}

/// A season row of an episode stays one when another season is stored.
pub proof fn lemma_season_row_kept(
    old: Seq<SeasonView>,
    new: Seq<SeasonView>,
    s: SeasonView,
    e: XtreamEpisode,
    series_id: u64,
    sid: i64,
    season_id: i64,
)
    requires
        season_row_of(old, e, series_id, sid, season_id),
        s.name == season_name(s.season_number),
        new == old.push(SeasonView { id: new.last().id, ..s }) || exists|j: int|
            0 <= j < old.len() && (#[trigger] old[j]).series_id == s.series_id && old[j].season_number
                == s.season_number && old[j].source_id == s.source_id && new == old.update(
                j,
                SeasonView { name: s.name, image: s.image, ..old[j] },
            ),
    ensures
        season_row_of(new, e, series_id, sid, season_id),
{
    let w = choose|w: int|
        0 <= w < old.len() && (#[trigger] old[w]).id == Some(season_id) && old[w].series_id == series_id
            && old[w].source_id == sid && old[w].season_number == season_number_for(e) && old[w].name
            == season_name(season_number_for(e));
    if new == old.push(SeasonView { id: new.last().id, ..s }) {
        assert(new[w] == old[w]);
    } else {
        let j = choose|j: int|
            0 <= j < old.len() && (#[trigger] old[j]).series_id == s.series_id && old[j].season_number
                == s.season_number && old[j].source_id == s.source_id && new == old.update(
                j,
                SeasonView { name: s.name, image: s.image, ..old[j] },
            );
        assert(new[w].id == old[w].id);
    }
}

/// The season row that episode `e` goes into.
fn season_for(e: &XtreamEpisode, series_id: u64, source_id: i64) -> (r: Season)
    ensures
        r.series_id == series_id,
        r.source_id == source_id,
        r.season_number == season_number_for(*e),
        r.name@ == season_name(r.season_number),
{
    match get_serde_json_number(&e.season) {
        Some(n) => {
            if n <= 0x7fff_ffff_ffff_ffff {
                let mut name = SEASON_PREFIX.to_owned();
                let digits = u64_to_string(n);
                name.append(digits.as_str());
                return Season {
                    id: None,
                    name: name,
                    season_number: n as i64,
                    image: None,
                    series_id: series_id,
                    source_id: source_id,
                };
            }
        },
        None => {},
    }
    Season {
        id: None,
        name: UNCATEGORIZED.to_owned(),
        season_number: UNCATEGORIZED_NUMBER,
        image: None,
        series_id: series_id,
        source_id: source_id,
    }
}

/// Stores the episodes of series `series_id`, in order of season and
/// episode number, each linked to its season, which is created when absent.
/// Fails, leaving the catalog as it was, when the source cannot give
/// playback URLs.
pub fn get_episodes(catalog: &mut Catalog, source: &Source, series_id: u64, episodes: Vec<XtreamEpisode>) -> (r: Result<(), Error>)
    requires
        old(catalog).wf(),
        old(catalog).has_room(2 * episodes@.len() as int),
    ensures
        final(catalog).wf(),
        source.id is None ==> r == Err::<(), Error>(Error::NoSourceId),
        source.id is Some && playback_url(Seq::empty(), source@, SERIE, None) is Err ==> r == Err::<(), Error>(
            playback_url(Seq::empty(), source@, SERIE, None)->Err_0,
        ),
        source.id is Some && playback_url(Seq::empty(), source@, SERIE, None) is Ok ==> r is Ok,
        r is Err ==> *final(catalog) == *old(catalog),
        r is Ok ==> forall|k: ChannelKey| has_key(old(catalog).rows(), k) ==> has_key(final(catalog).rows(), k),
        r is Ok ==> rows_extend(old(catalog).rows(), final(catalog).rows()),
        r is Ok ==> final(catalog).rows().len() <= old(catalog).rows().len() + episodes@.len(),
        r is Ok ==> added_in_order(final(catalog).rows(), old(catalog).rows().len() as int, episodes@, source@, series_id),
        r is Ok ==> forall|j: int|
            0 <= j < episodes@.len() ==> episode_stored(
                final(catalog).rows(),
                final(catalog).season_rows(),
                #[trigger] episodes@[j],
                source@,
                series_id,
            ),
{
    let source_id = match source.id {
        Some(id) => id,
        None => {
            return Err(Error::NoSourceId);
        },
    };
    match get_url(String::new(), source, SERIE, None) {
        Ok(_) => {},
        Err(e) => {
            return Err(e);
        },
    }
    let ghost input = episodes@;
    let sorted = sort_episodes(episodes);
    let ghost all = sorted@;
    proof {
        vstd::seq_lib::to_multiset_len(all);
        vstd::seq_lib::to_multiset_len(input);
    }
    let ghost base = catalog.rows();
    let ghost mut season_ids: Seq<i64> = Seq::empty();
    let ghost mut idx: Seq<int> = Seq::empty();
    let mut i: usize = 0;
    while i < sorted.len()
        invariant
            i <= sorted@.len(),
            all == sorted@,
            all.len() == input.len(),
            source.id == Some(source_id),
            playback_url(Seq::empty(), source@, SERIE, None) is Ok,
            base == old(catalog).rows(),
            catalog.wf(),
            old(catalog).next_id <= catalog.next_id <= old(catalog).next_id + 2 * i,
            catalog.has_room(2 * (sorted@.len() - i) as int),
            season_ids.len() == i,
            catalog.rows().len() == base.len() + idx.len(),
            idx.len() <= i,
            rows_extend(base, catalog.rows()),
            forall|t: int|
                0 <= t < idx.len() ==> 0 <= #[trigger] idx[t] < i && row_of_episode(
                    catalog.rows()[base.len() + t],
                    all[idx[t]],
                    source@,
                    series_id,
                ),
            forall|t1: int, t2: int| 0 <= t1 < t2 < idx.len() ==> #[trigger] idx[t1] < #[trigger] idx[t2],
            sorted_episodes(all),
            forall|k: ChannelKey| has_key(base, k) ==> has_key(catalog.rows(), k),
            forall|j: int|
                0 <= j < i ==> has_key(catalog.rows(), #[trigger] episode_key(all[j], source@, series_id, season_ids[j])),
            forall|j: int|
                0 <= j < i ==> season_row_of(catalog.season_rows(), #[trigger] all[j], series_id, source_id, season_ids[j]),
        decreases sorted@.len() - i,
    {
        let e = &sorted[i];
        let season = season_for(e, series_id, source_id);
        let ghost sv = season@;
        let ghost seasons_before = catalog.season_rows();
        let season_id = catalog.insert_season(season);
        proof {
            if catalog.season_rows().len() != seasons_before.len() {
                assert(catalog.season_rows().last().id == Some(season_id));
                assert(catalog.season_rows() == seasons_before.push(
                    SeasonView { id: catalog.season_rows().last().id, ..sv },
                ));
                assert(catalog.season_rows()[seasons_before.len() as int].id == Some(season_id));
            } else {
                let j = choose|j: int|
                    0 <= j < seasons_before.len() && (#[trigger] seasons_before[j]).id == Some(season_id)
                        && seasons_before[j].series_id == sv.series_id && seasons_before[j].season_number
                        == sv.season_number && seasons_before[j].source_id == sv.source_id
                        && catalog.season_rows() == seasons_before.update(
                        j,
                        SeasonView { name: sv.name, image: sv.image, ..seasons_before[j] },
                    );
                assert(catalog.season_rows()[j].id == Some(season_id));
            }
            assert(season_row_of(catalog.season_rows(), all[i as int], series_id, source_id, season_id));
            assert forall|j: int| 0 <= j < i implies season_row_of(
                catalog.season_rows(),
                #[trigger] all[j],
                series_id,
                source_id,
                season_ids[j],
            ) by {
                lemma_season_row_kept(seasons_before, catalog.season_rows(), sv, all[j], series_id, source_id, season_ids[j]);
            }
        }
        let url = match get_url(e.id.clone(), source, SERIE, Some(e.container_extension.clone())) {
            Ok(u) => u,
            Err(_) => String::new(),
        };
        let episode_num = match get_serde_json_number(&e.episode_num) {
            Some(n) => if n <= 0x7fff_ffff_ffff_ffff {
                Some(n as i64)
            } else {
                None
            },
            None => None,
        };
        let channel = Channel {
            id: None,
            name: trim_str(e.title.as_str()),
            url: Some(url),
            group: None,
            image: crate::types::copy_opt_string(&e.image),
            media_type: MOVIE,
            source_id: source.id,
            series_id: Some(series_id),
            group_id: None,
            favorite: false,
            stream_id: None,
            tv_archive: None,
            season_id: Some(season_id),
            episode_num: episode_num,
        };
        let ghost key = channel@.key();
        assert(key == episode_key(all[i as int], source@, series_id, season_id));
        let ghost rows_before = catalog.rows();
        let ghost cv = channel@;
        let _ = catalog.insert_channel(channel);
        proof {
            let old_idx = idx;
            if !has_key(rows_before, key) {
                idx = idx.push(i as int);
                assert(catalog.rows()[rows_before.len() as int] == crate::catalog::new_row(cv, catalog.rows()[rows_before.len() as int].id));
            }
            assert forall|t: int| 0 <= t < idx.len() implies 0 <= #[trigger] idx[t] < i + 1 && row_of_episode(
                catalog.rows()[base.len() + t],
                all[idx[t]],
                source@,
                series_id,
            ) by {
                if t < old_idx.len() {
                    assert(idx[t] == old_idx[t]);
                    assert(catalog.rows()[base.len() + t].channel.key() == rows_before[base.len() + t].channel.key());
                }
            }
            assert forall|t1: int, t2: int| 0 <= t1 < t2 < idx.len() implies #[trigger] idx[t1] < #[trigger] idx[t2] by {
                if t2 < old_idx.len() {
                    assert(idx[t1] == old_idx[t1] && idx[t2] == old_idx[t2]);
                } else {
                    assert(idx[t1] == old_idx[t1]);
                }
            }
            crate::m3u::lemma_rows_extend_trans(base, rows_before, catalog.rows());
            season_ids = season_ids.push(season_id);
            assert forall|j: int| 0 <= j < i + 1 implies season_row_of(
                catalog.season_rows(),
                #[trigger] all[j],
                series_id,
                source_id,
                season_ids[j],
            ) by {}
            assert forall|j: int| 0 <= j < i + 1 implies has_key(
                catalog.rows(),
                #[trigger] episode_key(all[j], source@, series_id, season_ids[j]),
            ) by {
                if j < i {
                    assert(has_key(rows_before, episode_key(all[j], source@, series_id, season_ids[j])));
                }
            }
        }
        i = i + 1;
    }
    proof {
        assert forall|a: int, b: int|
            base.len() <= a < b < catalog.rows().len() implies rows_in_order(
                #[trigger] catalog.rows()[a],
                #[trigger] catalog.rows()[b],
                input,
                source@,
                series_id,
            ) by {
            let ta = a - base.len();
            let tb = b - base.len();
            assert(idx[ta] < idx[tb]);
            let ea = all[idx[ta]];
            let eb = all[idx[tb]];
            vstd::seq_lib::to_multiset_contains(all, ea);
            vstd::seq_lib::to_multiset_contains(all, eb);
            assert(all.contains(ea) && all.contains(eb)) by {
                assert(all[idx[ta]] == ea && all[idx[tb]] == eb);
            }
            vstd::seq_lib::to_multiset_contains(input, ea);
            vstd::seq_lib::to_multiset_contains(input, eb);
            assert(row_of_episode(catalog.rows()[base.len() + ta], ea, source@, series_id));
            assert(row_of_episode(catalog.rows()[base.len() + tb], eb, source@, series_id));
            assert(ep_before(ea, eb));
        }
        assert forall|j: int| 0 <= j < input.len() implies episode_stored(
            catalog.rows(),
            catalog.season_rows(),
            #[trigger] input[j],
            source@,
            series_id,
        ) by {
            vstd::seq_lib::to_multiset_contains(input, input[j]);
            vstd::seq_lib::to_multiset_contains(all, input[j]);
            assert(input.to_multiset().count(input[j]) > 0);
            assert(all.contains(input[j]));
            let m = choose|m: int| 0 <= m < all.len() && all[m] == input[j];
            assert(has_key(catalog.rows(), episode_key(all[m], source@, series_id, season_ids[m])));
            assert(season_row_of(catalog.season_rows(), all[m], series_id, source_id, season_ids[m]));
        }
    }
    Ok(())
}

/// Whether episodes of a series container must be fetched: `None` when the
/// catalog holds them already, else the series id to fetch.
pub fn plan_episodes(catalog: &Catalog, channel: &Channel) -> (r: Result<Option<u64>, Error>)
    ensures
        channel.url is None ==> r == Err::<Option<u64>, Error>(Error::MissingUrl),
        channel.url is Some && crate::text::decimal_value(channel@.url->0) is None ==> r == Err::<
            Option<u64>,
            Error,
        >(Error::InvalidNumber),
        channel.url is Some && crate::text::decimal_value(channel@.url->0) is Some && channel.source_id is None
            ==> r == Err::<Option<u64>, Error>(Error::NoSourceId),
        r is Ok ==> ({
            let series_id = crate::text::decimal_value(channel@.url->0)->0;
            let stored = exists|i: int|
                0 <= i < catalog.rows().len() && #[trigger] catalog.rows()[i].channel.series_id == Some(series_id)
                    && catalog.rows()[i].channel.source_id == channel.source_id;
            &&& stored ==> r == Ok::<Option<u64>, Error>(None)
            &&& !(stored) ==> r == Ok::<Option<u64>, Error>(Some(series_id))
        }),
        channel.url is Some && crate::text::decimal_value(channel@.url->0) is Some && channel.source_id is Some
            ==> r is Ok,
{
    let url = match &channel.url {
        Some(u) => u,
        None => {
            return Err(Error::MissingUrl);
        },
    };
    let series_id = match parse_u64(url.as_str()) {
        Some(n) => n,
        None => {
            return Err(Error::InvalidNumber);
        },
    };
    let source_id = match channel.source_id {
        Some(id) => id,
        None => {
            return Err(Error::NoSourceId);
        },
    };
    if catalog.series_has_episodes(series_id, source_id) {
        Ok(None)
    } else {
        Ok(Some(series_id))
    }
}

} // verus!
