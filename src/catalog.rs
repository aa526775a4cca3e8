//! The catalog store: sources, groups, channels, seasons and channel
//! headers, with the find-or-create and upsert operations that ingestion
//! relies on.
use crate::types::{
    PreserveView, ChannelPreserve, EPGNotify, CustomChannel, CustomChannelExtraData,
    Channel, ChannelHttpHeaders, ChannelKey, ChannelView, Group, GroupView, HeadersView, Season,
    SeasonView, Source, SourceView, copy_opt_string, opt_i64_eq,
};
use crate::error::Error;
use vstd::prelude::*;

verus! {

/// A channel row: the channel with its row id and the user's state.
pub struct StoredChannel {
    pub id: i64,
    pub channel: Channel,
    pub last_watched: Option<u64>,
    pub hidden: bool,
}

pub ghost struct RowView {
    pub id: i64,
    pub channel: ChannelView,
    pub last_watched: Option<u64>,
    pub hidden: bool,
}

impl View for StoredChannel {
    type V = RowView;

    open spec fn view(&self) -> RowView {
        RowView {
            id: self.id,
            channel: self.channel@,
            last_watched: self.last_watched,
            hidden: self.hidden,
        }
    }
}

/// The whole catalog. Row ids come from one counter, `next_id`.
pub struct Catalog {
    pub sources: Vec<Source>,
    pub groups: Vec<Group>,
    pub channels: Vec<StoredChannel>,
    pub seasons: Vec<Season>,
    pub headers: Vec<ChannelHttpHeaders>,
    pub epgs: Vec<EPGNotify>,
    pub next_id: i64,
}

/// The row that an upsert leaves when `c` meets an existing row of the same key:
/// the mutable fields are overwritten, identity and user state are kept.
pub open spec fn upserted(r: RowView, c: ChannelView) -> RowView {
    RowView {
        channel: ChannelView {
            url: c.url,
            media_type: c.media_type,
            stream_id: c.stream_id,
            image: c.image,
            series_id: c.series_id,
            tv_archive: c.tv_archive,
            season_id: c.season_id,
            ..r.channel
        },
        ..r
    }
}

/// The row that an insert of `c` creates under row id `id`.
pub open spec fn new_row(c: ChannelView, id: i64) -> RowView {
    RowView { id: id, channel: ChannelView { id: Some(id), ..c }, last_watched: None, hidden: false }
}

pub open spec fn unique_keys(rows: Seq<RowView>) -> bool {
    forall|i: int, j: int|
        0 <= i < j < rows.len() ==> #[trigger] rows[i].channel.key() != #[trigger] rows[j].channel.key()
}

pub open spec fn unique_groups(groups: Seq<GroupView>) -> bool {
    forall|i: int, j: int|
        0 <= i < j < groups.len() ==> !(#[trigger] groups[i].name == #[trigger] groups[j].name
            && groups[i].source_id == groups[j].source_id)
}

/// Whether two season rows are the same season of the same series and source.
pub open spec fn same_season(a: SeasonView, b: SeasonView) -> bool {
    a.series_id == b.series_id && a.season_number == b.season_number && a.source_id == b.source_id
}

pub open spec fn unique_seasons(seasons: Seq<SeasonView>) -> bool {
    forall|i: int, j: int| 0 <= i < j < seasons.len() ==> !same_season(#[trigger] seasons[i], #[trigger] seasons[j])
}

pub proof fn lemma_filter_unique_seasons(seasons: Seq<SeasonView>, pred: spec_fn(SeasonView) -> bool)
    requires
        unique_seasons(seasons),
    ensures
        unique_seasons(seasons.filter(pred)),
    decreases seasons.len(),
{
    reveal(Seq::filter);
    if seasons.len() > 0 {
        let init = seasons.drop_last();
        assert(unique_seasons(init)) by {
            assert forall|i: int, j: int| 0 <= i < j < init.len() implies !same_season(
                #[trigger] init[i],
                #[trigger] init[j],
            ) by {
                assert(init[i] == seasons[i] && init[j] == seasons[j]);
            }
        }
        lemma_filter_unique_seasons(init, pred);
        let f = init.filter(pred);
        lemma_filter_subset(init, pred);
        if pred(seasons.last()) {
            let g = f.push(seasons.last());
            assert forall|i: int, j: int| 0 <= i < j < g.len() implies !same_season(#[trigger] g[i], #[trigger] g[j]) by {
                if j == f.len() {
                    assert(init.contains(f[i]));
                    let k = choose|k: int| 0 <= k < init.len() && init[k] == f[i];
                    assert(seasons[k] == init[k]);
                    assert(seasons[seasons.len() - 1] == seasons.last());
                } else {
                    assert(g[i] == f[i] && g[j] == f[j]);
                }
            }
        }
    }
}

pub open spec fn unique_source_names(sources: Seq<SourceView>) -> bool {
    forall|i: int, j: int|
        0 <= i < j < sources.len() ==> #[trigger] sources[i].name != #[trigger] sources[j].name
}

/// Whether a source of this name is stored.
pub open spec fn has_source_named(sources: Seq<SourceView>, name: Seq<char>) -> bool {
    exists|j: int| 0 <= j < sources.len() && (#[trigger] sources[j]).name == name
}

/// The id under which a source of this name is, or would be, stored.
pub open spec fn source_id_for(sources: Seq<SourceView>, name: Seq<char>, next_id: i64) -> i64 {
    if has_source_named(sources, name) {
        sources[choose|j: int| 0 <= j < sources.len() && (#[trigger] sources[j]).name == name].id->0
    } else {
        next_id
    }
}

/// Row `r` holds the fields that an upsert of channel `c` writes.
pub open spec fn holds_fields(r: RowView, c: ChannelView) -> bool {
    &&& r.channel.url == c.url
    &&& r.channel.media_type == c.media_type
    &&& r.channel.stream_id == c.stream_id
    &&& r.channel.image == c.image
    &&& r.channel.tv_archive == c.tv_archive
    &&& r.channel.season_id == c.season_id
}

/// `new` holds the rows of `old`, in place, with their ids, keys and
/// written fields unchanged.
pub open spec fn fields_kept(old: Seq<RowView>, new: Seq<RowView>) -> bool {
    &&& new.len() == old.len()
    &&& forall|i: int|
        0 <= i < new.len() ==> (#[trigger] new[i]).channel.key() == old[i].channel.key() && new[i].id == old[i].id
            && holds_fields(new[i], old[i].channel)
}

/// `new` holds the rows of `old` in place, with their ids and keys, and
/// perhaps more after them.
pub open spec fn rows_extend(old: Seq<RowView>, new: Seq<RowView>) -> bool {
    &&& old.len() <= new.len()
    &&& forall|i: int| 0 <= i < old.len() ==> (#[trigger] new[i]).id == old[i].id && new[i].channel.key() == old[i].channel.key()
}

/// Whether a header row belongs to the row that holds key `k`.
pub open spec fn headed(rows: Seq<RowView>, hdrs: Seq<HeadersView>, k: ChannelKey) -> bool {
    exists|r: int, j: int|
        0 <= r < rows.len() && 0 <= j < hdrs.len() && (#[trigger] rows[r]).channel.key() == k && (#[trigger] hdrs[j]).channel_id
            == Some(rows[r].id)
}

/// A header row stays with its channel row while rows and header rows
/// only grow.
pub proof fn lemma_headed_kept(
    rows: Seq<RowView>,
    hdrs: Seq<HeadersView>,
    rows2: Seq<RowView>,
    hdrs2: Seq<HeadersView>,
    k: ChannelKey,
)
    requires
        headed(rows, hdrs, k),
        rows_extend(rows, rows2),
        hdrs.len() <= hdrs2.len(),
        hdrs2.subrange(0, hdrs.len() as int) == hdrs,
    ensures
        headed(rows2, hdrs2, k),
{
    let (r, j) = choose|r: int, j: int|
        0 <= r < rows.len() && 0 <= j < hdrs.len() && (#[trigger] rows[r]).channel.key() == k && (#[trigger] hdrs[j]).channel_id
            == Some(rows[r].id);
    assert(hdrs2[j] == hdrs2.subrange(0, hdrs.len() as int)[j]);
    assert(rows2[r].id == rows[r].id);
}

/// The rows of `new` with the key of `c` hold its written fields; every
/// other row is one of `old`.
pub open spec fn stored_fields(old: Seq<RowView>, new: Seq<RowView>, c: Option<ChannelView>) -> bool {
    forall|j: int|
        0 <= j < new.len() ==> if c is Some && (#[trigger] new[j]).channel.key() == c->0.key() {
            holds_fields(new[j], c->0)
        } else {
            old.contains(new[j])
        }
}

/// Whether some row holds key `k`.
pub open spec fn has_key(rows: Seq<RowView>, k: ChannelKey) -> bool {
    exists|i: int| 0 <= i < rows.len() && #[trigger] rows[i].channel.key() == k
}

/// Whether `groups` holds group `name` of source `sid` under id `id`.
pub open spec fn group_has(groups: Seq<GroupView>, name: Seq<char>, sid: i64, id: i64) -> bool {
    exists|j: int|
        0 <= j < groups.len() && #[trigger] groups[j].name == name && groups[j].source_id == Some(sid)
            && groups[j].id == Some(id)
}

/// Whether source `sid` has a group named `name`.
pub open spec fn group_has_name(groups: Seq<GroupView>, name: Seq<char>, sid: i64) -> bool {
    exists|j: int| 0 <= j < groups.len() && (#[trigger] groups[j]).name == name && groups[j].source_id == Some(sid)
}

/// Every channel of `cs` that names a group finds a group row of that
/// name under source `sid`.
pub open spec fn groups_cover(groups: Seq<GroupView>, cs: Seq<ChannelView>, sid: i64) -> bool {
    forall|i: int| 0 <= i < cs.len() && (#[trigger] cs[i]).group is Some ==> group_has_name(groups, cs[i].group->0, sid)
}

/// `new` holds the group rows of `old` in place, and perhaps more after them.
pub open spec fn groups_extend(old: Seq<GroupView>, new: Seq<GroupView>) -> bool {
    old.len() <= new.len() && new.subrange(0, old.len() as int) == old
}

pub proof fn lemma_groups_extend_refl(a: Seq<GroupView>)
    ensures
        groups_extend(a, a),
{
    assert(a.subrange(0, a.len() as int) =~= a);
}

pub proof fn lemma_group_has_name(groups: Seq<GroupView>, name: Seq<char>, sid: i64, id: i64)
    requires
        group_has(groups, name, sid, id),
    ensures
        group_has_name(groups, name, sid),
{
    let j = choose|j: int|
        0 <= j < groups.len() && #[trigger] groups[j].name == name && groups[j].source_id == Some(sid)
            && groups[j].id == Some(id);
    assert(groups[j].name == name);
}

pub proof fn lemma_groups_extend_trans(a: Seq<GroupView>, b: Seq<GroupView>, c: Seq<GroupView>)
    requires
        groups_extend(a, b),
        groups_extend(b, c),
    ensures
        groups_extend(a, c),
{
    assert(c.subrange(0, a.len() as int) =~= b.subrange(0, a.len() as int));
}

/// Group rows added after the others keep every name they covered.
pub proof fn lemma_groups_cover_extend(old: Seq<GroupView>, new: Seq<GroupView>, cs: Seq<ChannelView>, sid: i64)
    requires
        groups_cover(old, cs, sid),
        groups_extend(old, new),
    ensures
        groups_cover(new, cs, sid),
{
    assert forall|i: int| 0 <= i < cs.len() && (#[trigger] cs[i]).group is Some implies group_has_name(
        new,
        cs[i].group->0,
        sid,
    ) by {
        let j = choose|j: int| 0 <= j < old.len() && (#[trigger] old[j]).name == cs[i].group->0 && old[j].source_id == Some(sid);
        assert(new[j] == new.subrange(0, old.len() as int)[j]);
    }
}

/// A channel whose group has a row extends the cover by it.
pub proof fn lemma_groups_cover_push(groups: Seq<GroupView>, cs: Seq<ChannelView>, c: ChannelView, sid: i64)
    requires
        groups_cover(groups, cs, sid),
        c.group is Some ==> group_has_name(groups, c.group->0, sid),
    ensures
        groups_cover(groups, cs.push(c), sid),
{
    assert forall|i: int| 0 <= i < cs.push(c).len() && (#[trigger] cs.push(c)[i]).group is Some implies group_has_name(
        groups,
        cs.push(c)[i].group->0,
        sid,
    ) by {
        if i < cs.len() {
            assert(cs.push(c)[i] == cs[i]);
        }
    }
}

pub proof fn lemma_groups_cover_concat(groups: Seq<GroupView>, a: Seq<ChannelView>, b: Seq<ChannelView>, sid: i64)
    requires
        groups_cover(groups, a, sid),
        groups_cover(groups, b, sid),
    ensures
        groups_cover(groups, a + b, sid),
{
    assert forall|i: int| 0 <= i < (a + b).len() && (#[trigger] (a + b)[i]).group is Some implies group_has_name(
        groups,
        (a + b)[i].group->0,
        sid,
    ) by {
        if i < a.len() {
            assert((a + b)[i] == a[i]);
        } else {
            assert((a + b)[i] == b[i - a.len()]);
        }
    }
}

/// The group cache of one ingestion pass maps names to ids of groups of
/// source `sid` that the catalog holds.
pub open spec fn cache_ok(cache: Seq<(String, i64)>, groups: Seq<GroupView>, sid: i64) -> bool {
    forall|i: int| 0 <= i < cache.len() ==> group_has(groups, (#[trigger] cache[i]).0@, sid, cache[i].1)
}

/// The groups of `new` are those of `old`, with at most one more, and ids
/// were drawn for exactly the added ones.
pub open spec fn groups_grow(old: &Catalog, new: &Catalog) -> bool {
    (new.group_rows() == old.group_rows() && new.next_id == old.next_id) || (new.group_rows()
        == old.group_rows().push(new.group_rows().last()) && new.next_id == old.next_id + 1)
}

pub proof fn lemma_group_has_push(groups: Seq<GroupView>, g: GroupView, name: Seq<char>, sid: i64, id: i64)
    requires
        group_has(groups, name, sid, id),
    ensures
        group_has(groups.push(g), name, sid, id),
{
    let j = choose|j: int|
        0 <= j < groups.len() && #[trigger] groups[j].name == name && groups[j].source_id == Some(sid)
            && groups[j].id == Some(id);
    assert(groups.push(g)[j] == groups[j]);
}

pub proof fn lemma_cache_ok_push(
    cache: Seq<(String, i64)>,
    groups: Seq<GroupView>,
    g: GroupView,
    sid: i64,
)
    requires
        cache_ok(cache, groups, sid),
    ensures
        cache_ok(cache, groups.push(g), sid),
{
    assert forall|i: int| 0 <= i < cache.len() implies group_has(
        groups.push(g),
        (#[trigger] cache[i]).0@,
        sid,
        cache[i].1,
    ) by {
        lemma_group_has_push(groups, g, cache[i].0@, sid, cache[i].1);
    }
}

/// No row of source `sid` carries user state: as a fresh ingestion leaves them.
pub open spec fn fresh_rows(rows: Seq<RowView>, sid: Option<i64>) -> bool {
    forall|i: int|
        0 <= i < rows.len() && (#[trigger] rows[i]).channel.source_id == sid ==> !rows[i].channel.favorite
            && rows[i].last_watched is None && !rows[i].hidden
}

/// Programme reminders that have not started at time `now`.
pub open spec fn epg_pending(now: i64) -> spec_fn(EPGNotify) -> bool {
    |e: EPGNotify| e.start_timestamp >= now
}

/// The source under which hand-made channels are kept.
pub open spec fn custom_source_view(name: Seq<char>) -> SourceView {
    SourceView {
        id: None,
        name: name,
        url: None,
        url_origin: None,
        username: None,
        password: None,
        source_type: crate::source_type::CUSTOM,
        use_tvg_id: None,
        enabled: true,
        user_agent: None,
        max_streams: None,
    }
}

pub fn get_custom_source(name: String) -> (r: Source)
    ensures
        r@ == custom_source_view(name@),
{
    Source {
        id: None,
        name: name,
        enabled: true,
        username: None,
        password: None,
        source_type: crate::source_type::CUSTOM,
        url: None,
        url_origin: None,
        use_tvg_id: None,
        user_agent: None,
        max_streams: None,
    }
}

/// Whether no header field is set.
pub open spec fn headers_empty(h: HeadersView) -> bool {
    h.ignore_ssl is None && h.http_origin is None && h.referrer is None && h.user_agent is None
}

pub fn channel_headers_empty(headers: &ChannelHttpHeaders) -> (r: bool)
    ensures
        r == headers_empty(headers@),
{
    headers.ignore_ssl.is_none() && headers.http_origin.is_none() && headers.referrer.is_none()
        && headers.user_agent.is_none()
}

/// `new` is `old` with some more header rows, none of them empty.
pub open spec fn headers_grow(old: Seq<HeadersView>, new: Seq<HeadersView>) -> bool {
    &&& old.len() <= new.len()
    &&& new.subrange(0, old.len() as int) == old
    &&& forall|i: int| old.len() <= i < new.len() ==> !headers_empty(#[trigger] new[i])
}

pub proof fn lemma_headers_grow_trans(a: Seq<HeadersView>, b: Seq<HeadersView>, c: Seq<HeadersView>)
    requires
        headers_grow(a, b),
        headers_grow(b, c),
    ensures
        headers_grow(a, c),
{
    assert(c.subrange(0, a.len() as int) =~= b.subrange(0, a.len() as int));
    assert forall|i: int| a.len() <= i < c.len() implies !headers_empty(#[trigger] c[i]) by {
        if i < b.len() {
            assert(c[i] == c.subrange(0, b.len() as int)[i]);
        }
    }
}

pub proof fn lemma_headers_grow_refl(a: Seq<HeadersView>)
    ensures
        headers_grow(a, a),
{
    assert(a.subrange(0, a.len() as int) =~= a);
}

/// Rows that a deletion of channel `id` keeps.
pub open spec fn id_kept(id: i64) -> spec_fn(RowView) -> bool {
    |r: RowView| r.id != id
}

/// A source as a listing shows it: without the origin of its URL.
pub open spec fn listed(s: SourceView) -> SourceView {
    SourceView { url_origin: None, ..s }
}

/// The sources that a listing selects.
pub open spec fn source_selected(only_enabled: bool) -> spec_fn(SourceView) -> bool {
    |s: SourceView| !only_enabled || s.enabled
}

pub proof fn lemma_filter_all(s: Seq<SourceView>)
    ensures
        s.filter(source_selected(false)) == s,
    decreases s.len(),
{
    reveal(Seq::filter);
    if s.len() > 0 {
        lemma_filter_all(s.drop_last());
        assert(s.drop_last().push(s.last()) =~= s);
    }
}

/// Rows that a wipe of source `sid` keeps.
pub open spec fn row_kept(sid: i64) -> spec_fn(RowView) -> bool {
    |r: RowView| r.channel.source_id != Some(sid)
}

/// Groups that a wipe of source `sid` keeps.
pub open spec fn group_kept(sid: i64) -> spec_fn(GroupView) -> bool {
    |g: GroupView| g.source_id != Some(sid)
}

/// Seasons that a wipe of source `sid` keeps.
pub open spec fn season_kept(sid: i64) -> spec_fn(SeasonView) -> bool {
    |s: SeasonView| s.source_id != sid
}

/// Rows of source `sid`.
pub open spec fn of_source(sid: i64) -> spec_fn(RowView) -> bool {
    |r: RowView| r.channel.source_id == Some(sid)
}

/// Rows whose user state a refresh of source `sid` snapshots: favorites
/// and watched channels, series episodes excepted.
pub open spec fn preserved(sid: i64) -> spec_fn(RowView) -> bool {
    |r: RowView|
        r.channel.source_id == Some(sid) && (r.channel.favorite || r.last_watched is Some)
            && r.channel.series_id is None
}

pub open spec fn preserve_of(r: RowView) -> PreserveView {
    PreserveView {
        name: r.channel.name,
        favorite: r.channel.favorite,
        last_watched: r.last_watched,
        hidden: r.hidden,
    }
}

/// The snapshot of source `sid` taken from `rows`, in row order.
pub open spec fn snapshot(rows: Seq<RowView>, sid: i64) -> Seq<PreserveView>
    decreases rows.len(),
{
    if rows.len() == 0 {
        Seq::empty()
    } else {
        let prev = snapshot(rows.drop_last(), sid);
        if preserved(sid)(rows.last()) {
            prev.push(preserve_of(rows.last()))
        } else {
            prev
        }
    }
}

/// Every row that a filter keeps comes from the filtered sequence.
pub proof fn lemma_filter_subset<A>(s: Seq<A>, pred: spec_fn(A) -> bool)
    ensures
        forall|i: int| 0 <= i < s.filter(pred).len() ==> s.contains(#[trigger] s.filter(pred)[i]),
    decreases s.len(),
{
    reveal(Seq::filter);
    if s.len() > 0 {
        let init = s.drop_last();
        lemma_filter_subset(init, pred);
        let f = init.filter(pred);
        assert forall|i: int| 0 <= i < s.filter(pred).len() implies s.contains(
            #[trigger] s.filter(pred)[i],
        ) by {
            if i < f.len() {
                assert(s.filter(pred)[i] == f[i]);
                assert(init.contains(f[i]));
                let k = choose|k: int| 0 <= k < init.len() && init[k] == f[i];
                assert(s[k] == f[i]);
            } else {
                assert(s[s.len() - 1] == s.last());
            }
        }
    }
}

/// Row `r` after the records of `ps` are replayed in order onto the rows
/// of source `sid` that bear their name.
pub open spec fn restored(r: RowView, sid: i64, ps: Seq<PreserveView>) -> RowView
    decreases ps.len(),
{
    if ps.len() == 0 {
        r
    } else {
        let prev = restored(r, sid, ps.drop_last());
        let p = ps.last();
        if r.channel.source_id == Some(sid) && r.channel.name == p.name {
            RowView {
                channel: ChannelView { favorite: p.favorite, ..prev.channel },
                last_watched: p.last_watched,
                hidden: p.hidden,
                ..prev
            }
        } else {
            prev
        }
    }
}

/// The number of rows of source `sid`.
pub open spec fn count_of(rows: Seq<RowView>, sid: i64) -> nat {
    rows.filter(of_source(sid)).len()
}

pub proof fn lemma_filter_unique_keys(rows: Seq<RowView>, pred: spec_fn(RowView) -> bool)
    requires
        unique_keys(rows),
    ensures
        unique_keys(rows.filter(pred)),
    decreases rows.len(),
{
    reveal(Seq::filter);
    if rows.len() > 0 {
        let init = rows.drop_last();
        assert(unique_keys(init)) by {
            assert forall|i: int, j: int| 0 <= i < j < init.len() implies #[trigger] init[i].channel.key()
                != #[trigger] init[j].channel.key() by {
                assert(init[i] == rows[i] && init[j] == rows[j]);
            }
        }
        lemma_filter_unique_keys(init, pred);
        let f = init.filter(pred);
        lemma_filter_subset(init, pred);
        if pred(rows.last()) {
            let g = f.push(rows.last());
            assert forall|i: int, j: int| 0 <= i < j < g.len() implies #[trigger] g[i].channel.key()
                != #[trigger] g[j].channel.key() by {
                if j == f.len() {
                    assert(init.contains(f[i]));
                    let k = choose|k: int| 0 <= k < init.len() && init[k] == f[i];
                    assert(rows[k] == init[k]);
                    assert(rows[rows.len() - 1] == rows.last());
                } else {
                    assert(g[i] == f[i] && g[j] == f[j]);
                }
            }
        }
    }
}

pub proof fn lemma_filter_unique_groups(groups: Seq<GroupView>, pred: spec_fn(GroupView) -> bool)
    requires
        unique_groups(groups),
    ensures
        unique_groups(groups.filter(pred)),
    decreases groups.len(),
{
    reveal(Seq::filter);
    if groups.len() > 0 {
        let init = groups.drop_last();
        assert(unique_groups(init)) by {
            assert forall|i: int, j: int| 0 <= i < j < init.len() implies !(
            #[trigger] init[i].name == #[trigger] init[j].name && init[i].source_id
                == init[j].source_id) by {
                assert(init[i] == groups[i] && init[j] == groups[j]);
            }
        }
        lemma_filter_unique_groups(init, pred);
        let f = init.filter(pred);
        lemma_filter_subset(init, pred);
        if pred(groups.last()) {
            let g = f.push(groups.last());
            assert forall|i: int, j: int| 0 <= i < j < g.len() implies !(
            #[trigger] g[i].name == #[trigger] g[j].name && g[i].source_id == g[j].source_id) by {
                if j == f.len() {
                    assert(init.contains(f[i]));
                    let k = choose|k: int| 0 <= k < init.len() && init[k] == f[i];
                    assert(groups[k] == init[k]);
                    assert(groups[groups.len() - 1] == groups.last());
                } else {
                    assert(g[i] == f[i] && g[j] == f[j]);
                }
            }
        }
    }
}

/// Replaying a snapshot keeps a row's id and key.
pub proof fn lemma_restored_keeps(r: RowView, sid: i64, ps: Seq<PreserveView>)
    ensures
        restored(r, sid, ps).id == r.id,
        restored(r, sid, ps).channel.key() == r.channel.key(),
        restored(r, sid, ps).channel.name == r.channel.name,
        restored(r, sid, ps).channel.source_id == r.channel.source_id,
        holds_fields(restored(r, sid, ps), r.channel),
    decreases ps.len(),
{
    if ps.len() > 0 {
        lemma_restored_keeps(r, sid, ps.drop_last());
    }
}

fn opt_u64_eq_some(a: Option<u64>, b: u64) -> (r: bool)
    ensures
        r == (a == Some(b)),
{
    match a {
        Some(x) => x == b,
        None => false,
    }
}

impl StoredChannel {
    /// A field-by-field copy.
    pub fn duplicate(&self) -> (r: StoredChannel)
        ensures
            r@ == self@,
    {
        StoredChannel {
            id: self.id,
            channel: self.channel.duplicate(),
            last_watched: self.last_watched,
            hidden: self.hidden,
        }
    }
}

impl Group {
    /// A field-by-field copy.
    pub fn duplicate(&self) -> (r: Group)
        ensures
            r@ == self@,
    {
        Group {
            id: self.id,
            name: self.name.clone(),
            image: copy_opt_string(&self.image),
            source_id: self.source_id,
            media_type: self.media_type,
        }
    }
}

impl Season {
    /// A field-by-field copy.
    pub fn duplicate(&self) -> (r: Season)
        ensures
            r@ == self@,
    {
        Season {
            id: self.id,
            name: self.name.clone(),
            season_number: self.season_number,
            image: copy_opt_string(&self.image),
            series_id: self.series_id,
            source_id: self.source_id,
        }
    }
}

impl Catalog {
    pub open spec fn rows(&self) -> Seq<RowView> {
        self.channels@.map_values(|r: StoredChannel| r@)
    }

    pub open spec fn group_rows(&self) -> Seq<GroupView> {
        self.groups@.map_values(|g: Group| g@)
    }

    pub open spec fn source_rows(&self) -> Seq<SourceView> {
        self.sources@.map_values(|s: Source| s@)
    }

    pub open spec fn season_rows(&self) -> Seq<SeasonView> {
        self.seasons@.map_values(|s: Season| s@)
    }

    pub open spec fn header_rows(&self) -> Seq<HeadersView> {
        self.headers@.map_values(|h: ChannelHttpHeaders| h@)
    }

    /// Channel keys are unique, group names are unique per source, seasons
    /// are unique per series, number and source, and every stored source,
    /// group and season has an id.
    pub open spec fn wf(&self) -> bool {
        &&& self.next_id >= 1
        &&& unique_keys(self.rows())
        &&& unique_groups(self.group_rows())
        &&& forall|i: int| 0 <= i < self.source_rows().len() ==> (#[trigger] self.source_rows()[i]).id is Some
        &&& unique_source_names(self.source_rows())
        &&& forall|i: int| 0 <= i < self.group_rows().len() ==> (#[trigger] self.group_rows()[i]).id is Some
        &&& unique_seasons(self.season_rows())
        &&& forall|i: int| 0 <= i < self.season_rows().len() ==> (#[trigger] self.season_rows()[i]).id is Some
    }

    /// Whether `n` more rows can be given ids.
    pub open spec fn has_room(&self, n: int) -> bool {
        self.next_id + n < i64::MAX
    }

    /// Only the channel rows differ between `self` and `other`.
    pub open spec fn same_but_rows(&self, other: &Catalog) -> bool {
        &&& self.source_rows() == other.source_rows()
        &&& self.group_rows() == other.group_rows()
        &&& self.season_rows() == other.season_rows()
        &&& self.header_rows() == other.header_rows()
        &&& self.epgs@ == other.epgs@
        &&& self.next_id == other.next_id
    }

    /// An empty catalog.
    pub fn new() -> (r: Catalog)
        ensures
            r.wf(),
            r.rows().len() == 0,
            r.group_rows().len() == 0,
            r.source_rows().len() == 0,
            r.season_rows().len() == 0,
            r.header_rows().len() == 0,
    {
        Catalog {
            sources: Vec::new(),
            groups: Vec::new(),
            channels: Vec::new(),
            seasons: Vec::new(),
            headers: Vec::new(),
            epgs: Vec::new(),
            next_id: 1,
        }
    }

    /// The index of the row that holds `c`'s key.
    pub fn find_channel(&self, c: &Channel) -> (r: Option<usize>)
        ensures
            match r {
                Some(i) => i < self.rows().len() && self.rows()[i as int].channel.key() == c@.key(),
                None => !has_key(self.rows(), c@.key()),
            },
    {
        let mut i: usize = 0;
        while i < self.channels.len()
            invariant
                i <= self.channels@.len(),
                forall|j: int| 0 <= j < i ==> #[trigger] self.rows()[j].channel.key() != c@.key(),
            decreases self.channels@.len() - i,
        {
            if self.channels[i].channel.same_key(c) {
                return Some(i);
            }
            i = i + 1;
        }
        None
    }

    /// Inserts a channel, or on a row of the same key overwrites the
    /// mutable fields; returns the row's id.
    pub fn insert_channel(&mut self, channel: Channel) -> (id: i64)
        requires
            old(self).wf(),
            old(self).has_room(1),
        ensures
            final(self).wf(),
            old(self).same_but_rows(final(self)) || (final(self).next_id == old(self).next_id + 1
                && final(self).source_rows() == old(self).source_rows()
                && final(self).group_rows() == old(self).group_rows()
                && final(self).season_rows() == old(self).season_rows()
                && final(self).header_rows() == old(self).header_rows()),
            has_key(old(self).rows(), channel@.key()) ==> exists|i: int|
                0 <= i < old(self).rows().len() && old(self).rows()[i].channel.key()
                    == channel@.key() && final(self).rows() == old(self).rows().update(
                    i,
                    upserted(old(self).rows()[i], channel@),
                ) && id == old(self).rows()[i].id && final(self).next_id == old(self).next_id,
            !has_key(old(self).rows(), channel@.key()) ==> final(self).rows() == old(
                self,
            ).rows().push(new_row(channel@, old(self).next_id)) && id == old(self).next_id
                && final(self).next_id == old(self).next_id + 1,
            forall|k: ChannelKey|
                has_key(final(self).rows(), k) <==> (has_key(old(self).rows(), k) || k
                    == channel@.key()),
            !channel.favorite ==> (fresh_rows(old(self).rows(), channel@.source_id)
                ==> fresh_rows(final(self).rows(), channel@.source_id)),
            stored_fields(old(self).rows(), final(self).rows(), Some(channel@)),
            rows_extend(old(self).rows(), final(self).rows()),
            exists|r: int|
                0 <= r < final(self).rows().len() && (#[trigger] final(self).rows()[r]).channel.key() == channel@.key()
                    && final(self).rows()[r].id == id,
    {
        match self.find_channel(&channel) {
            Some(i) => {
                let ghost old_rows = self.rows();
                let mut row = self.channels.remove(i);
                row.channel.url = channel.url;
                row.channel.media_type = channel.media_type;
                row.channel.stream_id = channel.stream_id;
                row.channel.image = channel.image;
                row.channel.series_id = channel.series_id;
                row.channel.tv_archive = channel.tv_archive;
                row.channel.season_id = channel.season_id;
                let id = row.id;
                self.channels.insert(i, row);
                assert(self.rows() =~= old_rows.update(i as int, upserted(old_rows[i as int], channel@)));
                assert(unique_keys(self.rows())) by {
                    assert forall|a: int, b: int| 0 <= a < b < self.rows().len() implies
                        #[trigger] self.rows()[a].channel.key() != #[trigger] self.rows()[b].channel.key() by {
                        assert(self.rows()[a].channel.key() == old_rows[a].channel.key());
                        assert(self.rows()[b].channel.key() == old_rows[b].channel.key());
                    }
                }
                assert forall|k: ChannelKey|
                    has_key(self.rows(), k) <==> (has_key(old_rows, k) || k == channel@.key()) by {
                    if has_key(self.rows(), k) {
                        let j = choose|j: int| 0 <= j < self.rows().len() && #[trigger] self.rows()[j].channel.key() == k;
                        assert(old_rows[j].channel.key() == k);
                    }
                    if has_key(old_rows, k) {
                        let j = choose|j: int| 0 <= j < old_rows.len() && #[trigger] old_rows[j].channel.key() == k;
                        assert(self.rows()[j].channel.key() == k);
                    }
                    if k == channel@.key() {
                        assert(self.rows()[i as int].channel.key() == k);
                    }
                }
                assert forall|j: int| 0 <= j < self.rows().len() && j != i implies old_rows.contains(
                    #[trigger] self.rows()[j],
                ) by {
                    assert(self.rows()[j] == old_rows[j]);
                }
                assert(self.rows()[i as int].channel.key() == channel@.key());
                id
            },
            None => {
                let id = self.next_id;
                let mut c = channel;
                c.id = Some(id);
                let ghost old_rows = self.rows();
                self.channels.push(StoredChannel { id: id, channel: c, last_watched: None, hidden: false });
                self.next_id = id + 1;
                assert(self.rows() =~= old_rows.push(new_row(channel@, id)));
                assert(unique_keys(self.rows())) by {
                    assert forall|a: int, b: int| 0 <= a < b < self.rows().len() implies
                        #[trigger] self.rows()[a].channel.key() != #[trigger] self.rows()[b].channel.key() by {
                        if b == old_rows.len() {
                            assert(self.rows()[a] == old_rows[a]);
                        } else {
                            assert(self.rows()[a] == old_rows[a]);
                            assert(self.rows()[b] == old_rows[b]);
                        }
                    }
                }
                assert forall|k: ChannelKey|
                    has_key(self.rows(), k) <==> (has_key(old_rows, k) || k == channel@.key()) by {
                    if has_key(self.rows(), k) {
                        let j = choose|j: int| 0 <= j < self.rows().len() && #[trigger] self.rows()[j].channel.key() == k;
                        if j < old_rows.len() {
                            assert(old_rows[j] == self.rows()[j]);
                        }
                    }
                    if has_key(old_rows, k) {
                        let j = choose|j: int| 0 <= j < old_rows.len() && #[trigger] old_rows[j].channel.key() == k;
                        assert(self.rows()[j] == old_rows[j]);
                    }
                    if k == channel@.key() {
                        assert(self.rows()[old_rows.len() as int].channel.key() == k);
                    }
                }
                assert forall|j: int| 0 <= j < old_rows.len() implies old_rows.contains(
                    #[trigger] self.rows()[j],
                ) by {
                    assert(self.rows()[j] == old_rows[j]);
                }
                assert(self.rows()[old_rows.len() as int].channel.key() == channel@.key());
                id
            },
        }
    }

    /// The id of group `name` of source `source_id`, created when absent.
    pub fn get_or_insert_group(
        &mut self,
        name: &String,
        image: &Option<String>,
        source_id: i64,
        media_type: u8,
    ) -> (id: i64)
        requires
            old(self).wf(),
            old(self).has_room(1),
        ensures
            final(self).wf(),
            final(self).rows() == old(self).rows(),
            final(self).source_rows() == old(self).source_rows(),
            final(self).season_rows() == old(self).season_rows(),
            final(self).header_rows() == old(self).header_rows(),
            group_has(final(self).group_rows(), name@, source_id, id),
            group_has_name(old(self).group_rows(), name@, source_id) ==> final(self).group_rows() == old(
                self,
            ).group_rows(),
            final(self).group_rows() == old(self).group_rows() || final(self).group_rows() == old(
                self,
            ).group_rows().push(
                GroupView {
                    id: Some(old(self).next_id),
                    name: name@,
                    image: crate::text::opt_view(*image),
                    source_id: Some(source_id),
                    media_type: Some(media_type),
                },
            ),
            final(self).group_rows() == old(self).group_rows() ==> final(self).next_id == old(
                self,
            ).next_id,
            final(self).group_rows() != old(self).group_rows() ==> final(self).next_id == old(
                self,
            ).next_id + 1,
    {
        let mut i: usize = 0;
        while i < self.groups.len()
            invariant
                self.wf(),
                i <= self.groups@.len(),
                forall|j: int|
                    0 <= j < i ==> !(#[trigger] self.group_rows()[j].name == name@
                        && self.group_rows()[j].source_id == Some(source_id)),
            decreases self.groups@.len() - i,
        {
            if self.groups[i].name == *name && opt_i64_eq(self.groups[i].source_id, Some(source_id)) {
                match self.groups[i].id {
                    Some(id) => {
                        assert(self.group_rows()[i as int].name == name@);
                        return id;
                    },
                    None => {},
                }
            }
            i = i + 1;
        }
        let id = self.next_id;
        let ghost old_groups = self.group_rows();
        self.groups.push(
            Group {
                id: Some(id),
                name: name.clone(),
                image: copy_opt_string(image),
                source_id: Some(source_id),
                media_type: Some(media_type),
            },
        );
        self.next_id = id + 1;
        assert(forall|j: int| 0 <= j < self.groups@.len() - 1 ==> self.groups@[j] == old(self).groups@[j]);
        assert(self.group_rows() =~= old_groups.push(
            GroupView {
                id: Some(id),
                name: name@,
                image: crate::text::opt_view(*image),
                source_id: Some(source_id),
                media_type: Some(media_type),
            },
        ));
        assert(self.group_rows()[old_groups.len() as int].name == name@);
        assert(unique_groups(self.group_rows())) by {
            assert forall|a: int, b: int| 0 <= a < b < self.group_rows().len() implies !(
            #[trigger] self.group_rows()[a].name == #[trigger] self.group_rows()[b].name
                && self.group_rows()[a].source_id == self.group_rows()[b].source_id) by {
                assert(self.group_rows()[a] == old_groups[a]);
                if b < old_groups.len() {
                    assert(self.group_rows()[b] == old_groups[b]);
                }
            }
        }
        id
    }

    /// Sets `channel.group_id` to the id of its group, found through the
    /// pass's cache, or in the catalog, or created.
    pub fn set_channel_group_id(
        &mut self,
        cache: &mut Vec<(String, i64)>,
        channel: &mut Channel,
        source_id: i64,
    )
        requires
            old(self).wf(),
            old(self).has_room(1),
            cache_ok(old(cache)@, old(self).group_rows(), source_id),
        ensures
            final(self).wf(),
            final(self).rows() == old(self).rows(),
            final(self).source_rows() == old(self).source_rows(),
            final(self).season_rows() == old(self).season_rows(),
            final(self).header_rows() == old(self).header_rows(),
            groups_grow(old(self), final(self)),
            groups_extend(old(self).group_rows(), final(self).group_rows()),
            cache_ok(final(cache)@, final(self).group_rows(), source_id),
            final(channel)@ == (ChannelView { group_id: final(channel).group_id, ..old(channel)@ }),
            old(channel).group is None ==> final(channel)@ == old(channel)@ && *final(self) == *old(self)
                && final(cache)@ == old(cache)@,
            old(channel).group is Some ==> final(channel).group_id is Some && group_has(
                final(self).group_rows(),
                old(channel)@.group->0,
                source_id,
                final(channel).group_id->0,
            ),
            old(channel).group is Some && group_has_name(old(self).group_rows(), old(channel)@.group->0, source_id)
                ==> final(self).group_rows() == old(self).group_rows(),
            final(cache)@.len() <= old(cache)@.len() + 1,
            forall|i: int| 0 <= i < old(cache)@.len() ==> #[trigger] final(cache)@[i] == old(cache)@[i],
            old(channel).group is Some ==> exists|i: int|
                0 <= i < final(cache)@.len() && (#[trigger] final(cache)@[i]).0@ == old(channel)@.group->0
                    && final(cache)@[i].1 == final(channel).group_id->0,
    {
        assert(self.group_rows().subrange(0, self.group_rows().len() as int) =~= self.group_rows());
        let name = match &channel.group {
            Some(g) => g.clone(),
            None => {
                return;
            },
        };
        let mut i: usize = 0;
        while i < cache.len()
            invariant
                i <= cache@.len(),
                cache@ == old(cache)@,
                *self == *old(self),
                *channel == *old(channel),
                self.wf(),
                old(channel).group is Some,
                name@ == old(channel)@.group->0,
                cache_ok(cache@, self.group_rows(), source_id),
            decreases cache@.len() - i,
        {
            if cache[i].0 == name {
                channel.group_id = Some(cache[i].1);
                assert(cache@[i as int].0@ == name@);
                assert(self.group_rows().subrange(0, self.group_rows().len() as int) =~= self.group_rows());
                return;
            }
            i = i + 1;
        }
        let ghost old_groups = self.group_rows();
        let id = self.get_or_insert_group(&name, &channel.image, source_id, channel.media_type);
        assert(self.group_rows().subrange(0, old_groups.len() as int) =~= old_groups);
        proof {
            if self.group_rows() != old_groups {
                lemma_cache_ok_push(cache@, old_groups, self.group_rows().last(), source_id);
                assert(self.group_rows() == old_groups.push(self.group_rows().last()));
            }
        }
        let ghost before = cache@;
        cache.push((name, id));
        assert(cache_ok(cache@, self.group_rows(), source_id)) by {
            assert forall|a: int| 0 <= a < cache@.len() implies group_has(
                self.group_rows(),
                (#[trigger] cache@[a]).0@,
                source_id,
                cache@[a].1,
            ) by {
                if a < before.len() {
                    assert(cache@[a] == before[a]);
                }
            }
        }
        channel.group_id = Some(id);
        assert(cache@[cache@.len() - 1].0@ == old(channel)@.group->0);
    }

    /// Deletes the seasons, channels and groups of source `source_id`.
    pub fn wipe(&mut self, source_id: i64)
        requires
            old(self).wf(),
        ensures
            final(self).wf(),
            final(self).rows() == old(self).rows().filter(row_kept(source_id)),
            final(self).group_rows() == old(self).group_rows().filter(group_kept(source_id)),
            final(self).season_rows() == old(self).season_rows().filter(season_kept(source_id)),
            final(self).source_rows() == old(self).source_rows(),
            final(self).header_rows() == old(self).header_rows(),
            final(self).next_id == old(self).next_id,
    {
        let ghost rows0 = self.rows();
        let mut kept: Vec<StoredChannel> = Vec::new();
        let mut i: usize = 0;
        while i < self.channels.len()
            invariant
                *self == *old(self),
                rows0 == self.rows(),
                i <= self.channels@.len(),
                kept@.map_values(|r: StoredChannel| r@) == rows0.subrange(0, i as int).filter(
                    row_kept(source_id),
                ),
            decreases self.channels@.len() - i,
        {
            let ghost before = kept@.map_values(|r: StoredChannel| r@);
            if !opt_i64_eq(self.channels[i].channel.source_id, Some(source_id)) {
                kept.push(self.channels[i].duplicate());
            }
            proof {
                reveal(Seq::filter);
                assert(rows0.subrange(0, i + 1).drop_last() =~= rows0.subrange(0, i as int));
                assert(kept@.map_values(|r: StoredChannel| r@) =~= rows0.subrange(
                    0,
                    i + 1,
                ).filter(row_kept(source_id)));
            }
            i = i + 1;
        }
        assert(rows0.subrange(0, rows0.len() as int) =~= rows0);
        let ghost groups0 = self.group_rows();
        let mut kept_groups: Vec<Group> = Vec::new();
        let mut i: usize = 0;
        while i < self.groups.len()
            invariant
                *self == *old(self),
                groups0 == self.group_rows(),
                i <= self.groups@.len(),
                kept_groups@.map_values(|g: Group| g@) == groups0.subrange(0, i as int).filter(
                    group_kept(source_id),
                ),
                self.wf(),
            decreases self.groups@.len() - i,
        {
            if !opt_i64_eq(self.groups[i].source_id, Some(source_id)) {
                kept_groups.push(self.groups[i].duplicate());
            }
            proof {
                reveal(Seq::filter);
                assert(groups0.subrange(0, i + 1).drop_last() =~= groups0.subrange(0, i as int));
                assert(kept_groups@.map_values(|g: Group| g@) =~= groups0.subrange(
                    0,
                    i + 1,
                ).filter(group_kept(source_id)));
            }
            i = i + 1;
        }
        assert(groups0.subrange(0, groups0.len() as int) =~= groups0);
        let ghost seasons0 = self.season_rows();
        let mut kept_seasons: Vec<Season> = Vec::new();
        let mut i: usize = 0;
        while i < self.seasons.len()
            invariant
                *self == *old(self),
                seasons0 == self.season_rows(),
                i <= self.seasons@.len(),
                kept_seasons@.map_values(|s: Season| s@) == seasons0.subrange(0, i as int).filter(
                    season_kept(source_id),
                ),
            decreases self.seasons@.len() - i,
        {
            if self.seasons[i].source_id != source_id {
                kept_seasons.push(self.seasons[i].duplicate());
            }
            proof {
                reveal(Seq::filter);
                assert(seasons0.subrange(0, i + 1).drop_last() =~= seasons0.subrange(0, i as int));
                assert(kept_seasons@.map_values(|s: Season| s@) =~= seasons0.subrange(
                    0,
                    i + 1,
                ).filter(season_kept(source_id)));
            }
            i = i + 1;
        }
        assert(seasons0.subrange(0, seasons0.len() as int) =~= seasons0);
        self.channels = kept;
        self.groups = kept_groups;
        self.seasons = kept_seasons;
        proof {
            lemma_filter_unique_keys(rows0, row_kept(source_id));
            lemma_filter_unique_groups(groups0, group_kept(source_id));
            lemma_filter_unique_seasons(seasons0, season_kept(source_id));
            lemma_filter_subset(seasons0, season_kept(source_id));
            let ss = seasons0.filter(season_kept(source_id));
            assert forall|i: int| 0 <= i < ss.len() implies (#[trigger] ss[i]).id is Some by {
                assert(seasons0.contains(ss[i]));
                let k = choose|k: int| 0 <= k < seasons0.len() && seasons0[k] == ss[i];
                assert(old(self).season_rows()[k].id is Some);
            }
            lemma_filter_subset(groups0, group_kept(source_id));
            let gs = groups0.filter(group_kept(source_id));
            assert forall|i: int| 0 <= i < gs.len() implies (#[trigger] gs[i]).id is Some by {
                assert(groups0.contains(gs[i]));
                let k = choose|k: int| 0 <= k < groups0.len() && groups0[k] == gs[i];
                assert(old(self).group_rows()[k].id is Some);
            }
        }
    }

    /// The snapshot of user state that a refresh of source `source_id`
    /// replays afterwards.
    pub fn get_channel_preserve(&self, source_id: i64) -> (r: Vec<ChannelPreserve>)
        ensures
            r@.map_values(|p: ChannelPreserve| p@) == snapshot(self.rows(), source_id),
    {
        let ghost rows0 = self.rows();
        let mut out: Vec<ChannelPreserve> = Vec::new();
        let mut i: usize = 0;
        while i < self.channels.len()
            invariant
                rows0 == self.rows(),
                i <= self.channels@.len(),
                out@.map_values(|p: ChannelPreserve| p@) == snapshot(rows0.subrange(0, i as int), source_id),
            decreases self.channels@.len() - i,
        {
            let row = &self.channels[i];
            if opt_i64_eq(row.channel.source_id, Some(source_id)) && (row.channel.favorite
                || row.last_watched.is_some()) && row.channel.series_id.is_none() {
                out.push(
                    ChannelPreserve {
                        name: row.channel.name.clone(),
                        favorite: row.channel.favorite,
                        last_watched: row.last_watched,
                        hidden: row.hidden,
                    },
                );
            }
            proof {
                let sub = rows0.subrange(0, i + 1);
                assert(sub.drop_last() =~= rows0.subrange(0, i as int));
                assert(sub.last() == rows0[i as int]);
                assert(out@.map_values(|p: ChannelPreserve| p@) =~= snapshot(sub, source_id));
            }
            i = i + 1;
        }
        assert(rows0.subrange(0, rows0.len() as int) =~= rows0);
        out
    }

    /// Replays a snapshot onto the rows of source `source_id` by name.
    pub fn restore_preserve(&mut self, source_id: i64, preserve: &Vec<ChannelPreserve>)
        requires
            old(self).wf(),
        ensures
            final(self).wf(),
            old(self).same_but_rows(final(self)),
            final(self).rows().len() == old(self).rows().len(),
            forall|i: int|
                0 <= i < old(self).rows().len() ==> #[trigger] final(self).rows()[i] == restored(
                    old(self).rows()[i],
                    source_id,
                    preserve@.map_values(|p: ChannelPreserve| p@),
                ),
    {
        let ghost rows0 = self.rows();
        let ghost ps = preserve@.map_values(|p: ChannelPreserve| p@);
        let mut k: usize = 0;
        while k < preserve.len()
            invariant
                k <= preserve@.len(),
                ps == preserve@.map_values(|p: ChannelPreserve| p@),
                old(self).same_but_rows(self),
                rows0 == old(self).rows(),
                self.rows().len() == rows0.len(),
                forall|j: int|
                    0 <= j < rows0.len() ==> #[trigger] self.rows()[j] == restored(
                        rows0[j],
                        source_id,
                        ps.subrange(0, k as int),
                    ),
            decreases preserve@.len() - k,
        {
            let p = &preserve[k];
            let mut i: usize = 0;
            while i < self.channels.len()
                invariant
                    k < preserve@.len(),
                    *p == preserve@[k as int],
                    ps == preserve@.map_values(|p: ChannelPreserve| p@),
                    old(self).same_but_rows(self),
                    rows0 == old(self).rows(),
                    self.rows().len() == rows0.len(),
                    i <= self.rows().len(),
                    forall|j: int|
                        0 <= j < i ==> #[trigger] self.rows()[j] == restored(
                            rows0[j],
                            source_id,
                            ps.subrange(0, k + 1),
                        ),
                    forall|j: int|
                        i <= j < rows0.len() ==> #[trigger] self.rows()[j] == restored(
                            rows0[j],
                            source_id,
                            ps.subrange(0, k as int),
                        ),
                decreases self.rows().len() - i,
            {
                proof {
                    assert(ps.subrange(0, k + 1).drop_last() =~= ps.subrange(0, k as int));
                    assert(ps.subrange(0, k + 1).last() == ps[k as int]);
                    assert(restored(rows0[i as int], source_id, ps.subrange(0, k as int)).channel.name
                        == rows0[i as int].channel.name) by {
                        lemma_restored_keeps(rows0[i as int], source_id, ps.subrange(0, k as int));
                    }
                }
                assert(ps[k as int] == preserve@[k as int]@);
                assert(self.rows()[i as int] == self.channels@[i as int]@);
                let ghost before = self.rows();
                if opt_i64_eq(self.channels[i].channel.source_id, Some(source_id))
                    && self.channels[i].channel.name == p.name {
                    let mut row = self.channels.remove(i);
                    row.channel.favorite = p.favorite;
                    row.last_watched = p.last_watched;
                    row.hidden = p.hidden;
                    self.channels.insert(i, row);
                    proof {
                        lemma_restored_keeps(rows0[i as int], source_id, ps.subrange(0, k as int));
                        assert(self.rows() =~= before.update(i as int, row@));
                        assert(self.rows()[i as int] == restored(
                            rows0[i as int],
                            source_id,
                            ps.subrange(0, k + 1),
                        ));
                    }
                } else {
                    proof {
                        lemma_restored_keeps(rows0[i as int], source_id, ps.subrange(0, k as int));
                        assert(self.rows()[i as int] == restored(
                            rows0[i as int],
                            source_id,
                            ps.subrange(0, k + 1),
                        ));
                    }
                }
                i = i + 1;
            }
            k = k + 1;
        }
        assert(ps.subrange(0, ps.len() as int) =~= ps);
        assert(unique_keys(self.rows())) by {
            assert forall|a: int, b: int| 0 <= a < b < self.rows().len() implies
                #[trigger] self.rows()[a].channel.key() != #[trigger] self.rows()[b].channel.key() by {
                lemma_restored_keeps(rows0[a], source_id, ps);
                lemma_restored_keeps(rows0[b], source_id, ps);
            }
        }
    }

    /// The number of channels of source `source_id`.
    pub fn get_channel_count_by_source(&self, source_id: i64) -> (r: u64)
        ensures
            r as nat == count_of(self.rows(), source_id),
    {
        let ghost rows0 = self.rows();
        let mut count: u64 = 0;
        let mut i: usize = 0;
        while i < self.channels.len()
            invariant
                rows0 == self.rows(),
                i <= self.channels@.len(),
                count <= i,
                count as nat == count_of(rows0.subrange(0, i as int), source_id),
            decreases self.channels@.len() - i,
        {
            if opt_i64_eq(self.channels[i].channel.source_id, Some(source_id)) {
                count = count + 1;
            }
            proof {
                reveal(Seq::filter);
                assert(rows0.subrange(0, i + 1).drop_last() =~= rows0.subrange(0, i as int));
            }
            i = i + 1;
        }
        assert(rows0.subrange(0, rows0.len() as int) =~= rows0);
        count
    }

    /// Whether the catalog already holds episodes of series `series_id`.
    pub fn series_has_episodes(&self, series_id: u64, source_id: i64) -> (r: bool)
        ensures
            r == exists|i: int|
                0 <= i < self.rows().len() && #[trigger] self.rows()[i].channel.series_id == Some(series_id)
                    && self.rows()[i].channel.source_id == Some(source_id),
    {
        let mut i: usize = 0;
        while i < self.channels.len()
            invariant
                i <= self.channels@.len(),
                forall|j: int|
                    0 <= j < i ==> !(#[trigger] self.rows()[j].channel.series_id == Some(series_id)
                        && self.rows()[j].channel.source_id == Some(source_id)),
            decreases self.channels@.len() - i,
        {
            if opt_u64_eq_some(self.channels[i].channel.series_id, series_id) && opt_i64_eq(
                self.channels[i].channel.source_id,
                Some(source_id),
            ) {
                assert(self.rows()[i as int].channel.series_id == Some(series_id));
                return true;
            }
            i = i + 1;
        }
        false
    }

    /// Stores the headers of a channel, unless that channel has some already.
    pub fn insert_channel_headers(&mut self, headers: ChannelHttpHeaders)
        requires
            old(self).wf(),
            old(self).has_room(1),
        ensures
            final(self).wf(),
            final(self).rows() == old(self).rows(),
            final(self).source_rows() == old(self).source_rows(),
            final(self).group_rows() == old(self).group_rows(),
            final(self).season_rows() == old(self).season_rows(),
            final(self).next_id == old(self).next_id || final(self).next_id == old(self).next_id + 1,
            (exists|i: int|
                0 <= i < old(self).header_rows().len() && (#[trigger] old(self).header_rows()[i]).channel_id
                    == headers.channel_id) ==> final(self).header_rows() == old(self).header_rows(),
            !(exists|i: int|
                0 <= i < old(self).header_rows().len() && (#[trigger] old(self).header_rows()[i]).channel_id
                    == headers.channel_id) ==> final(self).header_rows() == old(
                self,
            ).header_rows().push(HeadersView { id: Some(old(self).next_id), ..headers@ }),
    {
        let mut i: usize = 0;
        while i < self.headers.len()
            invariant
                *self == *old(self),
                self.wf(),
                i <= self.headers@.len(),
                forall|j: int| 0 <= j < i ==> (#[trigger] self.header_rows()[j]).channel_id != headers.channel_id,
            decreases self.headers@.len() - i,
        {
            if opt_i64_eq(self.headers[i].channel_id, headers.channel_id) {
                assert(self.header_rows()[i as int].channel_id == headers.channel_id);
                return;
            }
            i = i + 1;
        }
        let ghost before = self.header_rows();
        let id = self.next_id;
        let mut h = headers;
        h.id = Some(id);
        self.headers.push(h);
        self.next_id = id + 1;
        assert(self.header_rows() =~= before.push(HeadersView { id: Some(id), ..headers@ }));
    }

    /// The id of the source named like `source`, which is stored first when absent.
    pub fn create_or_find_source_by_name(&mut self, source: &Source) -> (id: i64)
        requires
            old(self).wf(),
            old(self).has_room(1),
        ensures
            final(self).wf(),
            final(self).rows() == old(self).rows(),
            final(self).group_rows() == old(self).group_rows(),
            final(self).season_rows() == old(self).season_rows(),
            final(self).header_rows() == old(self).header_rows(),
            id == source_id_for(old(self).source_rows(), source@.name, old(self).next_id),
            has_source_named(old(self).source_rows(), source@.name) ==> final(self).source_rows()
                == old(self).source_rows() && final(self).next_id == old(self).next_id,
            !has_source_named(old(self).source_rows(), source@.name) ==> final(self).source_rows()
                == old(self).source_rows().push(
                SourceView { id: Some(id), url_origin: None, enabled: true, ..source@ },
            ) && final(self).next_id == old(self).next_id + 1,
    {
        let mut i: usize = 0;
        while i < self.sources.len()
            invariant
                self.wf(),
                i <= self.sources@.len(),
                forall|j: int| 0 <= j < i ==> (#[trigger] self.source_rows()[j]).name != source@.name,
            decreases self.sources@.len() - i,
        {
            if self.sources[i].name == source.name {
                proof {
                    assert(self.source_rows()[i as int].name == source@.name);
                    let c = choose|j: int| 0 <= j < self.source_rows().len() && (#[trigger] self.source_rows()[j]).name == source@.name;
                    assert(c == i);
                }
                match self.sources[i].id {
                    Some(id) => {
                        return id;
                    },
                    None => {},
                }
            }
            i = i + 1;
        }
        let ghost before = self.source_rows();
        let id = self.next_id;
        let mut s = source.duplicate();
        s.id = Some(id);
        s.url_origin = None;
        s.enabled = true;
        self.sources.push(s);
        self.next_id = id + 1;
        assert(self.source_rows() =~= before.push(SourceView { id: Some(id), url_origin: None, enabled: true, ..source@ }));
        assert(unique_source_names(self.source_rows())) by {
            assert forall|a: int, b: int| 0 <= a < b < self.source_rows().len() implies
                #[trigger] self.source_rows()[a].name != #[trigger] self.source_rows()[b].name by {
                assert(self.source_rows()[a] == before[a]);
                if b < before.len() {
                    assert(self.source_rows()[b] == before[b]);
                }
            }
        }
        id
    }

    /// Sets the user state of the row with id `channel_id`.
    fn set_user_state(&mut self, channel_id: i64, favorite: Option<bool>, last_watched: Option<Option<u64>>)
        requires
            old(self).wf(),
        ensures
            final(self).wf(),
            old(self).same_but_rows(final(self)),
            final(self).rows().len() == old(self).rows().len(),
            forall|i: int|
                0 <= i < old(self).rows().len() ==> #[trigger] final(self).rows()[i] == if old(self).rows()[i].id
                    == channel_id {
                    RowView {
                        channel: ChannelView {
                            favorite: match favorite {
                                Some(f) => f,
                                None => old(self).rows()[i].channel.favorite,
                            },
                            ..old(self).rows()[i].channel
                        },
                        last_watched: match last_watched {
                            Some(w) => w,
                            None => old(self).rows()[i].last_watched,
                        },
                        ..old(self).rows()[i]
                    }
                } else {
                    old(self).rows()[i]
                },
    {
        let ghost rows0 = self.rows();
        let mut i: usize = 0;
        while i < self.channels.len()
            invariant
                old(self).same_but_rows(self),
                rows0 == old(self).rows(),
                self.rows().len() == rows0.len(),
                i <= rows0.len(),
                unique_keys(rows0),
                forall|j: int|
                    0 <= j < rows0.len() ==> #[trigger] self.rows()[j] == if j < i && rows0[j].id == channel_id {
                        RowView {
                            channel: ChannelView {
                                favorite: match favorite {
                                    Some(f) => f,
                                    None => rows0[j].channel.favorite,
                                },
                                ..rows0[j].channel
                            },
                            last_watched: match last_watched {
                                Some(w) => w,
                                None => rows0[j].last_watched,
                            },
                            ..rows0[j]
                        }
                    } else {
                        rows0[j]
                    },
            decreases rows0.len() - i,
        {
            assert(self.rows()[i as int] == self.channels@[i as int]@);
            if self.channels[i].id == channel_id {
                let ghost before = self.rows();
                let mut row = self.channels.remove(i);
                match favorite {
                    Some(f) => {
                        row.channel.favorite = f;
                    },
                    None => {},
                }
                match last_watched {
                    Some(w) => {
                        row.last_watched = w;
                    },
                    None => {},
                }
                self.channels.insert(i, row);
                assert(self.rows() =~= before.update(i as int, row@));
            }
            i = i + 1;
        }
        assert(unique_keys(self.rows())) by {
            assert forall|a: int, b: int| 0 <= a < b < self.rows().len() implies
                #[trigger] self.rows()[a].channel.key() != #[trigger] self.rows()[b].channel.key() by {
                assert(self.rows()[a].channel.key() == rows0[a].channel.key());
                assert(self.rows()[b].channel.key() == rows0[b].channel.key());
            }
        }
    }

    /// Marks the channel with id `channel_id` as a favorite, or not.
    pub fn favorite_channel(&mut self, channel_id: i64, favorite: bool)
        requires
            old(self).wf(),
        ensures
            final(self).wf(),
            old(self).same_but_rows(final(self)),
            final(self).rows().len() == old(self).rows().len(),
            forall|i: int|
                0 <= i < old(self).rows().len() ==> #[trigger] final(self).rows()[i] == if old(self).rows()[i].id
                    == channel_id {
                    RowView {
                        channel: ChannelView { favorite: favorite, ..old(self).rows()[i].channel },
                        ..old(self).rows()[i]
                    }
                } else {
                    old(self).rows()[i]
                },
    {
        self.set_user_state(channel_id, Some(favorite), None);
    }

    /// Records that the channel with id `channel_id` was watched at time `now`.
    pub fn add_last_watched(&mut self, channel_id: i64, now: u64)
        requires
            old(self).wf(),
        ensures
            final(self).wf(),
            old(self).same_but_rows(final(self)),
            final(self).rows().len() == old(self).rows().len(),
            forall|i: int|
                0 <= i < old(self).rows().len() ==> #[trigger] final(self).rows()[i] == if old(self).rows()[i].id
                    == channel_id {
                    RowView { last_watched: Some(now), ..old(self).rows()[i] }
                } else {
                    old(self).rows()[i]
                },
    {
        self.set_user_state(channel_id, None, Some(Some(now)));
    }

    /// Whether a source of this name is stored.
    pub fn source_name_exists(&self, name: &str) -> (r: bool)
        ensures
            r == has_source_named(self.source_rows(), name@),
    {
        let mut i: usize = 0;
        while i < self.sources.len()
            invariant
                i <= self.sources@.len(),
                forall|j: int| 0 <= j < i ==> (#[trigger] self.source_rows()[j]).name != name@,
            decreases self.sources@.len() - i,
        {
            if crate::text::str_eq(self.sources[i].name.as_str(), name) {
                assert(self.source_rows()[i as int].name == name@);
                return true;
            }
            i = i + 1;
        }
        false
    }

    /// The stored source with id `source_id`.
    pub fn get_source_from_id(&self, source_id: i64) -> (r: Result<Source, Error>)
        ensures
            r is Ok <==> exists|j: int| 0 <= j < self.source_rows().len() && (#[trigger] self.source_rows()[j]).id == Some(source_id),
            r is Ok ==> exists|j: int| 0 <= j < self.source_rows().len() && #[trigger] self.source_rows()[j] == r->Ok_0@,
            r is Ok ==> r->Ok_0.id == Some(source_id),
            r is Err ==> r == Err::<Source, Error>(Error::SourceNotFound),
    {
        let mut i: usize = 0;
        while i < self.sources.len()
            invariant
                i <= self.sources@.len(),
                forall|j: int| 0 <= j < i ==> (#[trigger] self.source_rows()[j]).id != Some(source_id),
            decreases self.sources@.len() - i,
        {
            if opt_i64_eq(self.sources[i].id, Some(source_id)) {
                let s = self.sources[i].duplicate();
                assert(self.source_rows()[i as int] == s@);
                return Ok(s);
            }
            i = i + 1;
        }
        Err(Error::SourceNotFound)
    }

    /// The stored sources, each with `enabled` set or not as `only_enabled`
    /// asks, without their URL origins.
    fn sources_where(&self, only_enabled: bool) -> (r: Vec<Source>)
        ensures
            r@.map_values(|s: Source| s@) == self.source_rows().filter(source_selected(only_enabled)).map_values(
                |s: SourceView| listed(s),
            ),
    {
        let ghost all = self.source_rows();
        let mut out: Vec<Source> = Vec::new();
        let mut i: usize = 0;
        while i < self.sources.len()
            invariant
                all == self.source_rows(),
                i <= self.sources@.len(),
                out@.map_values(|s: Source| s@) == all.subrange(0, i as int).filter(source_selected(only_enabled)).map_values(
                    |s: SourceView| listed(s),
                ),
            decreases self.sources@.len() - i,
        {
            let ghost prev = out@;
            if !only_enabled || self.sources[i].enabled {
                let mut s = self.sources[i].duplicate();
                s.url_origin = None;
                out.push(s);
            }
            proof {
                reveal(Seq::filter);
                assert(all.subrange(0, i + 1).drop_last() =~= all.subrange(0, i as int));
                let f = all.subrange(0, i as int).filter(source_selected(only_enabled));
                if !only_enabled || all[i as int].enabled {
                    assert(all.subrange(0, i + 1).filter(source_selected(only_enabled)) == f.push(all[i as int]));
                    assert(f.push(all[i as int]).map_values(|s: SourceView| listed(s)) =~= f.map_values(
                        |s: SourceView| listed(s),
                    ).push(listed(all[i as int])));
                    assert(out@.map_values(|s: Source| s@) =~= prev.map_values(|s: Source| s@).push(listed(all[i as int])));
                } else {
                    assert(all.subrange(0, i + 1).filter(source_selected(only_enabled)) == f);
                    assert(out@ == prev);
                }
            }
            i = i + 1;
        }
        assert(all.subrange(0, all.len() as int) =~= all);
        out
    }

    /// All stored sources, without their URL origins.
    pub fn get_sources(&self) -> (r: Vec<Source>)
        ensures
            r@.map_values(|s: Source| s@) == self.source_rows().map_values(|s: SourceView| listed(s)),
    {
        proof {
            lemma_filter_all(self.source_rows());
        }
        self.sources_where(false)
    }

    /// The stored sources that are enabled, without their URL origins.
    pub fn get_enabled_sources(&self) -> (r: Vec<Source>)
        ensures
            r@.map_values(|s: Source| s@) == self.source_rows().filter(source_selected(true)).map_values(
                |s: SourceView| listed(s),
            ),
    {
        self.sources_where(true)
    }

    /// Empties every table.
    pub fn drop_db(&mut self)
        ensures
            final(self).wf(),
            final(self).rows().len() == 0,
            final(self).group_rows().len() == 0,
            final(self).source_rows().len() == 0,
            final(self).season_rows().len() == 0,
            final(self).header_rows().len() == 0,
            final(self).epgs@.len() == 0,
    {
        self.sources = Vec::new();
        self.groups = Vec::new();
        self.channels = Vec::new();
        self.seasons = Vec::new();
        self.headers = Vec::new();
        self.epgs = Vec::new();
        if self.next_id < 1 {
            self.next_id = 1;
        }
    }

    /// The snapshot of source `source_id`'s user state, for saving aside.
    pub fn backup_favs(&self, source_id: i64) -> (r: Vec<ChannelPreserve>)
        ensures
            r@.map_values(|p: ChannelPreserve| p@) == snapshot(self.rows(), source_id),
    {
        self.get_channel_preserve(source_id)
    }

    /// Stores a programme reminder.
    pub fn add_epg(&mut self, epg: EPGNotify)
        ensures
            final(self).epgs@ == old(self).epgs@.push(epg),
            final(self).rows() == old(self).rows(),
            final(self).source_rows() == old(self).source_rows(),
            final(self).group_rows() == old(self).group_rows(),
            final(self).season_rows() == old(self).season_rows(),
            final(self).header_rows() == old(self).header_rows(),
            final(self).next_id == old(self).next_id,
    {
        self.epgs.push(epg);
    }

    /// Drops the programme reminders that started before time `now`.
    pub fn clean_epgs(&mut self, now: i64)
        requires
            old(self).wf(),
        ensures
            final(self).wf(),
            final(self).epgs@ == old(self).epgs@.filter(epg_pending(now)),
            final(self).rows() == old(self).rows(),
            final(self).source_rows() == old(self).source_rows(),
            final(self).group_rows() == old(self).group_rows(),
            final(self).season_rows() == old(self).season_rows(),
            final(self).header_rows() == old(self).header_rows(),
            final(self).next_id == old(self).next_id,
    {
        let mut kept: Vec<EPGNotify> = Vec::new();
        let mut old_epgs: Vec<EPGNotify> = Vec::new();
        std::mem::swap(&mut old_epgs, &mut self.epgs);
        let ghost all = old_epgs@;
        let ghost n = all.len();
        while old_epgs.len() > 0
            invariant
                n == all.len(),
                old_epgs@.len() <= n,
                old_epgs@ == all.subrange(n - old_epgs@.len(), n as int),
                kept@ == all.subrange(0, n - old_epgs@.len()).filter(epg_pending(now)),
                self.wf(),
                self.rows() == old(self).rows(),
                self.source_rows() == old(self).source_rows(),
                self.group_rows() == old(self).group_rows(),
                self.season_rows() == old(self).season_rows(),
                self.header_rows() == old(self).header_rows(),
                self.next_id == old(self).next_id,
                all == old(self).epgs@,
            decreases old_epgs@.len(),
        {
            let ghost k = n - old_epgs@.len();
            let ghost before = old_epgs@;
            let e = old_epgs.remove(0);
            proof {
                assert(before[0] == all.subrange(k, n as int)[0]);
                assert(old_epgs@ =~= all.subrange(k + 1, n as int));
                reveal(Seq::filter);
                assert(all.subrange(0, k + 1).drop_last() =~= all.subrange(0, k));
                assert(all.subrange(0, k + 1).last() == e);
            }
            if e.start_timestamp >= now {
                kept.push(e);
            }
            assert(kept@ =~= all.subrange(0, k + 1).filter(epg_pending(now)));
        }
        assert(all.subrange(0, n as int) =~= all);
        self.epgs = kept;
    }

    /// Stores a season, or on a season of the same series, number and source
    /// overwrites its name and image; returns the season's id.
    pub fn insert_season(&mut self, season: Season) -> (id: i64)
        requires
            old(self).wf(),
            old(self).has_room(1),
        ensures
            final(self).wf(),
            final(self).rows() == old(self).rows(),
            final(self).source_rows() == old(self).source_rows(),
            final(self).group_rows() == old(self).group_rows(),
            final(self).header_rows() == old(self).header_rows(),
            old(self).next_id <= final(self).next_id <= old(self).next_id + 1,
            final(self).season_rows().len() == old(self).season_rows().len() ==> exists|j: int|
                0 <= j < old(self).season_rows().len() && (#[trigger] old(self).season_rows()[j]).id == Some(id)
                    && old(self).season_rows()[j].series_id == season.series_id
                    && old(self).season_rows()[j].season_number == season.season_number
                    && old(self).season_rows()[j].source_id == season.source_id
                    && final(self).season_rows() == old(self).season_rows().update(
                    j,
                    SeasonView { name: season@.name, image: season@.image, ..old(self).season_rows()[j] },
                ),
            final(self).season_rows().len() != old(self).season_rows().len() ==> final(self).season_rows()
                == old(self).season_rows().push(SeasonView { id: Some(old(self).next_id), ..season@ })
                && id == old(self).next_id,
            (exists|j: int| 0 <= j < old(self).season_rows().len() && same_season(#[trigger] old(self).season_rows()[j], season@))
                <==> final(self).season_rows().len() == old(self).season_rows().len(),
    {
        let mut i: usize = 0;
        while i < self.seasons.len()
            invariant
                *self == *old(self),
                self.wf(),
                i <= self.seasons@.len(),
                forall|j: int| 0 <= j < i ==> !same_season(#[trigger] self.season_rows()[j], season@),
            decreases self.seasons@.len() - i,
        {
            if self.seasons[i].series_id == season.series_id && self.seasons[i].season_number
                == season.season_number && self.seasons[i].source_id == season.source_id {
                match self.seasons[i].id {
                    Some(id) => {
                        let ghost before = self.season_rows();
                        let ghost sv = season@;
                        let mut row = self.seasons.remove(i);
                        row.name = season.name;
                        row.image = season.image;
                        self.seasons.insert(i, row);
                        assert(self.season_rows() =~= before.update(i as int, row@));
                        assert(row@ == SeasonView { name: sv.name, image: sv.image, ..before[i as int] });
                        assert(self.season_rows()[i as int].id == Some(id));
                        return id;
                    },
                    None => {},
                }
            }
            i = i + 1;
        }
        let id = self.next_id;
        let ghost before = self.season_rows();
        let mut row = season;
        row.id = Some(id);
        self.seasons.push(row);
        self.next_id = id + 1;
        assert(self.season_rows() =~= before.push(row@));
        assert(row@ == SeasonView { id: Some(id), ..season@ });
        assert(self.season_rows()[before.len() as int].id == Some(id));
        id
    }

    /// Whether source `source_id` has a group of this name.
    pub fn group_exists(&self, name: &str, source_id: i64) -> (r: bool)
        ensures
            r == group_has_name(self.group_rows(), name@, source_id),
    {
        let mut i: usize = 0;
        while i < self.groups.len()
            invariant
                i <= self.groups@.len(),
                forall|j: int|
                    0 <= j < i ==> !((#[trigger] self.group_rows()[j]).name == name@
                        && self.group_rows()[j].source_id == Some(source_id)),
            decreases self.groups@.len() - i,
        {
            if crate::text::str_eq(self.groups[i].name.as_str(), name) && opt_i64_eq(
                self.groups[i].source_id,
                Some(source_id),
            ) {
                assert(self.group_rows()[i as int].name == name@);
                return true;
            }
            i = i + 1;
        }
        false
    }

    /// Whether source `source_id` has a channel of this name and URL.
    pub fn channel_exists(&self, name: &str, url: &str, source_id: i64) -> (r: bool)
        ensures
            r == exists|j: int|
                0 <= j < self.rows().len() && (#[trigger] self.rows()[j]).channel.name == name@
                    && self.rows()[j].channel.url == Some(url@) && self.rows()[j].channel.source_id
                    == Some(source_id),
    {
        let mut i: usize = 0;
        while i < self.channels.len()
            invariant
                i <= self.channels@.len(),
                forall|j: int|
                    0 <= j < i ==> !((#[trigger] self.rows()[j]).channel.name == name@
                        && self.rows()[j].channel.url == Some(url@) && self.rows()[j].channel.source_id
                        == Some(source_id)),
            decreases self.channels@.len() - i,
        {
            let c = &self.channels[i].channel;
            let same_url = match &c.url {
                Some(u) => crate::text::str_eq(u.as_str(), url),
                None => false,
            };
            if crate::text::str_eq(c.name.as_str(), name) && same_url && opt_i64_eq(c.source_id, Some(source_id)) {
                assert(self.rows()[i as int].channel.name == name@);
                return true;
            }
            i = i + 1;
        }
        false
    }

    /// Deletes the channel with row id `id`.
    pub fn delete_custom_channel(&mut self, id: i64)
        requires
            old(self).wf(),
        ensures
            final(self).wf(),
            final(self).rows() == old(self).rows().filter(id_kept(id)),
            final(self).source_rows() == old(self).source_rows(),
            final(self).group_rows() == old(self).group_rows(),
            final(self).season_rows() == old(self).season_rows(),
            final(self).header_rows() == old(self).header_rows(),
            final(self).next_id == old(self).next_id,
    {
        let ghost rows0 = self.rows();
        let mut kept: Vec<StoredChannel> = Vec::new();
        let mut i: usize = 0;
        while i < self.channels.len()
            invariant
                *self == *old(self),
                rows0 == self.rows(),
                i <= self.channels@.len(),
                kept@.map_values(|r: StoredChannel| r@) == rows0.subrange(0, i as int).filter(id_kept(id)),
            decreases self.channels@.len() - i,
        {
            if self.channels[i].id != id {
                kept.push(self.channels[i].duplicate());
            }
            proof {
                reveal(Seq::filter);
                assert(rows0.subrange(0, i + 1).drop_last() =~= rows0.subrange(0, i as int));
                assert(kept@.map_values(|r: StoredChannel| r@) =~= rows0.subrange(0, i + 1).filter(id_kept(id)));
            }
            i = i + 1;
        }
        assert(rows0.subrange(0, rows0.len() as int) =~= rows0);
        self.channels = kept;
        proof {
            lemma_filter_unique_keys(rows0, id_kept(id));
        }
    }

    /// Stores a hand-made channel, with its headers unless none is set.
    pub fn add_custom_channel(&mut self, channel: CustomChannel)
        requires
            old(self).wf(),
            old(self).has_room(2),
        ensures
            final(self).wf(),
            final(self).source_rows() == old(self).source_rows(),
            final(self).group_rows() == old(self).group_rows(),
            forall|k: ChannelKey|
                has_key(final(self).rows(), k) <==> (has_key(old(self).rows(), k) || k == channel.data@.key()),
            (channel.headers is None || headers_empty(channel.headers->0@)) ==> final(self).header_rows()
                == old(self).header_rows(),
    {
        let id = self.insert_channel(channel.data);
        if let Some(mut headers) = channel.headers {
            if channel_headers_empty(&headers) {
                return;
            }
            headers.channel_id = Some(id);
            self.insert_channel_headers(headers);
        }
    }

    /// The headers stored for channel `id`.
    pub fn get_channel_headers_by_id(&self, id: i64) -> (r: Option<ChannelHttpHeaders>)
        ensures
            r is None ==> forall|j: int|
                0 <= j < self.header_rows().len() ==> (#[trigger] self.header_rows()[j]).channel_id != Some(id),
            r is Some ==> exists|j: int|
                0 <= j < self.header_rows().len() && #[trigger] self.header_rows()[j] == r->0@
                    && r->0.channel_id == Some(id),
    {
        let mut i: usize = 0;
        while i < self.headers.len()
            invariant
                i <= self.headers@.len(),
                forall|j: int| 0 <= j < i ==> (#[trigger] self.header_rows()[j]).channel_id != Some(id),
            decreases self.headers@.len() - i,
        {
            if opt_i64_eq(self.headers[i].channel_id, Some(id)) {
                let h = self.headers[i].duplicate();
                assert(self.header_rows()[i as int] == h@);
                return Some(h);
            }
            i = i + 1;
        }
        None
    }

    /// The group with id `id`.
    pub fn get_group_by_id(&self, id: i64) -> (r: Option<Group>)
        ensures
            r is None ==> forall|j: int|
                0 <= j < self.group_rows().len() ==> (#[trigger] self.group_rows()[j]).id != Some(id),
            r is Some ==> exists|j: int|
                0 <= j < self.group_rows().len() && #[trigger] self.group_rows()[j] == r->0@
                    && r->0.id == Some(id),
    {
        let mut i: usize = 0;
        while i < self.groups.len()
            invariant
                i <= self.groups@.len(),
                forall|j: int| 0 <= j < i ==> (#[trigger] self.group_rows()[j]).id != Some(id),
            decreases self.groups@.len() - i,
        {
            if opt_i64_eq(self.groups[i].id, Some(id)) {
                let g = self.groups[i].duplicate();
                assert(self.group_rows()[i as int] == g@);
                return Some(g);
            }
            i = i + 1;
        }
        None
    }

    /// The headers and group of a hand-made channel.
    pub fn get_custom_channel_extra_data(&self, id: i64, group_id: Option<i64>) -> (r: CustomChannelExtraData)
        ensures
            r.headers is Some <==> exists|j: int|
                0 <= j < self.header_rows().len() && (#[trigger] self.header_rows()[j]).channel_id == Some(id),
            group_id is None ==> r.group is None,
            group_id is Some ==> (r.group is Some <==> exists|j: int|
                0 <= j < self.group_rows().len() && (#[trigger] self.group_rows()[j]).id == group_id),
    {
        CustomChannelExtraData {
            headers: self.get_channel_headers_by_id(id),
            group: match group_id {
                None => None,
                Some(g) => self.get_group_by_id(g),
            },
        }
    }
}

} // verus!
