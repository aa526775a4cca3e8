//! The M3U playlist parser: a scan over the playlist's lines that opens a
//! channel block at each `#EXTINF` line and commits it into the catalog.
use crate::catalog::{RowView, cache_ok, fresh_rows, has_key, headers_empty, headers_grow, lemma_headers_grow_refl, lemma_headers_grow_trans, Catalog};
use crate::catalog::{count_of, fields_kept, headed, holds_fields, lemma_headed_kept, of_source, row_kept, rows_extend, snapshot, stored_fields};
use crate::catalog::{group_has_name, groups_cover, groups_extend, lemma_group_has_name, lemma_groups_cover_extend, lemma_groups_cover_push, lemma_groups_extend_refl, lemma_groups_extend_trans};
use crate::error::Error;
use crate::refresh::{begin_refresh, finish_refresh, refresh_source_id, state_restored};
use crate::media_type::{LIVESTREAM, MOVIE};
use crate::tags::{
    GROUP_PATTERN, LOGO_PATTERN, capture_tag, get_name_from_line, headers_after, line_name, set_http_headers, sets_header,
    tag_of,
};
use crate::text::{ends_with, opt_trim, starts_with, to_upper, trim_of, trim_str, upper_of};
use crate::types::{Channel, ChannelHttpHeaders, ChannelKey, ChannelView, HeadersView, Source};
use vstd::prelude::*;

verus! {

/// The tag that opens a channel block.
pub const EXTINF_TAG: &'static str = "#EXTINF";

/// The tag of a player option line.
pub const EXTVLCOPT_TAG: &'static str = "#EXTVLCOPT";

pub const MP4_EXTENSION: &'static str = ".mp4";

pub const MKV_EXTENSION: &'static str = ".mkv";

pub open spec fn has_suffix(s: Seq<char>, suffix: Seq<char>) -> bool {
    suffix.len() <= s.len() && s.subrange(s.len() - suffix.len(), s.len() as int) == suffix
}

pub open spec fn has_prefix(s: Seq<char>, prefix: Seq<char>) -> bool {
    prefix.len() <= s.len() && s.subrange(0, prefix.len() as int) == prefix
}

/// Movies are the URLs that end in `.mp4` or `.mkv`; everything else is live.
pub open spec fn media_type_of(url: Seq<char>) -> u8 {
    if has_suffix(url, MP4_EXTENSION@) || has_suffix(url, MKV_EXTENSION@) {
        MOVIE
    } else {
        LIVESTREAM
    }
}

/// The channel that a metadata line and its URL line describe.
pub open spec fn line_channel(first: Seq<char>, second: Seq<char>, source_id: i64, use_tvg_id: Option<bool>) -> Result<ChannelView, Error> {
    let url = trim_of(second);
    if url.len() == 0 {
        Err(Error::EmptyUrlLine)
    } else {
        match line_name(first, use_tvg_id) {
            None => Err(Error::NoName),
            Some(n) => Ok(
                ChannelView {
                    id: None,
                    name: trim_of(n),
                    url: Some(url),
                    group: opt_trim(tag_of(GROUP_PATTERN@, first)),
                    image: opt_trim(tag_of(LOGO_PATTERN@, first)),
                    media_type: media_type_of(url),
                    source_id: Some(source_id),
                    series_id: None,
                    group_id: None,
                    favorite: false,
                    stream_id: None,
                    tv_archive: None,
                    season_id: None,
                    episode_num: None,
                },
            ),
        }
    }
}

pub open spec fn channel_result(r: Result<Channel, Error>) -> Result<ChannelView, Error> {
    match r {
        Ok(c) => Ok(c@),
        Err(e) => Err(e),
    }
}

/// Where the scan stands after some lines: the open block's metadata line,
/// the last non-blank line seen, the channels committed so far, the
/// headers that directives gathered, whether one of the open block's
/// directives set a field, and the keys of the channels committed with
/// headers.
pub ghost struct ScanState {
    pub open: Option<Seq<char>>,
    pub last: Option<Seq<char>>,
    pub parsed: Seq<ChannelView>,
    pub hdr: Option<HeadersView>,
    pub hset: bool,
    pub headed: Seq<ChannelKey>,
}

/// Headers with no field set.
pub open spec fn no_headers() -> HeadersView {
    HeadersView { id: None, channel_id: None, referrer: None, user_agent: None, http_origin: None, ignore_ssl: None }
}

pub open spec fn is_extinf(line: Seq<char>) -> bool {
    has_prefix(upper_of(line), EXTINF_TAG@)
}

pub open spec fn is_extvlcopt(line: Seq<char>) -> bool {
    has_prefix(upper_of(line), EXTVLCOPT_TAG@)
}

/// Commits the open block, if any. A block whose metadata yields no channel is skipped.
pub open spec fn flush(st: ScanState, sid: i64, pref: Option<bool>) -> ScanState {
    match st.open {
        None => st,
        Some(first) => ScanState {
            open: None,
            last: None,
            parsed: match st.last {
                None => st.parsed,
                Some(second) => match line_channel(first, second, sid, pref) {
                    Ok(c) => st.parsed.push(c),
                    Err(_) => st.parsed,
                },
            },
            hdr: None,
            hset: st.hset,
            headed: match pending(st.open, st.last, sid, pref) {
                Some(c) => if st.hset {
                    st.headed.push(c.key())
                } else {
                    st.headed
                },
                None => st.headed,
            },
        },
    }
}

/// One line of the scan.
pub open spec fn step(st: ScanState, line: Seq<char>, sid: i64, pref: Option<bool>) -> ScanState {
    if is_extinf(line) {
        ScanState { open: Some(line), hset: false, ..flush(st, sid, pref) }
    } else if is_extvlcopt(line) {
        ScanState {
            hdr: Some(
                headers_after(
                    line,
                    match st.hdr {
                        Some(h) => h,
                        None => no_headers(),
                    },
                ),
            ),
            hset: st.hset || sets_header(line),
            ..st
        }
    } else if trim_of(line).len() > 0 {
        ScanState { last: Some(line), ..st }
    } else {
        st
    }
}

pub open spec fn scan(lines: Seq<Seq<char>>, sid: i64, pref: Option<bool>) -> ScanState
    decreases lines.len(),
{
    if lines.len() == 0 {
        ScanState { open: None, last: None, parsed: Seq::empty(), hdr: None, hset: false, headed: Seq::empty() }
    } else {
        step(scan(lines.drop_last(), sid, pref), lines.last(), sid, pref)
    }
}

/// The keys of the channels whose blocks set a header field, in order of
/// their blocks.
pub open spec fn m3u_headed(lines: Seq<Seq<char>>, sid: i64, pref: Option<bool>) -> Seq<ChannelKey> {
    flush(scan(lines, sid, pref), sid, pref).headed
}

/// The channels that a playlist yields, in order of their blocks.
pub open spec fn m3u_channels(lines: Seq<Seq<char>>, sid: i64, pref: Option<bool>) -> Seq<ChannelView> {
    flush(scan(lines, sid, pref), sid, pref).parsed
}

pub open spec fn lines_view(lines: Seq<String>) -> Seq<Seq<char>> {
    lines.map_values(|l: String| l@)
}

/// Whether one of `cs` has key `k`.
pub open spec fn keys_have(cs: Seq<ChannelView>, k: ChannelKey) -> bool {
    exists|j: int| 0 <= j < cs.len() && (#[trigger] cs[j]).key() == k
}

/// Classifies a URL: `.mp4` and `.mkv` files are movies, the rest live streams.
pub fn get_media_type(url: String) -> (r: u8)
    ensures
        r == media_type_of(url@),
{
    if ends_with(url.as_str(), MP4_EXTENSION) || ends_with(url.as_str(), MKV_EXTENSION) {
        MOVIE
    } else {
        LIVESTREAM
    }
}

fn trim_opt(o: Option<String>) -> (r: Option<String>)
    ensures
        crate::text::opt_view(r) == opt_trim(crate::text::opt_view(o)),
{
    match o {
        Some(s) => Some(trim_str(s.as_str())),
        None => None,
    }
}

/// Builds the channel that a metadata line and the line holding its URL describe.
pub fn get_channel_from_lines(
    first: String,
    second: String,
    source_id: i64,
    use_tvg_id: Option<bool>,
) -> (r: Result<Channel, Error>)
    ensures
        channel_result(r) == line_channel(first@, second@, source_id, use_tvg_id),
{
    let second = trim_str(second.as_str());
    if second.as_str().is_empty() {
        return Err(Error::EmptyUrlLine);
    }
    let name = match get_name_from_line(first.as_str(), use_tvg_id) {
        Some(n) => n,
        None => {
            return Err(Error::NoName);
        },
    };
    let group = trim_opt(capture_tag(GROUP_PATTERN, first.as_str()));
    let image = trim_opt(capture_tag(LOGO_PATTERN, first.as_str()));
    let media_type = get_media_type(second.clone());
    Ok(
        Channel {
            id: None,
            name: trim_str(name.as_str()),
            group: group,
            image: image,
            url: Some(second),
            media_type: media_type,
            source_id: Some(source_id),
            series_id: None,
            group_id: None,
            favorite: false,
            stream_id: None,
            tv_archive: None,
            season_id: None,
            episode_num: None,
        },
    )
}

/// The channel that committing a block would add, if its lines yield one.
pub open spec fn pending(open: Option<Seq<char>>, last: Option<Seq<char>>, sid: i64, pref: Option<bool>) -> Option<ChannelView> {
    match (open, last) {
        (Some(f), Some(l)) => match line_channel(f, l, sid, pref) {
            Ok(c) => Some(c),
            Err(_) => None,
        },
        _ => None,
    }
}

/// The keys of `rows` are those of `base` and those of `parsed`.
pub open spec fn keys_match(rows: Seq<RowView>, base: Seq<RowView>, parsed: Seq<ChannelView>) -> bool {
    forall|k: ChannelKey| has_key(rows, k) <==> (has_key(base, k) || keys_have(parsed, k))
}

/// The last channel of `cs` with key `k`.
pub open spec fn last_of_key(cs: Seq<ChannelView>, k: ChannelKey) -> ChannelView
    decreases cs.len(),
{
    if cs.len() == 0 {
        arbitrary()
    } else if cs.last().key() == k {
        cs.last()
    } else {
        last_of_key(cs.drop_last(), k)
    }
}

/// Each row whose key a channel of `cs` has holds the written fields of
/// the last such channel: URL, media type, stream id, image, archive flag
/// and season.
pub open spec fn fields_match(rows: Seq<RowView>, cs: Seq<ChannelView>) -> bool {
    forall|i: int|
        0 <= i < rows.len() && keys_have(cs, (#[trigger] rows[i]).channel.key()) ==> holds_fields(
            rows[i],
            last_of_key(cs, rows[i].channel.key()),
        )
}

/// Storing a channel extends the agreement of rows and channels by it.
pub proof fn lemma_fields_step(old: Seq<RowView>, new: Seq<RowView>, cs: Seq<ChannelView>, c: Option<ChannelView>)
    requires
        fields_match(old, cs),
        stored_fields(old, new, c),
    ensures
        fields_match(new, if c is Some { cs.push(c->0) } else { cs }),
{
    let next = if c is Some { cs.push(c->0) } else { cs };
    assert forall|j: int| 0 <= j < new.len() && keys_have(next, (#[trigger] new[j]).channel.key()) implies holds_fields(
        new[j],
        last_of_key(next, new[j].channel.key()),
    ) by {
        let k = new[j].channel.key();
        if c is Some {
            assert(next.drop_last() =~= cs);
            lemma_keys_have_push(cs, c->0, k);
        }
        if !(c is Some && k == c->0.key()) {
            assert(old.contains(new[j]));
            let i = choose|i: int| 0 <= i < old.len() && old[i] == new[j];
            assert(old[i].channel.key() == k);
        }
    }
}

/// Every row of `new` whose key no channel of `cs` has is a row of `old`.
pub open spec fn others_kept(old: Seq<RowView>, new: Seq<RowView>, cs: Seq<ChannelView>) -> bool {
    forall|j: int| 0 <= j < new.len() && !keys_have(cs, (#[trigger] new[j]).channel.key()) ==> old.contains(new[j])
}

pub proof fn lemma_others_kept_refl(rows: Seq<RowView>, cs: Seq<ChannelView>)
    ensures
        others_kept(rows, rows, cs),
{
    assert forall|j: int| 0 <= j < rows.len() && !keys_have(cs, (#[trigger] rows[j]).channel.key()) implies rows.contains(
        rows[j],
    ) by {}
}

/// Storing a channel keeps every row of other keys.
pub proof fn lemma_others_step(
    base: Seq<RowView>,
    old: Seq<RowView>,
    new: Seq<RowView>,
    cs: Seq<ChannelView>,
    c: Option<ChannelView>,
)
    requires
        others_kept(base, old, cs),
        stored_fields(old, new, c),
    ensures
        others_kept(base, new, if c is Some { cs.push(c->0) } else { cs }),
{
    let next = if c is Some { cs.push(c->0) } else { cs };
    assert forall|j: int| 0 <= j < new.len() && !keys_have(next, (#[trigger] new[j]).channel.key()) implies base.contains(
        new[j],
    ) by {
        let k = new[j].channel.key();
        if c is Some {
            lemma_keys_have_push(cs, c->0, k);
        }
        assert(old.contains(new[j]));
        let i = choose|i: int| 0 <= i < old.len() && old[i] == new[j];
        assert(!keys_have(cs, old[i].channel.key()));
    }
}

/// The last channel of a key in `a + b` comes from `b` when `b` has the key.
pub proof fn lemma_last_of_key_concat(a: Seq<ChannelView>, b: Seq<ChannelView>, k: ChannelKey)
    ensures
        keys_have(b, k) ==> last_of_key(a + b, k) == last_of_key(b, k),
        !keys_have(b, k) ==> last_of_key(a + b, k) == last_of_key(a, k),
    decreases b.len(),
{
    if b.len() == 0 {
        assert(a + b =~= a);
    } else {
        assert((a + b).drop_last() =~= a + b.drop_last());
        assert(b.drop_last().push(b.last()) =~= b);
        lemma_keys_have_push(b.drop_last(), b.last(), k);
        lemma_last_of_key_concat(a, b.drop_last(), k);
    }
}

/// Two ingestions in turn leave the fields of the channels of both.
pub proof fn lemma_fields_concat(
    r1: Seq<RowView>,
    r2: Seq<RowView>,
    a: Seq<ChannelView>,
    b: Seq<ChannelView>,
)
    requires
        fields_match(r1, a),
        others_kept(r1, r2, b),
        fields_match(r2, b),
    ensures
        fields_match(r2, a + b),
{
    assert forall|j: int| 0 <= j < r2.len() && keys_have(a + b, (#[trigger] r2[j]).channel.key()) implies holds_fields(
        r2[j],
        last_of_key(a + b, r2[j].channel.key()),
    ) by {
        let k = r2[j].channel.key();
        lemma_last_of_key_concat(a, b, k);
        crate::xtream::lemma_keys_have_concat(a, b, k);
        if !keys_have(b, k) {
            assert(r1.contains(r2[j]));
            let i = choose|i: int| 0 <= i < r1.len() && r1[i] == r2[j];
            assert(r1[i].channel.key() == k);
        }
    }
}

/// Rows whose written fields are kept keep their agreement with channels.
pub proof fn lemma_fields_kept(old: Seq<RowView>, new: Seq<RowView>, cs: Seq<ChannelView>)
    requires
        fields_match(old, cs),
        fields_kept(old, new),
    ensures
        fields_match(new, cs),
{
    assert forall|j: int| 0 <= j < new.len() && keys_have(cs, (#[trigger] new[j]).channel.key()) implies holds_fields(
        new[j],
        last_of_key(cs, new[j].channel.key()),
    ) by {
        assert(old[j].channel.key() == new[j].channel.key());
    }
}

/// Whether `c` is a channel of key `k`.
pub open spec fn adds_key(c: Option<ChannelView>, k: ChannelKey) -> bool {
    c is Some && c->0.key() == k
}

/// The working state of one scan over a playlist.
pub struct M3UProcessing {
    pub channel_line: Option<String>,
    pub channel_headers: Option<ChannelHttpHeaders>,
    pub channel_headers_set: bool,
    pub last_non_empty_line: Option<String>,
    pub groups: Vec<(String, i64)>,
    pub source_id: i64,
    pub use_tvg_id: Option<bool>,
    pub line_count: usize,
}

/// Turns one block into a channel, sets its group, and stores it with its headers.
fn commit_channel(
    catalog: &mut Catalog,
    channel_line: String,
    last_line: Option<String>,
    groups: &mut Vec<(String, i64)>,
    headers: Option<ChannelHttpHeaders>,
    source_id: i64,
    use_tvg_id: Option<bool>,
) -> (r: Result<(), Error>)
    requires
        old(catalog).wf(),
        old(catalog).has_room(3),
        cache_ok(old(groups)@, old(catalog).group_rows(), source_id),
        headers is Some ==> !headers_empty(headers->0@),
    ensures
        final(catalog).wf(),
        cache_ok(final(groups)@, final(catalog).group_rows(), source_id),
        headers_grow(old(catalog).header_rows(), final(catalog).header_rows()),
        headers is None ==> final(catalog).header_rows() == old(catalog).header_rows(),
        old(catalog).next_id <= final(catalog).next_id <= old(catalog).next_id + 3,
        final(catalog).source_rows() == old(catalog).source_rows(),
        r is Ok <==> pending(Some(channel_line@), crate::text::opt_view(last_line), source_id, use_tvg_id) is Some,
        forall|k: ChannelKey|
            has_key(final(catalog).rows(), k) <==> (has_key(old(catalog).rows(), k) || adds_key(
                pending(Some(channel_line@), crate::text::opt_view(last_line), source_id, use_tvg_id),
                k,
            )),
        fresh_rows(old(catalog).rows(), Some(source_id)) ==> fresh_rows(final(catalog).rows(), Some(source_id)),
        stored_fields(
            old(catalog).rows(),
            final(catalog).rows(),
            pending(Some(channel_line@), crate::text::opt_view(last_line), source_id, use_tvg_id),
        ),
        groups_extend(old(catalog).group_rows(), final(catalog).group_rows()),
        rows_extend(old(catalog).rows(), final(catalog).rows()),
        ({
            let p = pending(Some(channel_line@), crate::text::opt_view(last_line), source_id, use_tvg_id);
            p is Some && headers is Some ==> headed(final(catalog).rows(), final(catalog).header_rows(), p->0.key())
        }),
        ({
            let p = pending(Some(channel_line@), crate::text::opt_view(last_line), source_id, use_tvg_id);
            p is Some && p->0.group is Some ==> group_has_name(final(catalog).group_rows(), p->0.group->0, source_id)
        }),
{
    proof {
        lemma_headers_grow_refl(catalog.header_rows());
        lemma_stored_fields_refl(catalog.rows());
        lemma_groups_extend_refl(catalog.group_rows());
    }
    let last = match last_line {
        Some(l) => l,
        None => {
            return Err(Error::MissingUrlLine);
        },
    };
    let mut channel = match get_channel_from_lines(channel_line, last, source_id, use_tvg_id) {
        Ok(c) => c,
        Err(e) => {
            return Err(e);
        },
    };
    let ghost parsed = channel@;
    let ghost rows0 = catalog.rows();
    catalog.set_channel_group_id(groups, &mut channel, source_id);
    assert(channel@.key() == parsed.key());
    let ghost grouped = channel@;
    proof {
        if parsed.group is Some {
            lemma_group_has_name(catalog.group_rows(), parsed.group->0, source_id, grouped.group_id->0);
        }
    }
    let id = catalog.insert_channel(channel);
    assert(stored_fields(rows0, catalog.rows(), Some(parsed))) by {
        assert forall|j: int| 0 <= j < catalog.rows().len() && (#[trigger] catalog.rows()[j]).channel.key()
            == parsed.key() implies holds_fields(catalog.rows()[j], parsed) by {
            assert(holds_fields(catalog.rows()[j], grouped));
        }
    }
    let ghost hs = catalog.header_rows();
    proof {
        lemma_headers_grow_refl(hs);
    }
    let ghost rows1 = catalog.rows();
    if let Some(mut h) = headers {
        h.channel_id = Some(id);
        catalog.insert_channel_headers(h);
        assert(catalog.header_rows().subrange(0, hs.len() as int) =~= hs);
        proof {
            let r = choose|r: int| 0 <= r < rows1.len() && (#[trigger] rows1[r]).channel.key() == parsed.key() && rows1[r].id == id;
            if catalog.header_rows() == hs {
                let j = choose|j: int| 0 <= j < hs.len() && (#[trigger] hs[j]).channel_id == Some(id);
                assert(catalog.rows()[r].channel.key() == parsed.key() && catalog.header_rows()[j].channel_id == Some(catalog.rows()[r].id));
            } else {
                let j = hs.len() as int;
                assert(catalog.header_rows()[j].channel_id == Some(id));
                assert(catalog.rows()[r].channel.key() == parsed.key() && catalog.header_rows()[j].channel_id == Some(catalog.rows()[r].id));
            }
        }
    }
    Ok(())
}

/// Whether the processing state matches the scan state `st`.
pub open spec fn tracks(p: &M3UProcessing, st: ScanState) -> bool {
    &&& crate::text::opt_view(p.channel_line) == st.open
    &&& crate::text::opt_view(p.last_non_empty_line) == st.last
    &&& p.channel_headers_set == st.hset
    &&& match p.channel_headers {
        Some(h) => st.hdr == Some(h@),
        None => st.hdr is None,
    }
}

/// Once a directive set a header, the block's headers hold a field.
pub open spec fn headers_set_ok(p: &M3UProcessing) -> bool {
    p.channel_headers is Some && !headers_empty(p.channel_headers->0@)
}

/// Commits the open block, if there is one; a block that fails is skipped.
fn try_commit_channel(processing: &mut M3UProcessing, catalog: &mut Catalog)
    requires
        old(catalog).wf(),
        old(catalog).has_room(3),
        cache_ok(old(processing).groups@, old(catalog).group_rows(), old(processing).source_id),
        old(processing).channel_headers_set ==> headers_set_ok(old(processing)),
    ensures
        final(catalog).wf(),
        headers_grow(old(catalog).header_rows(), final(catalog).header_rows()),
        old(processing).channel_line is Some ==> final(processing).channel_headers is None,
        old(processing).channel_line is None ==> final(processing).channel_headers == old(processing).channel_headers,
        final(processing).channel_headers_set == old(processing).channel_headers_set,
        cache_ok(final(processing).groups@, final(catalog).group_rows(), final(processing).source_id),
        old(catalog).next_id <= final(catalog).next_id <= old(catalog).next_id + 3,
        final(catalog).source_rows() == old(catalog).source_rows(),
        final(processing).source_id == old(processing).source_id,
        final(processing).use_tvg_id == old(processing).use_tvg_id,
        final(processing).channel_line is None,
        old(processing).channel_line is None ==> final(processing).last_non_empty_line
            == old(processing).last_non_empty_line,
        old(processing).channel_line is Some ==> final(processing).last_non_empty_line is None,
        forall|k: ChannelKey|
            has_key(final(catalog).rows(), k) <==> (has_key(old(catalog).rows(), k) || adds_key(
                pending(
                    crate::text::opt_view(old(processing).channel_line),
                    crate::text::opt_view(old(processing).last_non_empty_line),
                    old(processing).source_id,
                    old(processing).use_tvg_id,
                ),
                k,
            )),
        fresh_rows(old(catalog).rows(), Some(old(processing).source_id)) ==> fresh_rows(
            final(catalog).rows(),
            Some(old(processing).source_id),
        ),
        stored_fields(
            old(catalog).rows(),
            final(catalog).rows(),
            pending(
                crate::text::opt_view(old(processing).channel_line),
                crate::text::opt_view(old(processing).last_non_empty_line),
                old(processing).source_id,
                old(processing).use_tvg_id,
            ),
        ),
        groups_extend(old(catalog).group_rows(), final(catalog).group_rows()),
        rows_extend(old(catalog).rows(), final(catalog).rows()),
        ({
            let p = pending(
                crate::text::opt_view(old(processing).channel_line),
                crate::text::opt_view(old(processing).last_non_empty_line),
                old(processing).source_id,
                old(processing).use_tvg_id,
            );
            p is Some && old(processing).channel_headers_set ==> headed(
                final(catalog).rows(),
                final(catalog).header_rows(),
                p->0.key(),
            )
        }),
        ({
            let p = pending(
                crate::text::opt_view(old(processing).channel_line),
                crate::text::opt_view(old(processing).last_non_empty_line),
                old(processing).source_id,
                old(processing).use_tvg_id,
            );
            p is Some && p->0.group is Some ==> group_has_name(
                final(catalog).group_rows(),
                p->0.group->0,
                old(processing).source_id,
            )
        }),
{
    proof {
        lemma_headers_grow_refl(catalog.header_rows());
        lemma_stored_fields_refl(catalog.rows());
        lemma_groups_extend_refl(catalog.group_rows());
    }
    if let Some(channel) = processing.channel_line.take() {
        if !processing.channel_headers_set {
            processing.channel_headers = None;
        }
        let last = processing.last_non_empty_line.take();
        let headers = processing.channel_headers.take();
        let _ = commit_channel(
            catalog,
            channel,
            last,
            &mut processing.groups,
            headers,
            processing.source_id,
            processing.use_tvg_id,
        );
    }
}

pub proof fn lemma_keys_have_push(cs: Seq<ChannelView>, c: ChannelView, k: ChannelKey)
    ensures
        keys_have(cs.push(c), k) <==> (keys_have(cs, k) || c.key() == k),
{
    if keys_have(cs.push(c), k) {
        let j = choose|j: int| 0 <= j < cs.push(c).len() && (#[trigger] cs.push(c)[j]).key() == k;
        if j < cs.len() {
            assert(cs[j] == cs.push(c)[j]);
        }
    }
    if keys_have(cs, k) {
        let j = choose|j: int| 0 <= j < cs.len() && (#[trigger] cs[j]).key() == k;
        assert(cs.push(c)[j] == cs[j]);
    }
    if c.key() == k {
        assert(cs.push(c)[cs.len() as int] == c);
    }
}

/// Committing the open block keeps the header rows of earlier blocks and
/// adds the one of this block when a directive set a field.
pub proof fn lemma_headed_step(
    rows0: Seq<RowView>,
    rows: Seq<RowView>,
    hdrs: Seq<HeadersView>,
    rows2: Seq<RowView>,
    hdrs2: Seq<HeadersView>,
    st: ScanState,
    sid: i64,
    pref: Option<bool>,
)
    requires
        rows_extend(rows0, rows),
        rows_extend(rows, rows2),
        headers_grow(hdrs, hdrs2),
        forall|j: int| 0 <= j < st.headed.len() ==> headed(rows, hdrs, #[trigger] st.headed[j]),
        pending(st.open, st.last, sid, pref) is Some && st.hset ==> headed(
            rows2,
            hdrs2,
            pending(st.open, st.last, sid, pref)->0.key(),
        ),
    ensures
        rows_extend(rows0, rows2),
        forall|j: int| 0 <= j < flush(st, sid, pref).headed.len() ==> headed(rows2, hdrs2, #[trigger] flush(st, sid, pref).headed[j]),
{
    assert forall|j: int| 0 <= j < st.headed.len() implies headed(rows2, hdrs2, #[trigger] st.headed[j]) by {
        lemma_headed_kept(rows, hdrs, rows2, hdrs2, st.headed[j]);
    }
    let f = flush(st, sid, pref);
    assert forall|j: int| 0 <= j < f.headed.len() implies headed(rows2, hdrs2, #[trigger] f.headed[j]) by {
        if j < st.headed.len() {
            if st.open is Some && pending(st.open, st.last, sid, pref) is Some && st.hset {
                assert(f.headed[j] == st.headed[j]);
            }
        }
    }
}

pub proof fn lemma_rows_extend_trans(a: Seq<RowView>, b: Seq<RowView>, c: Seq<RowView>)
    requires
        rows_extend(a, b),
        rows_extend(b, c),
    ensures
        rows_extend(a, c),
{
    assert forall|i: int| 0 <= i < a.len() implies (#[trigger] c[i]).id == a[i].id && c[i].channel.key() == a[i].channel.key() by {
        assert(b[i].id == a[i].id);
    }
}

/// Rows left as they are were stored with no channel.
pub proof fn lemma_stored_fields_refl(rows: Seq<RowView>)
    ensures
        stored_fields(rows, rows, None),
{
    assert forall|j: int| 0 <= j < rows.len() implies rows.contains(#[trigger] rows[j]) by {}
}

/// Flushing commits exactly the pending channel.
pub proof fn lemma_flush_parsed(st: ScanState, sid: i64, pref: Option<bool>)
    ensures
        flush(st, sid, pref).parsed == match pending(st.open, st.last, sid, pref) {
            Some(c) => st.parsed.push(c),
            None => st.parsed,
        },
{
}

/// Scans the lines of a playlist into the catalog under source `source_id`.
pub fn ingest_m3u_lines(
    catalog: &mut Catalog,
    lines: &Vec<String>,
    source_id: i64,
    use_tvg_id: Option<bool>,
)
    requires
        old(catalog).wf(),
        old(catalog).has_room(3 * lines@.len() as int + 3),
    ensures
        final(catalog).wf(),
        final(catalog).source_rows() == old(catalog).source_rows(),
        old(catalog).next_id <= final(catalog).next_id,
        forall|k: ChannelKey|
            has_key(final(catalog).rows(), k) <==> (has_key(old(catalog).rows(), k) || keys_have(
                m3u_channels(lines_view(lines@), source_id, use_tvg_id),
                k,
            )),
        fresh_rows(old(catalog).rows(), Some(source_id)) ==> fresh_rows(final(catalog).rows(), Some(source_id)),
        headers_grow(old(catalog).header_rows(), final(catalog).header_rows()),
        fields_match(final(catalog).rows(), m3u_channels(lines_view(lines@), source_id, use_tvg_id)),
        groups_extend(old(catalog).group_rows(), final(catalog).group_rows()),
        groups_cover(final(catalog).group_rows(), m3u_channels(lines_view(lines@), source_id, use_tvg_id), source_id),
        rows_extend(old(catalog).rows(), final(catalog).rows()),
        forall|j: int|
            0 <= j < m3u_headed(lines_view(lines@), source_id, use_tvg_id).len() ==> headed(
                final(catalog).rows(),
                final(catalog).header_rows(),
                #[trigger] m3u_headed(lines_view(lines@), source_id, use_tvg_id)[j],
            ),
{
    let ghost lv = lines_view(lines@);
    let ghost base = old(catalog).rows();
    let mut processing = M3UProcessing {
        channel_line: None,
        channel_headers: None,
        channel_headers_set: false,
        last_non_empty_line: None,
        groups: Vec::new(),
        source_id: source_id,
        use_tvg_id: use_tvg_id,
        line_count: 0,
    };
    assert(lv.subrange(0, 0) =~= Seq::<Seq<char>>::empty());
    proof {
        lemma_headers_grow_refl(catalog.header_rows());
        lemma_groups_extend_refl(catalog.group_rows());
    }
    let mut i: usize = 0;
    while i < lines.len()
        invariant
            i <= lines@.len(),
            lv == lines_view(lines@),
            base == old(catalog).rows(),
            catalog.wf(),
            catalog.has_room(3 * (lines@.len() - i) as int + 3),
            catalog.source_rows() == old(catalog).source_rows(),
            old(catalog).next_id <= catalog.next_id,
            processing.source_id == source_id,
            processing.use_tvg_id == use_tvg_id,
            cache_ok(processing.groups@, catalog.group_rows(), source_id),
            tracks(&processing, scan(lv.subrange(0, i as int), source_id, use_tvg_id)),
            keys_match(catalog.rows(), base, scan(lv.subrange(0, i as int), source_id, use_tvg_id).parsed),
            fields_match(catalog.rows(), scan(lv.subrange(0, i as int), source_id, use_tvg_id).parsed),
            groups_extend(old(catalog).group_rows(), catalog.group_rows()),
            groups_cover(catalog.group_rows(), scan(lv.subrange(0, i as int), source_id, use_tvg_id).parsed, source_id),
            rows_extend(old(catalog).rows(), catalog.rows()),
            forall|j: int|
                0 <= j < scan(lv.subrange(0, i as int), source_id, use_tvg_id).headed.len() ==> headed(
                    catalog.rows(),
                    catalog.header_rows(),
                    #[trigger] scan(lv.subrange(0, i as int), source_id, use_tvg_id).headed[j],
                ),
            fresh_rows(base, Some(source_id)) ==> fresh_rows(catalog.rows(), Some(source_id)),
            headers_grow(old(catalog).header_rows(), catalog.header_rows()),
            processing.channel_headers_set ==> headers_set_ok(&processing),
        decreases lines@.len() - i,
    {
        let ghost st = scan(lv.subrange(0, i as int), source_id, use_tvg_id);
        let ghost rows_before = catalog.rows();
        let ghost groups_before = catalog.group_rows();
        let ghost headers_before = catalog.header_rows();
        processing.line_count = i;
        let line = &lines[i];
        proof {
            assert(lv.subrange(0, i + 1).drop_last() =~= lv.subrange(0, i as int));
            assert(lv.subrange(0, i + 1).last() == line@);
            assert(scan(lv.subrange(0, i + 1), source_id, use_tvg_id) == step(
                st,
                line@,
                source_id,
                use_tvg_id,
            ));
        }
        let upper = to_upper(line.as_str());
        let extinf = starts_with(upper.as_str(), EXTINF_TAG);
        assert(extinf == is_extinf(line@));
        if extinf {
            let ghost pend = pending(st.open, st.last, source_id, use_tvg_id);
            try_commit_channel(&mut processing, catalog);
            proof {
                lemma_headers_grow_trans(old(catalog).header_rows(), headers_before, catalog.header_rows());
            }
            processing.channel_line = Some(line.clone());
            processing.channel_headers_set = false;
            proof {
                lemma_flush_parsed(st, source_id, use_tvg_id);
                lemma_fields_step(rows_before, catalog.rows(), st.parsed, pend);
                lemma_headed_step(old(catalog).rows(), rows_before, headers_before, catalog.rows(), catalog.header_rows(), st, source_id, use_tvg_id);
                lemma_groups_extend_trans(old(catalog).group_rows(), groups_before, catalog.group_rows());
                lemma_groups_cover_extend(groups_before, catalog.group_rows(), st.parsed, source_id);
                if pend is Some {
                    lemma_groups_cover_push(catalog.group_rows(), st.parsed, pend->0, source_id);
                }
                assert(scan(lv.subrange(0, i + 1), source_id, use_tvg_id).parsed == flush(
                    st,
                    source_id,
                    use_tvg_id,
                ).parsed);
                assert forall|k: ChannelKey|
                    has_key(catalog.rows(), k) <==> (has_key(rows_before, k) || adds_key(pend, k)) by {
                }
                assert forall|k: ChannelKey|
                    has_key(rows_before, k) <==> (has_key(base, k) || keys_have(st.parsed, k)) by {
                }
                assert forall|k: ChannelKey|
                    has_key(catalog.rows(), k) <==> (has_key(base, k) || keys_have(
                        scan(lv.subrange(0, i + 1), source_id, use_tvg_id).parsed,
                        k,
                    )) by {
                    match pending(st.open, st.last, source_id, use_tvg_id) {
                        Some(c) => {
                            lemma_keys_have_push(st.parsed, c, k);
                        },
                        None => {},
                    }
                }
            }
        } else if starts_with(upper.as_str(), EXTVLCOPT_TAG) {
            assert(is_extvlcopt(line@));
            assert(scan(lv.subrange(0, i + 1), source_id, use_tvg_id).parsed == st.parsed);
            if processing.channel_headers.is_none() {
                processing.channel_headers = Some(ChannelHttpHeaders::empty());
            }
            let mut h = match processing.channel_headers.take() {
                Some(h) => h,
                None => ChannelHttpHeaders::empty(),
            };
            let ghost h0 = h@;
            if set_http_headers(line.as_str(), &mut h) {
                processing.channel_headers_set = true;
            }
            assert(!headers_empty(h0) ==> !headers_empty(h@));
            processing.channel_headers = Some(h);
        } else {
            let trimmed = trim_str(line.as_str());
            if !trimmed.as_str().is_empty() {
                processing.last_non_empty_line = Some(line.clone());
            }
            assert(scan(lv.subrange(0, i + 1), source_id, use_tvg_id).parsed == st.parsed);
        }
        assert forall|k: ChannelKey|
            has_key(catalog.rows(), k) <==> (has_key(base, k) || keys_have(
                scan(lv.subrange(0, i + 1), source_id, use_tvg_id).parsed,
                k,
            )) by {
            if !extinf {
                assert(catalog.rows() == rows_before);
                assert(scan(lv.subrange(0, i + 1), source_id, use_tvg_id).parsed == st.parsed);
            }
        }
        let ghost next = scan(lv.subrange(0, i + 1), source_id, use_tvg_id);
        assert(keys_match(catalog.rows(), base, next.parsed));
        i = i + 1;
        assert(scan(lv.subrange(0, i as int), source_id, use_tvg_id) == next);
    }
    assert(lv.subrange(0, lines@.len() as int) =~= lv);
    let ghost st = scan(lv, source_id, use_tvg_id);
    let ghost headers_before = catalog.header_rows();
    let ghost rows_before = catalog.rows();
    let ghost groups_before = catalog.group_rows();
    try_commit_channel(&mut processing, catalog);
    proof {
        lemma_headers_grow_trans(old(catalog).header_rows(), headers_before, catalog.header_rows());
        let pend = pending(st.open, st.last, source_id, use_tvg_id);
        lemma_headed_step(old(catalog).rows(), rows_before, headers_before, catalog.rows(), catalog.header_rows(), st, source_id, use_tvg_id);
        lemma_groups_extend_trans(old(catalog).group_rows(), groups_before, catalog.group_rows());
        lemma_groups_cover_extend(groups_before, catalog.group_rows(), st.parsed, source_id);
        if pend is Some {
            lemma_groups_cover_push(catalog.group_rows(), st.parsed, pend->0, source_id);
        }
    }
    proof {
        lemma_flush_parsed(st, source_id, use_tvg_id);
        lemma_fields_step(rows_before, catalog.rows(), st.parsed, pending(st.open, st.last, source_id, use_tvg_id));
        assert forall|k: ChannelKey|
            has_key(catalog.rows(), k) <==> (has_key(base, k) || keys_have(
                m3u_channels(lv, source_id, use_tvg_id),
                k,
            )) by {
            match pending(st.open, st.last, source_id, use_tvg_id) {
                Some(c) => {
                    lemma_keys_have_push(st.parsed, c, k);
                },
                None => {},
            }
        }
    }
}

/// Refreshes, or first adds, an M3U source from the lines of its playlist.
/// With `wipe` the source's catalog is replaced and its user state replayed
/// by name; without, the source is found by name or stored and the channels
/// are upserted into it.
pub fn read_m3u8(catalog: &mut Catalog, source: &Source, lines: &Vec<String>, wipe: bool) -> (r: Result<(), Error>)
    requires
        old(catalog).wf(),
        old(catalog).has_room(3 * lines@.len() as int + 4),
    ensures
        final(catalog).wf(),
        r is Err <==> wipe && source.id is None,
        r is Err ==> r == Err::<(), Error>(Error::NoSourceId) && *final(catalog) == *old(catalog),
        r is Ok ==> keys_match(
            final(catalog).rows(),
            if wipe {
                old(catalog).rows().filter(row_kept(refresh_source_id(old(catalog), source, wipe)))
            } else {
                old(catalog).rows()
            },
            m3u_channels(lines_view(lines@), refresh_source_id(old(catalog), source, wipe), source.use_tvg_id),
        ),
        r is Ok ==> fields_match(
            final(catalog).rows(),
            m3u_channels(lines_view(lines@), refresh_source_id(old(catalog), source, wipe), source.use_tvg_id),
        ),
        r is Ok ==> groups_cover(
            final(catalog).group_rows(),
            m3u_channels(lines_view(lines@), refresh_source_id(old(catalog), source, wipe), source.use_tvg_id),
            refresh_source_id(old(catalog), source, wipe),
        ),
        r is Ok ==> forall|j: int|
            0 <= j < m3u_headed(lines_view(lines@), refresh_source_id(old(catalog), source, wipe), source.use_tvg_id).len()
                ==> headed(
                final(catalog).rows(),
                final(catalog).header_rows(),
                #[trigger] m3u_headed(
                    lines_view(lines@),
                    refresh_source_id(old(catalog), source, wipe),
                    source.use_tvg_id,
                )[j],
            ),
        r is Ok && wipe ==> state_restored(
            final(catalog).rows(),
            source.id->0,
            snapshot(old(catalog).rows(), source.id->0),
        ),
        r is Ok && wipe ==> final(catalog).source_rows() == old(catalog).source_rows(),
        headers_grow(old(catalog).header_rows(), final(catalog).header_rows()),
        r is Ok && wipe ==> count_of(final(catalog).rows(), source.id->0) == m3u_key_set(
            lines_view(lines@),
            source.id->0,
            source.use_tvg_id,
        ).len(),
{
    proof {
        lemma_headers_grow_refl(old(catalog).header_rows());
    }
    let (source_id, preserve) = match begin_refresh(catalog, source, wipe) {
        Ok(p) => p,
        Err(e) => {
            return Err(e);
        },
    };
    let ghost base = catalog.rows();
    ingest_m3u_lines(catalog, lines, source_id, source.use_tvg_id);
    let ghost mid = catalog.rows();
    finish_refresh(catalog, source_id, &preserve, wipe);
    proof {
        lemma_fields_kept(mid, catalog.rows(), m3u_channels(lines_view(lines@), source_id, source.use_tvg_id));
        let hd = m3u_headed(lines_view(lines@), source_id, source.use_tvg_id);
        assert(catalog.header_rows().subrange(0, catalog.header_rows().len() as int) =~= catalog.header_rows());
        assert forall|j: int| 0 <= j < hd.len() implies headed(catalog.rows(), catalog.header_rows(), #[trigger] hd[j]) by {
            lemma_headed_kept(mid, catalog.header_rows(), catalog.rows(), catalog.header_rows(), hd[j]);
        }
    }
    assert(keys_match(
        catalog.rows(),
        base,
        m3u_channels(lines_view(lines@), source_id, source.use_tvg_id),
    ));
    proof {
        if wipe {
            lemma_scan_source(lines_view(lines@), source_id, source.use_tvg_id);
            lemma_count_from_keys(
                catalog.rows(),
                base,
                m3u_channels(lines_view(lines@), source_id, source.use_tvg_id),
                source_id,
            );
        }
    }
    Ok(())
}

/// A metadata line followed by its URL line yields one channel; once
/// stored, the channel found under its derived name has the URL line,
/// trimmed, as its URL.
pub proof fn law_parsed_url_is_trimmed_line(
    first: Seq<char>,
    second: Seq<char>,
    sid: i64,
    pref: Option<bool>,
    rows: Seq<RowView>,
    base: Seq<RowView>,
)
    requires
        is_extinf(first),
        !is_extinf(second),
        !is_extvlcopt(second),
        trim_of(second).len() > 0,
        line_name(first, pref) is Some,
        keys_match(rows, base, m3u_channels(seq![first, second], sid, pref)),
    ensures
        exists|i: int|
            0 <= i < rows.len() && (#[trigger] rows[i]).channel.name == trim_of(line_name(first, pref)->0)
                && rows[i].channel.url == Some(trim_of(second)),
{
    let lines = seq![first, second];
    assert(lines.drop_last() =~= seq![first]);
    assert(seq![first].drop_last() =~= Seq::<Seq<char>>::empty());
    let c = line_channel(first, second, sid, pref)->Ok_0;
    let s0 = scan(Seq::<Seq<char>>::empty(), sid, pref);
    assert(scan(seq![first], sid, pref) == step(s0, first, sid, pref));
    let s1 = scan(seq![first], sid, pref);
    assert(s1.open == Some(first) && s1.parsed.len() == 0);
    assert(lines.last() == second);
    assert(scan(lines, sid, pref) == step(s1, second, sid, pref));
    assert(scan(lines, sid, pref).last == Some(second));
    assert(scan(lines, sid, pref).open == Some(first));
    assert(m3u_channels(lines, sid, pref) =~= seq![c]);
    assert(m3u_channels(lines, sid, pref)[0].key() == c.key());
    assert(keys_have(m3u_channels(lines, sid, pref), c.key()));
    let i = choose|i: int| 0 <= i < rows.len() && #[trigger] rows[i].channel.key() == c.key();
    assert(rows[i].channel.name == c.name);
}

/// A channel, once committed by a scan, stays among the channels of every
/// longer prefix of the playlist and among those of the whole playlist.
pub proof fn lemma_parsed_kept(lines: Seq<Seq<char>>, j: int, c: ChannelView, sid: i64, pref: Option<bool>)
    requires
        0 <= j <= lines.len(),
        scan(lines.subrange(0, j), sid, pref).parsed.contains(c),
    ensures
        m3u_channels(lines, sid, pref).contains(c),
    decreases lines.len() - j,
{
    let st = scan(lines.subrange(0, j), sid, pref);
    if j == lines.len() {
        assert(lines.subrange(0, j) =~= lines);
        lemma_flush_parsed(st, sid, pref);
        let k = choose|k: int| 0 <= k < st.parsed.len() && st.parsed[k] == c;
        match pending(st.open, st.last, sid, pref) {
            Some(p) => {
                assert(st.parsed.push(p)[k] == c);
            },
            None => {},
        }
    } else {
        assert(lines.subrange(0, j + 1).drop_last() =~= lines.subrange(0, j));
        assert(lines.subrange(0, j + 1).last() == lines[j]);
        let next = scan(lines.subrange(0, j + 1), sid, pref);
        assert(next == step(st, lines[j], sid, pref));
        lemma_flush_parsed(st, sid, pref);
        let k = choose|k: int| 0 <= k < st.parsed.len() && st.parsed[k] == c;
        if is_extinf(lines[j]) {
            match pending(st.open, st.last, sid, pref) {
                Some(p) => {
                    assert(st.parsed.push(p)[k] == c);
                },
                None => {},
            }
        }
        assert(next.parsed[k] == c);
        lemma_parsed_kept(lines, j + 1, c, sid, pref);
    }
}

/// A metadata line at any place of a playlist, followed by its URL line
/// that closes the block (the playlist ends there, or the next line opens
/// another block), yields a channel; once stored, the channel found under
/// its derived name has the URL line, trimmed, as its URL.
pub proof fn law_block_url_is_trimmed_line(
    lines: Seq<Seq<char>>,
    i: int,
    sid: i64,
    pref: Option<bool>,
    rows: Seq<RowView>,
    base: Seq<RowView>,
)
    requires
        0 <= i,
        i + 1 < lines.len(),
        is_extinf(lines[i]),
        !is_extinf(lines[i + 1]),
        !is_extvlcopt(lines[i + 1]),
        trim_of(lines[i + 1]).len() > 0,
        line_name(lines[i], pref) is Some,
        i + 2 == lines.len() || is_extinf(lines[i + 2]),
        keys_match(rows, base, m3u_channels(lines, sid, pref)),
    ensures
        exists|r: int|
            0 <= r < rows.len() && (#[trigger] rows[r]).channel.name == trim_of(line_name(lines[i], pref)->0)
                && rows[r].channel.url == Some(trim_of(lines[i + 1])),
{
    let c = line_channel(lines[i], lines[i + 1], sid, pref)->Ok_0;
    let s0 = scan(lines.subrange(0, i), sid, pref);
    assert(lines.subrange(0, i + 1).drop_last() =~= lines.subrange(0, i));
    assert(lines.subrange(0, i + 1).last() == lines[i]);
    let s1 = scan(lines.subrange(0, i + 1), sid, pref);
    assert(s1 == step(s0, lines[i], sid, pref));
    assert(s1.open == Some(lines[i]));
    assert(lines.subrange(0, i + 2).drop_last() =~= lines.subrange(0, i + 1));
    assert(lines.subrange(0, i + 2).last() == lines[i + 1]);
    let s2 = scan(lines.subrange(0, i + 2), sid, pref);
    assert(s2 == step(s1, lines[i + 1], sid, pref));
    assert(s2.open == Some(lines[i]) && s2.last == Some(lines[i + 1]));
    assert(pending(s2.open, s2.last, sid, pref) == Some(c));
    lemma_flush_parsed(s2, sid, pref);
    assert(flush(s2, sid, pref).parsed == s2.parsed.push(c));
    assert(s2.parsed.push(c)[s2.parsed.len() as int] == c);
    if i + 2 == lines.len() {
        assert(lines.subrange(0, i + 2) =~= lines);
        assert(m3u_channels(lines, sid, pref).contains(c));
    } else {
        assert(lines.subrange(0, i + 3).drop_last() =~= lines.subrange(0, i + 2));
        assert(lines.subrange(0, i + 3).last() == lines[i + 2]);
        let s3 = scan(lines.subrange(0, i + 3), sid, pref);
        assert(s3 == step(s2, lines[i + 2], sid, pref));
        assert(s3.parsed.contains(c));
        lemma_parsed_kept(lines, i + 3, c, sid, pref);
    }
    let k = choose|k: int| 0 <= k < m3u_channels(lines, sid, pref).len() && m3u_channels(lines, sid, pref)[k] == c;
    assert(keys_have(m3u_channels(lines, sid, pref), c.key()));
    let r = choose|r: int| 0 <= r < rows.len() && #[trigger] rows[r].channel.key() == c.key();
    assert(rows[r].channel.name == c.name);
}

/// After a wipe-refresh a source holds no channel under a name that the
/// new playlist does not yield: a favorite lost upstream is dropped
/// without an error.
pub proof fn law_lost_channel_dropped(
    rows: Seq<RowView>,
    old_rows: Seq<RowView>,
    parsed: Seq<ChannelView>,
    sid: i64,
    name: Seq<char>,
)
    requires
        keys_match(rows, old_rows.filter(row_kept(sid)), parsed),
        forall|j: int| 0 <= j < parsed.len() ==> (#[trigger] parsed[j]).name != name,
    ensures
        forall|i: int|
            0 <= i < rows.len() && (#[trigger] rows[i]).channel.source_id == Some(sid) ==> rows[i].channel.name
                != name,
{
    let kept = old_rows.filter(row_kept(sid));
    assert forall|i: int|
        0 <= i < rows.len() && (#[trigger] rows[i]).channel.source_id == Some(sid) implies rows[i].channel.name
            != name by {
        let k = rows[i].channel.key();
        assert(has_key(rows, k));
        if has_key(kept, k) {
            let j = choose|j: int| 0 <= j < kept.len() && #[trigger] kept[j].channel.key() == k;
            crate::catalog::lemma_filter_subset(old_rows, row_kept(sid));
            assert(old_rows.contains(kept[j]));
            reveal(Seq::filter);
            lemma_filter_kept_pred(old_rows, row_kept(sid), j);
        } else {
            let j = choose|j: int| 0 <= j < parsed.len() && (#[trigger] parsed[j]).key() == k;
        }
    }
}

/// Every element that a filter keeps meets its predicate.
pub proof fn lemma_filter_kept_pred(s: Seq<RowView>, pred: spec_fn(RowView) -> bool, j: int)
    requires
        0 <= j < s.filter(pred).len(),
    ensures
        pred(s.filter(pred)[j]),
    decreases s.len(),
{
    reveal(Seq::filter);
    if s.len() > 0 {
        let init = s.drop_last().filter(pred);
        if j < init.len() {
            lemma_filter_kept_pred(s.drop_last(), pred, j);
            if pred(s.last()) {
                assert(s.filter(pred) == init.push(s.last()));
                assert(init.push(s.last())[j] == init[j]);
            }
        } else {
            assert(s.filter(pred) == init.push(s.last()));
        }
    }
}

/// Two wipe-refreshes of a source from the same playlist leave it the same
/// number of channels: the count after a wipe-refresh depends on the
/// playlist alone.
pub proof fn law_rerun_keeps_count(
    first: Seq<RowView>,
    second: Seq<RowView>,
    lines: Seq<Seq<char>>,
    sid: i64,
    pref: Option<bool>,
)
    requires
        count_of(first, sid) == m3u_key_set(lines, sid, pref).len(),
        count_of(second, sid) == m3u_key_set(lines, sid, pref).len(),
    ensures
        count_of(second, sid) == count_of(first, sid),
{
}

/// With the `tvg-id` preference, a blank `tvg-name` falls back to a
/// non-blank `tvg-id`.
pub proof fn law_blank_name_falls_back_to_id(line: Seq<char>, id: Seq<char>)
    requires
        tag_of(crate::tags::NAME_PATTERN@, line) is None,
        tag_of(crate::tags::ID_PATTERN@, line) == Some(id),
    ensures
        line_name(line, Some(true)) == Some(id),
{
}

/// A block whose name and id are both blank, and that has no display name
/// after a comma, yields no channel, and the scan goes on with the next block.
pub proof fn law_nameless_block_skipped(
    bad: Seq<char>,
    bad_url: Seq<char>,
    good: Seq<char>,
    good_url: Seq<char>,
    sid: i64,
    pref: Option<bool>,
)
    requires
        is_extinf(bad),
        is_extinf(good),
        !is_extinf(bad_url) && !is_extvlcopt(bad_url) && trim_of(bad_url).len() > 0,
        !is_extinf(good_url) && !is_extvlcopt(good_url) && trim_of(good_url).len() > 0,
        tag_of(crate::tags::NAME_PATTERN@, bad) is None,
        tag_of(crate::tags::ID_PATTERN@, bad) is None,
        tag_of(crate::tags::NAME_ALT_PATTERN@, bad) is None,
        line_channel(good, good_url, sid, pref) is Ok,
    ensures
        line_channel(bad, bad_url, sid, pref) == Err::<ChannelView, Error>(Error::NoName),
        m3u_channels(seq![bad, bad_url, good, good_url], sid, pref) == seq![
            line_channel(good, good_url, sid, pref)->Ok_0,
        ],
{
    let lines = seq![bad, bad_url, good, good_url];
    assert(lines.drop_last() =~= seq![bad, bad_url, good]);
    assert(seq![bad, bad_url, good].drop_last() =~= seq![bad, bad_url]);
    assert(seq![bad, bad_url].drop_last() =~= seq![bad]);
    assert(seq![bad].drop_last() =~= Seq::<Seq<char>>::empty());
    let s0 = scan(Seq::<Seq<char>>::empty(), sid, pref);
    assert(scan(seq![bad], sid, pref) == step(s0, bad, sid, pref));
    let s1 = scan(seq![bad], sid, pref);
    assert(s1.open == Some(bad) && s1.parsed.len() == 0);
    assert(seq![bad, bad_url].last() == bad_url);
    assert(scan(seq![bad, bad_url], sid, pref) == step(s1, bad_url, sid, pref));
    let s2 = scan(seq![bad, bad_url], sid, pref);
    assert(s2.open == Some(bad) && s2.last == Some(bad_url) && s2.parsed.len() == 0);
    assert(seq![bad, bad_url, good].last() == good);
    assert(scan(seq![bad, bad_url, good], sid, pref) == step(s2, good, sid, pref));
    let s3 = scan(seq![bad, bad_url, good], sid, pref);
    assert(s3.open == Some(good) && s3.last is None && s3.parsed.len() == 0);
    assert(lines.last() == good_url);
    assert(scan(lines, sid, pref) == step(s3, good_url, sid, pref));
    let s4 = scan(lines, sid, pref);
    assert(s4.open == Some(good) && s4.last == Some(good_url) && s4.parsed.len() == 0);
    assert(m3u_channels(lines, sid, pref) =~= seq![line_channel(good, good_url, sid, pref)->Ok_0]);
}

pub open spec fn row_key() -> spec_fn(RowView) -> ChannelKey {
    |r: RowView| r.channel.key()
}

pub open spec fn channel_key() -> spec_fn(ChannelView) -> ChannelKey {
    |c: ChannelView| c.key()
}

/// The distinct channel keys that a playlist yields for source `sid`.
pub open spec fn m3u_key_set(lines: Seq<Seq<char>>, sid: i64, pref: Option<bool>) -> Set<ChannelKey> {
    m3u_channels(lines, sid, pref).map_values(channel_key()).to_set()
}

/// Every channel a scan commits belongs to the scanned source.
pub proof fn lemma_scan_source(lines: Seq<Seq<char>>, sid: i64, pref: Option<bool>)
    ensures
        forall|j: int|
            0 <= j < scan(lines, sid, pref).parsed.len() ==> (#[trigger] scan(lines, sid, pref).parsed[j]).source_id
                == Some(sid),
        forall|j: int|
            0 <= j < m3u_channels(lines, sid, pref).len() ==> (#[trigger] m3u_channels(lines, sid, pref)[j]).source_id
                == Some(sid),
    decreases lines.len(),
{
    if lines.len() > 0 {
        lemma_scan_source(lines.drop_last(), sid, pref);
        lemma_flush_parsed(scan(lines.drop_last(), sid, pref), sid, pref);
    }
    lemma_flush_parsed(scan(lines, sid, pref), sid, pref);
}

/// With unique keys, the rows of a source number as many as their keys;
/// when those keys are exactly the keys of `parsed`, they number as many
/// as the distinct keys of `parsed`.
pub proof fn lemma_count_from_keys(rows: Seq<RowView>, base: Seq<RowView>, parsed: Seq<ChannelView>, sid: i64)
    requires
        crate::catalog::unique_keys(rows),
        keys_match(rows, base, parsed),
        forall|k: ChannelKey| has_key(base, k) ==> k.source_id != Some(sid),
        forall|j: int| 0 <= j < parsed.len() ==> (#[trigger] parsed[j]).source_id == Some(sid),
    ensures
        count_of(rows, sid) == parsed.map_values(channel_key()).to_set().len(),
{
    let f = rows.filter(of_source(sid));
    let fk = f.map_values(row_key());
    let pk = parsed.map_values(channel_key());
    crate::catalog::lemma_filter_unique_keys(rows, of_source(sid));
    crate::catalog::lemma_filter_subset(rows, of_source(sid));
    rows.filter_lemma(of_source(sid));
    assert(fk.no_duplicates()) by {
        assert forall|i: int, j: int| 0 <= i < fk.len() && 0 <= j < fk.len() && i != j implies fk[i] != fk[j] by {
            if i < j {
                assert(f[i].channel.key() != f[j].channel.key());
            } else {
                assert(f[j].channel.key() != f[i].channel.key());
            }
        }
    }
    fk.unique_seq_to_set();
    assert(fk.to_set() =~= pk.to_set()) by {
        assert forall|k: ChannelKey| fk.to_set().contains(k) <==> pk.to_set().contains(k) by {
            if fk.contains(k) {
                let i = choose|i: int| 0 <= i < fk.len() && fk[i] == k;
                assert(rows.contains(f[i]));
                let r = choose|r: int| 0 <= r < rows.len() && rows[r] == f[i];
                assert(of_source(sid)(f[i]));
                assert(rows[r].channel.key() == k);
                assert(has_key(rows, k));
                assert(keys_have(parsed, k));
                let j = choose|j: int| 0 <= j < parsed.len() && (#[trigger] parsed[j]).key() == k;
                assert(pk[j] == k);
            }
            if pk.contains(k) {
                let j = choose|j: int| 0 <= j < pk.len() && pk[j] == k;
                assert(parsed[j].key() == k);
                assert(keys_have(parsed, k));
                assert(has_key(rows, k));
                let r = choose|r: int| 0 <= r < rows.len() && #[trigger] rows[r].channel.key() == k;
                assert(of_source(sid)(rows[r]));
                assert(f.contains(rows[r]));
                let i = choose|i: int| 0 <= i < f.len() && f[i] == rows[r];
                assert(fk[i] == k);
            }
        }
    }
}

} // verus!
