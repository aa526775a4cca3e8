//! The refresh protocol that every ingestion path shares: snapshot the
//! user's state and wipe the source (or find or create it on a first add),
//! ingest, then replay the snapshot by name.
use crate::catalog::{fields_kept, holds_fields, 
    Catalog, RowView, fresh_rows, has_key, restored, row_kept, snapshot, source_id_for,
    lemma_restored_keeps, preserved, preserve_of,
};
use crate::error::Error;
use crate::types::{ChannelKey, ChannelPreserve, ChannelView, PreserveView, Source};
use vstd::prelude::*;

verus! {

/// `r` without user state.
pub open spec fn cleared(r: RowView) -> RowView {
    RowView {
        channel: ChannelView { favorite: false, ..r.channel },
        last_watched: None,
        hidden: false,
        ..r
    }
}

/// Every row of source `sid` carries exactly the user state that the
/// snapshot `snap` gives to its name, and no other.
pub open spec fn state_restored(rows: Seq<RowView>, sid: i64, snap: Seq<PreserveView>) -> bool {
    forall|i: int|
        0 <= i < rows.len() && (#[trigger] rows[i]).channel.source_id == Some(sid) ==> rows[i]
            == restored(cleared(rows[i]), sid, snap)
}


/// The id that a refresh works under.
pub open spec fn refresh_source_id(cat: &Catalog, source: &Source, wipe: bool) -> i64 {
    if wipe {
        source.id->0
    } else {
        source_id_for(cat.source_rows(), source@.name, cat.next_id)
    }
}

pub proof fn lemma_restored_cleared(r: RowView, sid: i64, ps: Seq<PreserveView>)
    ensures
        cleared(restored(r, sid, ps)) == cleared(r),
    decreases ps.len(),
{
    if ps.len() > 0 {
        lemma_restored_cleared(r, sid, ps.drop_last());
    }
}

/// Two row sequences that agree on every key hold the same keys.
pub proof fn lemma_same_keys(a: Seq<RowView>, b: Seq<RowView>)
    requires
        a.len() == b.len(),
        forall|i: int| 0 <= i < a.len() ==> (#[trigger] a[i]).channel.key() == b[i].channel.key(),
    ensures
        forall|k: ChannelKey| has_key(a, k) <==> has_key(b, k),
{
    assert forall|k: ChannelKey| has_key(a, k) <==> has_key(b, k) by {
        if has_key(a, k) {
            let j = choose|j: int| 0 <= j < a.len() && #[trigger] a[j].channel.key() == k;
            assert(b[j].channel.key() == k);
        }
        if has_key(b, k) {
            let j = choose|j: int| 0 <= j < b.len() && #[trigger] b[j].channel.key() == k;
            assert(a[j].channel.key() == k);
        }
    }
}

/// First phase of a refresh. With `wipe`, the source must have an id: its
/// user state is snapshot and its catalog deleted. Without, the source is
/// found by name or stored.
pub fn begin_refresh(catalog: &mut Catalog, source: &Source, wipe: bool) -> (r: Result<
    (i64, Vec<ChannelPreserve>),
    Error,
>)
    requires
        old(catalog).wf(),
        old(catalog).has_room(1),
    ensures
        final(catalog).wf(),
        r is Err <==> wipe && source.id is None,
        r is Err ==> r == Err::<(i64, Vec<ChannelPreserve>), Error>(Error::NoSourceId) && *final(catalog) == *old(catalog),
        r is Ok ==> r->Ok_0.0 == refresh_source_id(old(catalog), source, wipe),
        old(catalog).next_id <= final(catalog).next_id <= old(catalog).next_id + 1,
        final(catalog).header_rows() == old(catalog).header_rows(),
        r is Ok && wipe ==> {
            &&& r->Ok_0.1@.map_values(|p: ChannelPreserve| p@) == snapshot(old(catalog).rows(), r->Ok_0.0)
            &&& final(catalog).rows() == old(catalog).rows().filter(row_kept(r->Ok_0.0))
            &&& final(catalog).source_rows() == old(catalog).source_rows()
            &&& fresh_rows(final(catalog).rows(), Some(r->Ok_0.0))
            &&& forall|k: ChannelKey| has_key(final(catalog).rows(), k) ==> k.source_id != Some(r->Ok_0.0)
        },
        r is Ok && !wipe ==> {
            &&& final(catalog).rows() == old(catalog).rows()
            &&& r->Ok_0.1@.len() == 0
        },
{
    if wipe {
        let id = match source.id {
            Some(id) => id,
            None => {
                return Err(Error::NoSourceId);
            },
        };
        let preserve = catalog.get_channel_preserve(id);
        let ghost rows0 = catalog.rows();
        catalog.wipe(id);
        proof {
            rows0.filter_lemma(row_kept(id));
            let f = rows0.filter(row_kept(id));
            assert(forall|i: int| 0 <= i < f.len() ==> row_kept(id)(#[trigger] f[i]));
            assert forall|k: ChannelKey| has_key(catalog.rows(), k) implies k.source_id != Some(id) by {
                let j = choose|j: int| 0 <= j < f.len() && #[trigger] f[j].channel.key() == k;
                assert(row_kept(id)(f[j]));
            }
        }
        Ok((id, preserve))
    } else {
        let id = catalog.create_or_find_source_by_name(source);
        Ok((id, Vec::new()))
    }
}

/// Last phase of a refresh: after a wipe, the snapshot is replayed by name.
pub fn finish_refresh(
    catalog: &mut Catalog,
    source_id: i64,
    preserve: &Vec<ChannelPreserve>,
    wipe: bool,
)
    requires
        old(catalog).wf(),
    ensures
        final(catalog).wf(),
        old(catalog).same_but_rows(final(catalog)),
        forall|k: ChannelKey| has_key(final(catalog).rows(), k) <==> has_key(old(catalog).rows(), k),
        !wipe ==> *final(catalog) == *old(catalog),
        fields_kept(old(catalog).rows(), final(catalog).rows()),
        wipe && fresh_rows(old(catalog).rows(), Some(source_id)) ==> state_restored(
            final(catalog).rows(),
            source_id,
            preserve@.map_values(|p: ChannelPreserve| p@),
        ),
{
    if wipe {
        let ghost mid = catalog.rows();
        let ghost ps = preserve@.map_values(|p: ChannelPreserve| p@);
        catalog.restore_preserve(source_id, preserve);
        proof {
            assert forall|i: int| 0 <= i < mid.len() implies (#[trigger] catalog.rows()[i]).channel.key()
                == mid[i].channel.key() by {
                lemma_restored_keeps(mid[i], source_id, ps);
            }
            lemma_same_keys(catalog.rows(), mid);
            assert forall|i: int| 0 <= i < catalog.rows().len() implies holds_fields(
                #[trigger] catalog.rows()[i],
                mid[i].channel,
            ) && catalog.rows()[i].id == mid[i].id && catalog.rows()[i].channel.key() == mid[i].channel.key() by {
                lemma_restored_keeps(mid[i], source_id, ps);
            }
            if fresh_rows(mid, Some(source_id)) {
                let rows = catalog.rows();
                assert forall|i: int|
                    0 <= i < rows.len() && (#[trigger] rows[i]).channel.source_id == Some(source_id)
                        implies rows[i] == restored(cleared(rows[i]), source_id, ps) by {
                    lemma_restored_keeps(mid[i], source_id, ps);
                    lemma_restored_cleared(mid[i], source_id, ps);
                    assert(cleared(mid[i]) == mid[i]);
                }
            }
        }
    }
}

/// Every record of a snapshot comes from a preserved row.
pub proof fn lemma_snapshot_from_rows(rows: Seq<RowView>, sid: i64, k: int)
    requires
        0 <= k < snapshot(rows, sid).len(),
    ensures
        exists|j: int|
            0 <= j < rows.len() && preserved(sid)(#[trigger] rows[j]) && snapshot(rows, sid)[k]
                == preserve_of(rows[j]),
    decreases rows.len(),
{
    let prev = snapshot(rows.drop_last(), sid);
    if k < prev.len() {
        lemma_snapshot_from_rows(rows.drop_last(), sid, k);
        let j = choose|j: int|
            0 <= j < rows.drop_last().len() && preserved(sid)(#[trigger] rows.drop_last()[j])
                && prev[k] == preserve_of(rows.drop_last()[j]);
        assert(rows[j] == rows.drop_last()[j]);
    } else {
        assert(rows[rows.len() - 1] == rows.last());
    }
}

/// A preserved row has its record in the snapshot.
pub proof fn lemma_snapshot_has_row(rows: Seq<RowView>, sid: i64, i: int)
    requires
        0 <= i < rows.len(),
        preserved(sid)(rows[i]),
    ensures
        snapshot(rows, sid).contains(preserve_of(rows[i])),
    decreases rows.len(),
{
    let prev = snapshot(rows.drop_last(), sid);
    if i < rows.len() - 1 {
        assert(rows.drop_last()[i] == rows[i]);
        lemma_snapshot_has_row(rows.drop_last(), sid, i);
        let k = choose|k: int| 0 <= k < prev.len() && prev[k] == preserve_of(rows[i]);
        assert(snapshot(rows, sid)[k] == prev[k]);
    } else {
        assert(rows.last() == rows[i]);
        assert(snapshot(rows, sid)[prev.len() as int] == preserve_of(rows[i]));
    }
}

/// When some record of `ps` bears the row's name and all such records are
/// favorites, the replayed row is a favorite.
pub proof fn lemma_restored_favorite(r: RowView, sid: i64, ps: Seq<PreserveView>)
    requires
        r.channel.source_id == Some(sid),
        exists|k: int| 0 <= k < ps.len() && (#[trigger] ps[k]).name == r.channel.name,
        forall|k: int| 0 <= k < ps.len() && (#[trigger] ps[k]).name == r.channel.name ==> ps[k].favorite,
    ensures
        restored(r, sid, ps).channel.favorite,
    decreases ps.len(),
{
    if ps.last().name != r.channel.name {
        let k = choose|k: int| 0 <= k < ps.len() && (#[trigger] ps[k]).name == r.channel.name;
        assert(k != ps.len() - 1);
        assert(ps.drop_last()[k] == ps[k]);
        assert forall|k2: int| 0 <= k2 < ps.drop_last().len() && (#[trigger] ps.drop_last()[k2]).name
            == r.channel.name implies ps.drop_last()[k2].favorite by {
            assert(ps.drop_last()[k2] == ps[k2]);
        }
        lemma_restored_favorite(r, sid, ps.drop_last());
    } else {
        assert(ps[ps.len() - 1] == ps.last());
    }
}

/// A favorite that is still present by name after a wipe-refresh is still a
/// favorite, provided no other snapshot record of that name says otherwise.
pub proof fn law_favorite_survives_refresh(
    old_rows: Seq<RowView>,
    new_rows: Seq<RowView>,
    sid: i64,
    i_old: int,
    i_new: int,
)
    requires
        0 <= i_old < old_rows.len(),
        old_rows[i_old].channel.source_id == Some(sid),
        old_rows[i_old].channel.favorite,
        old_rows[i_old].channel.series_id is None,
        forall|j: int|
            0 <= j < old_rows.len() && preserved(sid)(#[trigger] old_rows[j]) && old_rows[j].channel.name
                == old_rows[i_old].channel.name ==> old_rows[j].channel.favorite,
        state_restored(new_rows, sid, snapshot(old_rows, sid)),
        0 <= i_new < new_rows.len(),
        new_rows[i_new].channel.source_id == Some(sid),
        new_rows[i_new].channel.name == old_rows[i_old].channel.name,
    ensures
        new_rows[i_new].channel.favorite,
{
    let snap = snapshot(old_rows, sid);
    lemma_snapshot_has_row(old_rows, sid, i_old);
    let k = choose|k: int| 0 <= k < snap.len() && snap[k] == preserve_of(old_rows[i_old]);
    assert(snap[k].name == new_rows[i_new].channel.name);
    assert forall|k2: int| 0 <= k2 < snap.len() && (#[trigger] snap[k2]).name == new_rows[i_new].channel.name
        implies snap[k2].favorite by {
        lemma_snapshot_from_rows(old_rows, sid, k2);
    }
    let c = cleared(new_rows[i_new]);
    lemma_restored_favorite(c, sid, snap);
}

} // verus!
