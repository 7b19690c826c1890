//! Properties that relate several operations of the engine.

use vstd::prelude::*;
use crate::entry::{ParsedEntry, entry_content_id, entry_status, entry_time, is_item_of, kept, kept_entries};
use crate::identity::content_id;
use crate::model::{Item, ItemStatus};
use crate::refresh::{class_in, picked, picked_all, store_classes};
use crate::store::{
    after_gc, collected, feed_in, remaining_items, feed_item_id_known, item_id_taken, lemma_filter_sub, rows_of,
};

verus! {

broadcast use vstd::seq_lib::group_seq_properties;

/// Once the rows kept from a document are stored, every dated entry of the
/// same document classifies as already stored, and classifying the
/// document again keeps nothing.
pub proof fn reingest_keeps_nothing(
    stored: Seq<Item>,
    entries: Seq<ParsedEntry>,
    now: i64,
    fid: i64,
    rows: Seq<Item>,
)
    requires
        rows.len() == kept_entries(stored, entries, now).len(),
        forall|k: int|
            0 <= k < rows.len() ==> is_item_of(
                Item { seen: false, ..#[trigger] rows[k] },
                kept_entries(stored, entries, now)[k],
                now,
            ),
    ensures
        forall|j: int|
            0 <= j < entries.len() && (#[trigger] entry_time(entries[j], now)) is Some
                ==> entry_status(
                stored + rows_of(rows, fid),
                entries[j],
                entry_time(entries[j], now)->0,
            ) == ItemStatus::Exists,
        kept_entries(stored + rows_of(rows, fid), entries, now).len() == 0,
{
    let after = stored + rows_of(rows, fid);
    let kept_list = kept_entries(stored, entries, now);
    assert forall|j: int|
        0 <= j < entries.len() && (#[trigger] entry_time(entries[j], now)) is Some implies entry_status(
        after,
        entries[j],
        entry_time(entries[j], now)->0,
    ) == ItemStatus::Exists by {
        let e = entries[j];
        let t = entry_time(e, now)->0;
        let cid = entry_content_id(e, t);
        if kept(stored, e, now) {
            entries.lemma_filter_contains(|x: ParsedEntry| kept(stored, x, now), j);
            let k = choose|k: int| 0 <= k < kept_list.len() && kept_list[k] == e;
            let row = rows[k];
            assert(is_item_of(Item { seen: false, ..row }, e, now));
            assert(content_id(Item { seen: false, ..row }) == cid);
            assert(after[stored.len() + k] == rows_of(rows, fid)[k]);
            assert(after[stored.len() + k].item_id == row.item_id);
            assert(after[stored.len() + k].feed_item_id@ == e.id@);
        } else {
            assert(entry_status(stored, e, t) == ItemStatus::Exists);
            let m = choose|m: int| 0 <= m < stored.len() && (#[trigger] stored[m]).item_id is Some
                && stored[m].item_id->0@ == cid;
            assert(after[m] == stored[m]);
            let m2 = choose|m2: int| 0 <= m2 < stored.len() && (#[trigger] stored[m2]).feed_item_id@ == e.id@;
            assert(after[m2] == stored[m2]);
        }
        assert(item_id_taken(after, cid));
        assert(feed_item_id_known(after, e.id@));
    }
    let again = kept_entries(after, entries, now);
    if again.len() > 0 {
        lemma_filter_sub(entries, |x: ParsedEntry| kept(after, x, now));
        entries.lemma_filter_pred(|x: ParsedEntry| kept(after, x, now), 0);
        let j = choose|j: int| 0 <= j < entries.len() && entries[j] == #[trigger] again[0];
        assert(entry_time(entries[j], now) is Some);
    }
}

/// An entry whose remote identifier is stored while its content identifier
/// is not is an edit: it classifies as updated and is kept, beside the rows
/// of its earlier revisions.
pub proof fn edit_is_updated(stored: Seq<Item>, e: ParsedEntry, now: i64)
    requires
        entry_time(e, now) is Some,
        feed_item_id_known(stored, e.id@),
        !item_id_taken(stored, entry_content_id(e, entry_time(e, now)->0)),
    ensures
        entry_status(stored, e, entry_time(e, now)->0) == ItemStatus::Updated,
        kept(stored, e, now),
{
}

/// Deleting feeds removes every item of those feeds and keeps every item
/// of the others.
pub proof fn deletion_cascades(items: Seq<Item>, ids: Seq<i64>)
    ensures
        forall|k: int|
            0 <= k < remaining_items(items, ids).len() ==> !feed_in(
                (#[trigger] remaining_items(items, ids)[k]).feed_id,
                ids,
            ),
        forall|k: int|
            0 <= k < items.len() && !feed_in((#[trigger] items[k]).feed_id, ids)
                ==> remaining_items(items, ids).contains(items[k]),
{
    let keep = |it: Item| !feed_in(it.feed_id, ids);
    assert forall|k: int| 0 <= k < remaining_items(items, ids).len() implies !feed_in(
        (#[trigger] remaining_items(items, ids)[k]).feed_id,
        ids,
    ) by {
        items.lemma_filter_pred(keep, k);
    }
    assert forall|k: int| 0 <= k < items.len() && !feed_in((#[trigger] items[k]).feed_id, ids)
        implies remaining_items(items, ids).contains(items[k]) by {
        items.lemma_filter_contains(keep, k);
    }
}

/// Collection spares every row that is unseen, of another feed, or
/// published at or after the threshold.
pub proof fn gc_spares_recent(items: Seq<Item>, fid: i64, thres: i64, k: int)
    requires
        0 <= k < items.len(),
        !collected(items[k], fid, thres),
    ensures
        after_gc(items, fid, Some(thres)).contains(items[k]),
{
    items.lemma_filter_contains(|it: Item| !collected(it, fid, thres), k);
}

proof fn lemma_picked_contains(
    entries: Seq<ParsedEntry>,
    classes: Seq<ItemStatus>,
    now: i64,
    n: int,
    j: int,
)
    requires
        0 <= j < n <= entries.len(),
        entry_time(entries[j], now) is Some,
        classes[j] != ItemStatus::Exists,
    ensures
        exists|k: int| 0 <= k < picked(entries, classes, now, n).len() && #[trigger] picked(entries, classes, now, n)[k] == j,
    decreases n,
{
    if j < n - 1 {
        lemma_picked_contains(entries, classes, now, n - 1, j);
        let k = choose|k: int| 0 <= k < picked(entries, classes, now, n - 1).len() && #[trigger] picked(entries, classes, now, n - 1)[k] == j;
        assert(picked(entries, classes, now, n)[k] == j);
    } else {
        let p = picked(entries, classes, now, n - 1);
        assert(picked(entries, classes, now, n)[p.len() as int] == j);
    }
}

proof fn lemma_picked_none(entries: Seq<ParsedEntry>, classes: Seq<ItemStatus>, now: i64, n: int)
    requires
        0 <= n <= entries.len(),
        forall|j: int| 0 <= j < n && entry_time(entries[j], now) is Some ==> #[trigger] classes[j] == ItemStatus::Exists,
    ensures
        picked(entries, classes, now, n).len() == 0,
    decreases n,
{
    if n > 0 {
        lemma_picked_none(entries, classes, now, n - 1);
    }
}

/// Once the items a refresh planned for a document are stored, every dated
/// entry of that document classifies as stored, and refreshing with the
/// same document at the same time picks nothing to store.
pub proof fn refetch_picks_nothing(
    stored: Seq<Item>,
    entries: Seq<ParsedEntry>,
    now: i64,
    fid: i64,
    rows: Seq<Item>,
)
    requires
        rows.len() == picked_all(entries, store_classes(stored, entries, now), now).len(),
        forall|k: int|
            0 <= k < rows.len() ==> is_item_of(
                Item { seen: false, ..#[trigger] rows[k] },
                entries[picked_all(entries, store_classes(stored, entries, now), now)[k]],
                now,
            ),
    ensures
        forall|j: int|
            0 <= j < entries.len() ==> #[trigger] store_classes(stored + rows_of(rows, fid), entries, now)[j]
                == ItemStatus::Exists,
        picked_all(entries, store_classes(stored + rows_of(rows, fid), entries, now), now).len() == 0,
{
    let after = stored + rows_of(rows, fid);
    let classes = store_classes(stored, entries, now);
    let idx = picked_all(entries, classes, now);
    assert forall|j: int| 0 <= j < entries.len() implies #[trigger] store_classes(after, entries, now)[j]
        == ItemStatus::Exists by {
        let e = entries[j];
        if entry_time(e, now) is Some {
            let t = entry_time(e, now)->0;
            let cid = entry_content_id(e, t);
            if classes[j] != ItemStatus::Exists {
                lemma_picked_contains(entries, classes, now, entries.len() as int, j);
                let k = choose|k: int| 0 <= k < idx.len() && #[trigger] idx[k] == j;
                let row = rows[k];
                assert(is_item_of(Item { seen: false, ..row }, e, now));
                assert(content_id(Item { seen: false, ..row }) == cid);
                assert(after[stored.len() + k] == rows_of(rows, fid)[k]);
                assert(after[stored.len() + k].item_id == row.item_id);
                assert(after[stored.len() + k].feed_item_id@ == e.id@);
            } else {
                assert(classes[j] == class_in(stored, e, now));
                let m = choose|m: int| 0 <= m < stored.len() && (#[trigger] stored[m]).item_id is Some
                    && stored[m].item_id->0@ == cid;
                assert(after[m] == stored[m]);
                let m2 = choose|m2: int| 0 <= m2 < stored.len() && (#[trigger] stored[m2]).feed_item_id@ == e.id@;
                assert(after[m2] == stored[m2]);
            }
            assert(item_id_taken(after, cid));
            assert(feed_item_id_known(after, e.id@));
        }
    }
    lemma_picked_none(entries, store_classes(after, entries, now), now, entries.len() as int);
}

} // verus!
