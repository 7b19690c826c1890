//! The store: feeds, items and the global revision counter, with the
//! operations the engine and its readers use. Every operation is all or
//! nothing: a refused operation leaves the store as it was.

use vstd::prelude::*;
use crate::model::{Feed, FeedsExt, Item, ItemExt, ItemStatus, StoreError, status_of};

verus! {

broadcast use vstd::seq_lib::group_seq_properties;

/// Title that a feed carries until its first successful fetch.
pub const PLACEHOLDER_TITLE: &'static str = "[New feed] Updating...";

/// Identifiers are present and unique in both tables.
pub open spec fn tables_wf(feeds: Seq<Feed>, items: Seq<Item>) -> bool {
    &&& forall|i: int| 0 <= i < feeds.len() ==> (#[trigger] feeds[i]).feed_id is Some
    &&& forall|i: int, j: int|
        0 <= i < j < feeds.len() ==> (#[trigger] feeds[i]).feed_id != (#[trigger] feeds[j]).feed_id
    &&& forall|i: int|
        0 <= i < items.len() ==> (#[trigger] items[i]).item_id is Some && items[i].feed_id is Some
    &&& forall|i: int, j: int|
        0 <= i < j < items.len() ==> (#[trigger] items[i]).item_id != (#[trigger] items[j]).item_id
}

/// The largest feed identifier in use, or 0.
pub open spec fn max_feed_id(feeds: Seq<Feed>) -> i64
    decreases feeds.len(),
{
    if feeds.len() == 0 {
        0
    } else {
        let rest = max_feed_id(feeds.drop_last());
        match feeds.last().feed_id {
            Some(id) => if id > rest { id } else { rest },
            None => rest,
        }
    }
}

/// Whether `f` is the row that adding a feed with identifier `id` creates.
pub open spec fn is_new_feed_row(f: Feed, id: i64, href: Seq<char>) -> bool {
    &&& f.feed_id == Some(id)
    &&& f.href@ == href
    &&& f.title@ == PLACEHOLDER_TITLE@
    &&& f.last_retrieval == 0
    &&& f.next_retrieval == 0
    &&& f.last_activity == 0
    &&& !f.disabled
    &&& f.updated_items == 0
}

/// Whether a feed is due at `now`.
pub open spec fn is_due(f: Feed, now: i64) -> bool {
    f.next_retrieval < now && !f.disabled
}

/// Whether a row belongs to one of the feeds in `ids`.
pub open spec fn feed_in(id: Option<i64>, ids: Seq<i64>) -> bool {
    id is Some && ids.contains(id->0)
}

/// The items left after deleting the feeds in `ids`.
pub open spec fn remaining_items(items: Seq<Item>, ids: Seq<i64>) -> Seq<Item> {
    items.filter(|it: Item| !feed_in(it.feed_id, ids))
}

/// The feeds left after deleting those in `ids`.
pub open spec fn remaining_feeds(feeds: Seq<Feed>, ids: Seq<i64>) -> Seq<Feed> {
    feeds.filter(|f: Feed| !feed_in(f.feed_id, ids))
}

/// Whether a stored row has the given content identifier.
pub open spec fn item_id_taken(items: Seq<Item>, id: Seq<char>) -> bool {
    exists|j: int| 0 <= j < items.len() && (#[trigger] items[j]).item_id is Some
        && items[j].item_id->0@ == id
}

/// Whether a stored row has the given remote identifier.
pub open spec fn feed_item_id_known(items: Seq<Item>, id: Seq<char>) -> bool {
    exists|j: int| 0 <= j < items.len() && (#[trigger] items[j]).feed_item_id@ == id
}

/// The classification of an entry that carries a content identifier against
/// the stored rows.
pub open spec fn classify(items: Seq<Item>, it: Item) -> ItemStatus {
    status_of(
        feed_item_id_known(items, it.feed_item_id@),
        item_id_taken(items, it.item_id->0@),
    )
}

/// Whether a feed with identifier `id` is stored.
pub open spec fn feed_known(feeds: Seq<Feed>, id: i64) -> bool {
    exists|p: int| 0 <= p < feeds.len() && (#[trigger] feeds[p]).feed_id == Some(id)
}

/// Whether `id` names one of the feeds in `ids`.
fn contains_id(ids: &[i64], id: Option<i64>) -> (r: bool)
    ensures
        r == feed_in(id, ids@),
{
    match id {
        None => false,
        Some(v) => {
            let mut k: usize = 0;
            while k < ids.len()
                invariant
                    k <= ids.len(),
                    id == Some(v),
                    forall|m: int| 0 <= m < k ==> ids@[m] != v,
                decreases ids.len() - k,
            {
                if ids[k] == v {
                    assert(ids@[k as int] == v);
                    assert(ids@.contains(v));
                    return true;
                }
                k = k + 1;
            }
            false
        },
    }
}

/// Filtering by a predicate that holds of every element changes nothing.
proof fn lemma_filter_none<A>(s: Seq<A>, keep: spec_fn(A) -> bool)
    requires
        forall|i: int| 0 <= i < s.len() ==> keep(#[trigger] s[i]),
    ensures
        s.filter(keep) == s,
    decreases s.len(),
{
    reveal(Seq::filter);
    if s.len() > 0 {
        lemma_filter_none(s.drop_last(), keep);
    }
}

/// Filtering by a predicate that holds of no element leaves nothing.
proof fn lemma_filter_empty<A>(s: Seq<A>, keep: spec_fn(A) -> bool)
    requires
        forall|i: int| 0 <= i < s.len() ==> !keep(#[trigger] s[i]),
    ensures
        s.filter(keep).len() == 0,
    decreases s.len(),
{
    reveal(Seq::filter);
    if s.len() > 0 {
        lemma_filter_empty(s.drop_last(), keep);
    }
}

/// Every element of a filtered sequence comes from the original one, in order.
pub(crate) proof fn lemma_filter_sub<A>(s: Seq<A>, keep: spec_fn(A) -> bool)
    ensures
        forall|i: int|
            0 <= i < s.filter(keep).len() ==> exists|k: int|
                0 <= k < s.len() && s[k] == #[trigger] s.filter(keep)[i],
        forall|i: int, j: int|
            0 <= i < j < s.filter(keep).len() ==> exists|a: int, b: int|
                0 <= a < b < s.len() && s[a] == #[trigger] s.filter(keep)[i] && s[b]
                    == #[trigger] s.filter(keep)[j],
    decreases s.len(),
{
    reveal(Seq::filter);
    if s.len() > 0 {
        let d = s.drop_last();
        lemma_filter_sub(d, keep);
        let f = s.filter(keep);
        let g = d.filter(keep);
        assert forall|i: int| 0 <= i < f.len() implies exists|k: int|
            0 <= k < s.len() && s[k] == #[trigger] f[i] by {
            if i < g.len() {
                assert(f[i] == g[i]);
                let k = choose|k: int| 0 <= k < d.len() && d[k] == #[trigger] g[i];
                assert(s[k] == f[i]);
            } else {
                assert(s[s.len() - 1] == f[i]);
            }
        }
        assert forall|i: int, j: int| 0 <= i < j < f.len() implies exists|a: int, b: int|
            0 <= a < b < s.len() && s[a] == #[trigger] f[i] && s[b] == #[trigger] f[j] by {
            if j < g.len() {
                assert(f[i] == g[i] && f[j] == g[j]);
                let (a, b) = choose|a: int, b: int|
                    0 <= a < b < d.len() && d[a] == #[trigger] g[i] && d[b] == #[trigger] g[j];
                assert(s[a] == f[i] && s[b] == f[j]);
            } else {
                assert(f[i] == g[i]);
                let k = choose|k: int| 0 <= k < d.len() && d[k] == #[trigger] g[i];
                assert(s[k] == f[i] && s[s.len() - 1] == f[j]);
            }
        }
    }
}

/// Filtering both tables keeps identifiers present and unique.
proof fn lemma_filter_keeps_wf(
    feeds: Seq<Feed>,
    items: Seq<Item>,
    keep_feed: spec_fn(Feed) -> bool,
    keep_item: spec_fn(Item) -> bool,
)
    requires
        tables_wf(feeds, items),
    ensures
        tables_wf(feeds.filter(keep_feed), items.filter(keep_item)),
{
    lemma_filter_sub(feeds, keep_feed);
    lemma_filter_sub(items, keep_item);
    let f = feeds.filter(keep_feed);
    let g = items.filter(keep_item);
    assert forall|i: int| 0 <= i < f.len() implies (#[trigger] f[i]).feed_id is Some by {
        let k = choose|k: int| 0 <= k < feeds.len() && feeds[k] == #[trigger] f[i];
        assert(feeds[k].feed_id is Some);
    }
    assert forall|i: int, j: int| 0 <= i < j < f.len() implies (#[trigger] f[i]).feed_id != (
    #[trigger] f[j]).feed_id by {
        let (a, b) = choose|a: int, b: int|
            0 <= a < b < feeds.len() && feeds[a] == #[trigger] f[i] && feeds[b] == #[trigger] f[j];
        assert(feeds[a].feed_id != feeds[b].feed_id);
    }
    assert forall|i: int| 0 <= i < g.len() implies (#[trigger] g[i]).item_id is Some
        && g[i].feed_id is Some by {
        let k = choose|k: int| 0 <= k < items.len() && items[k] == #[trigger] g[i];
        assert(items[k].item_id is Some);
    }
    assert forall|i: int, j: int| 0 <= i < j < g.len() implies (#[trigger] g[i]).item_id != (
    #[trigger] g[j]).item_id by {
        let (a, b) = choose|a: int, b: int|
            0 <= a < b < items.len() && items[a] == #[trigger] g[i] && items[b] == #[trigger] g[j];
        assert(items[a].item_id != items[b].item_id);
    }
}

/// The row that inserting `it` as an item of feed `fid` stores.
pub open spec fn as_row_of(it: Item, fid: i64) -> Item {
    Item { feed_id: Some(fid), ..it }
}

/// The rows that inserting `batch` as items of feed `fid` stores.
pub open spec fn rows_of(batch: Seq<Item>, fid: i64) -> Seq<Item> {
    batch.map_values(|it: Item| as_row_of(it, fid))
}

/// Whether garbage collection with threshold `thres` removes `it` while
/// updating feed `fid`: it is an item of that feed, seen, and published before
/// the threshold.
pub open spec fn collected(it: Item, fid: i64, thres: i64) -> bool {
    it.feed_id == Some(fid) && it.published < thres && it.seen
}

/// The rows left after the optional garbage collection.
pub open spec fn after_gc(items: Seq<Item>, fid: i64, gc: Option<i64>) -> Seq<Item> {
    match gc {
        Some(t) => items.filter(|it: Item| !collected(it, fid, t)),
        None => items,
    }
}

/// Why `it` cannot be inserted for feed `fid` after the rows `prior`.
pub open spec fn item_fault(prior: Seq<Item>, it: Item, fid: i64) -> Option<StoreError> {
    if it.item_id is None {
        Some(StoreError::NoItemId)
    } else if it.feed_id is Some && it.feed_id->0 != fid {
        Some(StoreError::FeedIdMismatch)
    } else if item_id_taken(prior, it.item_id->0@) {
        Some(StoreError::DuplicateItemId)
    } else {
        None
    }
}

/// The first fault among the items of `batch`, inserted in order after the
/// stored rows.
pub open spec fn batch_fault(stored: Seq<Item>, batch: Seq<Item>, fid: i64) -> Option<StoreError>
    decreases batch.len(),
{
    if batch.len() == 0 {
        None
    } else {
        match batch_fault(stored, batch.drop_last(), fid) {
            Some(e) => Some(e),
            None => item_fault(stored + batch.drop_last(), batch.last(), fid),
        }
    }
}

/// Why updating `feed` with `batch` is refused, if it is.
pub open spec fn update_fault(
    feeds: Seq<Feed>,
    items: Seq<Item>,
    revision: i64,
    feed: Feed,
    batch: Seq<Item>,
    bump: bool,
) -> Option<StoreError> {
    if feed.feed_id is None {
        Some(StoreError::NoFeedId)
    } else if !feed_known(feeds, feed.feed_id->0) {
        Some(StoreError::UnknownFeed)
    } else if batch_fault(items, batch, feed.feed_id->0) is Some {
        batch_fault(items, batch, feed.feed_id->0)
    } else if bump && revision == i64::MAX {
        Some(StoreError::RevisionOverflow)
    } else {
        None
    }
}

/// Whether a content identifier is taken in `a + b` is whether it is taken in
/// either.
pub(crate) proof fn lemma_taken_concat(a: Seq<Item>, b: Seq<Item>, id: Seq<char>)
    ensures
        item_id_taken(a + b, id) == (item_id_taken(a, id) || item_id_taken(b, id)),
{
    if item_id_taken(a + b, id) {
        let j = choose|j: int| 0 <= j < (a + b).len() && (#[trigger] (a + b)[j]).item_id is Some
            && (a + b)[j].item_id->0@ == id;
        if j < a.len() {
            assert(a[j] == (a + b)[j]);
        } else {
            assert(b[j - a.len()] == (a + b)[j]);
        }
    }
    if item_id_taken(a, id) {
        let j = choose|j: int| 0 <= j < a.len() && (#[trigger] a[j]).item_id is Some
            && a[j].item_id->0@ == id;
        assert((a + b)[j] == a[j]);
    }
    if item_id_taken(b, id) {
        let j = choose|j: int| 0 <= j < b.len() && (#[trigger] b[j]).item_id is Some
            && b[j].item_id->0@ == id;
        assert((a + b)[a.len() + j] == b[j]);
    }
}

/// Whether `id` is the content identifier of one of the first `n` rows.
fn id_taken_upto(rows: &[Item], n: usize, id: &String) -> (r: bool)
    requires
        n <= rows@.len(),
    ensures
        r == item_id_taken(rows@.take(n as int), id@),
{
    let ghost pre = rows@.take(n as int);
    let mut k: usize = 0;
    while k < n
        invariant
            k <= n <= rows@.len(),
            pre == rows@.take(n as int),
            forall|m: int| 0 <= m < k ==> !((#[trigger] pre[m]).item_id is Some
                && pre[m].item_id->0@ == id@),
        decreases n - k,
    {
        match &rows[k].item_id {
            Some(x) => {
                if x.eq(id) {
                    assert(pre[k as int] == rows@[k as int]);
                    return true;
                }
            },
            None => {},
        }
        assert(pre[k as int] == rows@[k as int]);
        k = k + 1;
    }
    false
}

/// Replacing a feed row by one with the same identifier and appending the
/// rows of a faultless batch keeps the tables well formed.
proof fn lemma_batch_rows_wf(feeds: Seq<Feed>, items: Seq<Item>, batch: Seq<Item>, fid: i64)
    requires
        tables_wf(feeds, items),
        batch_fault(items, batch, fid) is None,
    ensures
        tables_wf(feeds, items + rows_of(batch, fid)),
    decreases batch.len(),
{
    if batch.len() > 0 {
        let d = batch.drop_last();
        lemma_batch_rows_wf(feeds, items, d, fid);
        let before = items + rows_of(d, fid);
        let after = items + rows_of(batch, fid);
        assert(after == before.push(as_row_of(batch.last(), fid)));
        let id = batch.last().item_id->0;
        assert forall|m: int| 0 <= m < before.len() implies (#[trigger] before[m]).item_id != Some(
            id,
        ) by {
            if m < items.len() {
                assert((items + d)[m] == items[m]);
            } else {
                assert(before[m].item_id == d[m - items.len()].item_id);
                assert((items + d)[m] == d[m - items.len()]);
            }
            if before[m].item_id == Some(id) {
                assert((items + d)[m].item_id is Some && (items + d)[m].item_id->0@ == id@);
            }
        }
    }
}

/// The position of the feed with identifier `fid`, if one is stored.
fn find_feed(feeds: &Vec<Feed>, fid: i64) -> (r: Option<usize>)
    ensures
        match r {
            Some(p) => p < feeds@.len() && feeds@[p as int].feed_id == Some(fid),
            None => !feed_known(feeds@, fid),
        },
{
    let mut p: usize = 0;
    while p < feeds.len()
        invariant
            p <= feeds.len(),
            forall|m: int| 0 <= m < p ==> (#[trigger] feeds@[m]).feed_id != Some(fid),
        decreases feeds.len() - p,
    {
        if feeds[p].feed_id == Some(fid) {
            return Some(p);
        }
        p = p + 1;
    }
    None
}

/// The first fault of a prefix is the first fault of the whole batch.
proof fn lemma_fault_sticks(stored: Seq<Item>, batch: Seq<Item>, fid: i64, k: int)
    requires
        0 <= k <= batch.len(),
        batch_fault(stored, batch.take(k), fid) is Some,
    ensures
        batch_fault(stored, batch, fid) == batch_fault(stored, batch.take(k), fid),
    decreases batch.len() - k,
{
    if k < batch.len() {
        assert(batch.take(k + 1).drop_last() == batch.take(k));
        lemma_fault_sticks(stored, batch, fid, k + 1);
    } else {
        assert(batch.take(k) == batch);
    }
}

/// The first fault among the items of `batch` inserted after `stored`.
fn check_batch(stored: &Vec<Item>, batch: &[Item], fid: i64) -> (r: Option<StoreError>)
    ensures
        r == batch_fault(stored@, batch@, fid),
{
    let mut k: usize = 0;
    while k < batch.len()
        invariant
            k <= batch.len(),
            batch_fault(stored@, batch@.take(k as int), fid) is None,
        decreases batch.len() - k,
    {
        let ghost pre = batch@.take(k as int);
        assert(batch@.take(k + 1).drop_last() == pre);
        assert(batch@.take(k + 1).last() == batch@[k as int]);
        let it = &batch[k];
        let id = match &it.item_id {
            None => {
                proof {
                    lemma_fault_sticks(stored@, batch@, fid, k + 1);
                }
                return Some(StoreError::NoItemId);
            },
            Some(x) => x,
        };
        match it.feed_id {
            Some(other) => {
                if other != fid {
                    proof {
                        lemma_fault_sticks(stored@, batch@, fid, k + 1);
                    }
                    return Some(StoreError::FeedIdMismatch);
                }
            },
            None => {},
        }
        let in_store = id_taken_upto(stored, stored.len(), id);
        let in_batch = id_taken_upto(batch, k, id);
        proof {
            assert(stored@.take(stored@.len() as int) == stored@);
            lemma_taken_concat(stored@, pre, id@);
        }
        if in_store || in_batch {
            proof {
                lemma_fault_sticks(stored@, batch@, fid, k + 1);
            }
            return Some(StoreError::DuplicateItemId);
        }
        k = k + 1;
    }
    assert(batch@.take(batch@.len() as int) == batch@);
    None
}

/// Whether a row belongs to the feed `target` names, or to any when it names
/// none.
pub open spec fn targeted(id: Option<i64>, target: Option<i64>) -> bool {
    match target {
        Some(t) => id == Some(t),
        None => true,
    }
}

/// `it` after marking the items of `target` seen.
pub open spec fn seen_row(it: Item, target: Option<i64>) -> Item {
    if targeted(it.feed_id, target) {
        Item { seen: true, ..it }
    } else {
        it
    }
}

/// `f` after resetting the unseen counter of `target`.
pub open spec fn cleared_row(f: Feed, target: Option<i64>) -> Feed {
    if targeted(f.feed_id, target) {
        Feed { updated_items: 0, ..f }
    } else {
        f
    }
}

/// Feeds ordered by most recent activity first.
pub open spec fn by_activity_desc(s: Seq<Feed>) -> bool {
    forall|i: int, j: int|
        0 <= i < j < s.len() ==> (#[trigger] s[i]).last_activity >= (#[trigger] s[j]).last_activity
}

/// Whether a remote identifier is shared by one of `rows`.
fn remote_id_known(rows: &Vec<Item>, id: &String) -> (r: bool)
    ensures
        r == feed_item_id_known(rows@, id@),
{
    let mut k: usize = 0;
    while k < rows.len()
        invariant
            k <= rows.len(),
            forall|m: int| 0 <= m < k ==> (#[trigger] rows@[m]).feed_item_id@ != id@,
        decreases rows.len() - k,
    {
        if rows[k].feed_item_id.eq(id) {
            return true;
        }
        k = k + 1;
    }
    false
}

/// Whether a row is an item of feed `fid` with remote identifier `key`.
pub open spec fn in_group(it: Item, fid: i64, key: Seq<char>) -> bool {
    it.feed_id == Some(fid) && it.feed_item_id@ == key
}

/// How many rows are items of feed `fid` with remote identifier `key`.
pub open spec fn group_count(s: Seq<Item>, fid: i64, key: Seq<char>) -> int
    decreases s.len(),
{
    if s.len() == 0 {
        0
    } else {
        group_count(s.drop_last(), fid, key) + if in_group(s.last(), fid, key) {
            1int
        } else {
            0int
        }
    }
}

/// Whether one of those rows is seen.
pub open spec fn group_any_seen(s: Seq<Item>, fid: i64, key: Seq<char>) -> bool {
    exists|m: int| 0 <= m < s.len() && in_group(#[trigger] s[m], fid, key) && s[m].seen
}

/// Whether all of those rows are seen.
pub open spec fn group_all_seen(s: Seq<Item>, fid: i64, key: Seq<char>) -> bool {
    forall|m: int| 0 <= m < s.len() && in_group(#[trigger] s[m], fid, key) ==> s[m].seen
}

/// Whether `g` is the entry that listing the items of feed `fid` gives for
/// the remote identifier of its row: that row is the latest retrieved row
/// with that identifier, with the number of rows and whether any and all of
/// them are seen.
pub open spec fn is_group_entry(s: Seq<Item>, fid: i64, g: (Item, ItemExt)) -> bool {
    let key = g.0.feed_item_id@;
    &&& s.contains(g.0)
    &&& g.0.feed_id == Some(fid)
    &&& forall|m: int| 0 <= m < s.len() && in_group(#[trigger] s[m], fid, key) ==> s[m].retrieved <= g.0.retrieved
    &&& g.1.count == group_count(s, fid, key)
    &&& g.1.any_seen == group_any_seen(s, fid, key)
    &&& g.1.all_seen == group_all_seen(s, fid, key)
}

/// Whether `s` lists entries by publication time, latest first.
pub open spec fn by_published_desc(s: Seq<(Item, ItemExt)>) -> bool {
    forall|i: int, j: int| 0 <= i < j < s.len() ==> (#[trigger] s[i]).0.published >= (#[trigger] s[j]).0.published
}

/// Whether `s` lists rows by retrieval time, latest first.
pub open spec fn by_retrieved_desc(s: Seq<Item>) -> bool {
    forall|i: int, j: int| 0 <= i < j < s.len() ==> (#[trigger] s[i]).retrieved >= (#[trigger] s[j]).retrieved
}

/// Whether `out` lists the elements of `src` once each: `map` gives, for
/// each position of `out`, a distinct position of `src` holding the same
/// element, and covers all of them.
pub open spec fn reorders<A>(out: Seq<A>, src: Seq<A>, map: Seq<int>) -> bool {
    &&& out.len() == src.len() == map.len()
    &&& forall|i: int| 0 <= i < out.len() ==> 0 <= #[trigger] map[i] < src.len() && out[i] == src[map[i]]
    &&& forall|i: int, j: int| 0 <= i < j < map.len() ==> #[trigger] map[i] != #[trigger] map[j]
    &&& forall|k: int| 0 <= k < src.len() ==> #[trigger] covered(map, k)
}

/// Whether position `k` is one `map` gives.
pub open spec fn covered(map: Seq<int>, k: int) -> bool {
    exists|i: int| 0 <= i < map.len() && map[i] == k
}

fn sort_groups(v: Vec<(Item, ItemExt)>) -> (r: (Vec<(Item, ItemExt)>, Ghost<Seq<int>>))
    ensures
        reorders(r.0@, v@, r.1@),
        by_published_desc(r.0@),
{
    let mut out: Vec<(Item, ItemExt)> = Vec::new();
    let ghost mut map: Seq<int> = Seq::empty();
    let mut j: usize = 0;
    while j < v.len()
        invariant
            j <= v@.len(),
            out@.len() == map.len() == j,
            forall|i: int| 0 <= i < out@.len() ==> 0 <= #[trigger] map[i] < j && out@[i] == v@[map[i]],
            forall|a: int, b: int| 0 <= a < b < map.len() ==> #[trigger] map[a] != #[trigger] map[b],
            forall|k: int| 0 <= k < j ==> #[trigger] covered(map, k),
            by_published_desc(out@),
        decreases v.len() - j,
    {
        let x = (v[j].0.duplicate(), v[j].1);
        let mut pos: usize = 0;
        while pos < out.len() && out[pos].0.published >= x.0.published
            invariant
                pos <= out@.len(),
                forall|m: int| 0 <= m < pos ==> (#[trigger] out@[m]).0.published >= x.0.published,
            decreases out.len() - pos,
        {
            pos = pos + 1;
        }
        let ghost prev = out@;
        let ghost prev_map = map;
        out.insert(pos, x);
        proof {
            map = prev_map.insert(pos as int, j as int);
            assert forall|a: int, b: int| 0 <= a < b < out@.len() implies (#[trigger] out@[a]).0.published >= (#[trigger] out@[b]).0.published by {
                if pos < prev.len() {
                    assert(prev[pos as int].0.published < x.0.published);
                }
                if a == pos && b > pos {
                    assert(prev[pos as int].0.published >= prev[b - 1].0.published || b - 1 == pos);
                }
            }
            assert forall|k: int| 0 <= k < j + 1 implies #[trigger] covered(map, k) by {
                if k == j {
                    assert(map[pos as int] == k);
                } else {
                    assert(covered(prev_map, k));
                    let i0 = choose|i: int| 0 <= i < prev_map.len() && prev_map[i] == k;
                    if i0 < pos {
                        assert(map[i0] == k);
                    } else {
                        assert(map[i0 + 1] == k);
                    }
                }
            }
            assert forall|a: int, b: int| 0 <= a < b < map.len() implies #[trigger] map[a] != #[trigger] map[b] by {
                if a == pos {
                    assert(map[b] == prev_map[b - 1]);
                } else if b == pos {
                    assert(map[a] == prev_map[a]);
                } else if a < pos && b < pos {
                    assert(map[a] == prev_map[a] && map[b] == prev_map[b]);
                } else if a < pos {
                    assert(map[a] == prev_map[a] && map[b] == prev_map[b - 1]);
                } else {
                    assert(map[a] == prev_map[a - 1] && map[b] == prev_map[b - 1]);
                }
            }
            assert forall|i: int| 0 <= i < out@.len() implies 0 <= #[trigger] map[i] < j + 1 && out@[i] == v@[map[i]] by {
                if i < pos {
                    assert(map[i] == prev_map[i]);
                } else if i > pos {
                    assert(map[i] == prev_map[i - 1]);
                }
            }
        }
        j = j + 1;
    }
    (out, Ghost(map))
}

fn sort_history(v: Vec<Item>) -> (r: (Vec<Item>, Ghost<Seq<int>>))
    ensures
        reorders(r.0@, v@, r.1@),
        by_retrieved_desc(r.0@),
{
    let mut out: Vec<Item> = Vec::new();
    let ghost mut map: Seq<int> = Seq::empty();
    let mut j: usize = 0;
    while j < v.len()
        invariant
            j <= v@.len(),
            out@.len() == map.len() == j,
            forall|i: int| 0 <= i < out@.len() ==> 0 <= #[trigger] map[i] < j && out@[i] == v@[map[i]],
            forall|a: int, b: int| 0 <= a < b < map.len() ==> #[trigger] map[a] != #[trigger] map[b],
            forall|k: int| 0 <= k < j ==> #[trigger] covered(map, k),
            by_retrieved_desc(out@),
        decreases v.len() - j,
    {
        let x = v[j].duplicate();
        let mut pos: usize = 0;
        while pos < out.len() && out[pos].retrieved >= x.retrieved
            invariant
                pos <= out@.len(),
                forall|m: int| 0 <= m < pos ==> (#[trigger] out@[m]).retrieved >= x.retrieved,
            decreases out.len() - pos,
        {
            pos = pos + 1;
        }
        let ghost prev = out@;
        let ghost prev_map = map;
        out.insert(pos, x);
        proof {
            map = prev_map.insert(pos as int, j as int);
            assert forall|a: int, b: int| 0 <= a < b < out@.len() implies (#[trigger] out@[a]).retrieved >= (#[trigger] out@[b]).retrieved by {
                if pos < prev.len() {
                    assert(prev[pos as int].retrieved < x.retrieved);
                }
                if a == pos && b > pos {
                    assert(prev[pos as int].retrieved >= prev[b - 1].retrieved || b - 1 == pos);
                }
            }
            assert forall|k: int| 0 <= k < j + 1 implies #[trigger] covered(map, k) by {
                if k == j {
                    assert(map[pos as int] == k);
                } else {
                    assert(covered(prev_map, k));
                    let i0 = choose|i: int| 0 <= i < prev_map.len() && prev_map[i] == k;
                    if i0 < pos {
                        assert(map[i0] == k);
                    } else {
                        assert(map[i0 + 1] == k);
                    }
                }
            }
            assert forall|a: int, b: int| 0 <= a < b < map.len() implies #[trigger] map[a] != #[trigger] map[b] by {
                if a == pos {
                    assert(map[b] == prev_map[b - 1]);
                } else if b == pos {
                    assert(map[a] == prev_map[a]);
                } else if a < pos && b < pos {
                    assert(map[a] == prev_map[a] && map[b] == prev_map[b]);
                } else if a < pos {
                    assert(map[a] == prev_map[a] && map[b] == prev_map[b - 1]);
                } else {
                    assert(map[a] == prev_map[a - 1] && map[b] == prev_map[b - 1]);
                }
            }
            assert forall|i: int| 0 <= i < out@.len() implies 0 <= #[trigger] map[i] < j + 1 && out@[i] == v@[map[i]] by {
                if i < pos {
                    assert(map[i] == prev_map[i]);
                } else if i > pos {
                    assert(map[i] == prev_map[i - 1]);
                }
            }
        }
        j = j + 1;
    }
    (out, Ghost(map))
}

/// Whether one of the entries is for remote identifier `key`.
pub open spec fn listed(gs: Seq<(Item, ItemExt)>, key: Seq<char>) -> bool {
    exists|i: int| 0 <= i < gs.len() && (#[trigger] gs[i]).0.feed_item_id@ == key
}

/// The remote identifier of the row whose content identifier is `id`.
pub open spec fn history_key(items: Seq<Item>, id: Seq<char>) -> Option<Seq<char>>
    decreases items.len(),
{
    if items.len() == 0 {
        None
    } else if items.last().item_id is Some && items.last().item_id->0@ == id {
        Some(items.last().feed_item_id@)
    } else {
        history_key(items.drop_last(), id)
    }
}

/// Whether a row belongs to the edit history of feed `fid` that `key`
/// names.
pub open spec fn in_history(it: Item, fid: i64, key: Option<Seq<char>>) -> bool {
    key is Some && it.feed_id == Some(fid) && it.feed_item_id@ == key->0
}

/// The rows of the edit history of feed `fid` named by content identifier
/// `id`, in stored order.
pub open spec fn history_rows(items: Seq<Item>, fid: i64, id: Seq<char>) -> Seq<Item> {
    items.filter(|it: Item| in_history(it, fid, history_key(items, id)))
}

fn find_history_key(items: &Vec<Item>, id: &String) -> (r: Option<String>)
    ensures
        match r {
            Some(k) => history_key(items@, id@) == Some(k@),
            None => history_key(items@, id@) is None,
        },
{
    let mut k: usize = items.len();
    assert(items@.take(k as int) == items@);
    while k > 0
        invariant
            k <= items@.len(),
            history_key(items@, id@) == history_key(items@.take(k as int), id@),
        decreases k,
    {
        assert(items@.take(k as int).drop_last() == items@.take(k - 1));
        assert(items@.take(k as int).last() == items@[k - 1]);
        match &items[k - 1].item_id {
            Some(x) => {
                if x.eq(id) {
                    return Some(items[k - 1].feed_item_id.clone());
                }
            },
            None => {},
        }
        k = k - 1;
    }
    None
}

fn history_of(items: &Vec<Item>, fid: i64, key: &Option<String>, id: Ghost<Seq<char>>) -> (r: Vec<Item>)
    requires
        match key {
            Some(k) => history_key(items@, id@) == Some(k@),
            None => history_key(items@, id@) is None,
        },
    ensures
        r@ == history_rows(items@, fid, id@),
{
    let ghost hk = history_key(items@, id@);
    let ghost pred = |it: Item| in_history(it, fid, hk);
    let mut rows: Vec<Item> = Vec::new();
    match key {
        None => {
            proof {
                lemma_filter_empty(items@, pred);
            }
            assert(rows@ =~= history_rows(items@, fid, id@));
        },
        Some(kk) => {
            let mut j: usize = 0;
            while j < items.len()
                invariant
                    j <= items@.len(),
                    hk == Some(kk@),
                    pred == (|it: Item| in_history(it, fid, hk)),
                    rows@ == items@.take(j as int).filter(pred),
                decreases items.len() - j,
            {
                assert(items@.take(j + 1) == items@.take(j as int).push(items@[j as int]));
                proof {
                    items@.take(j as int).lemma_filter_push(items@[j as int], pred);
                }
                if items[j].feed_id == Some(fid) && items[j].feed_item_id.eq(kk) {
                    rows.push(items[j].duplicate());
                }
                j = j + 1;
            }
            assert(items@.take(j as int) == items@);
        },
    }
    rows
}

proof fn lemma_group_count_bounds(s: Seq<Item>, fid: i64, key: Seq<char>)
    ensures
        0 <= group_count(s, fid, key) <= s.len(),
        (forall|m: int| 0 <= m < s.len() ==> !in_group(#[trigger] s[m], fid, key)) ==> group_count(s, fid, key) == 0,
    decreases s.len(),
{
    if s.len() > 0 {
        lemma_group_count_bounds(s.drop_last(), fid, key);
        if forall|m: int| 0 <= m < s.len() ==> !in_group(#[trigger] s[m], fid, key) {
            assert forall|m: int| 0 <= m < s.drop_last().len() implies !in_group(#[trigger] s.drop_last()[m], fid, key) by {
                assert(s.drop_last()[m] == s[m]);
            }
            assert(!in_group(s[s.len() - 1], fid, key));
        }
    }
}

fn find_group(groups: &Vec<(Item, ItemExt)>, key: &String) -> (r: Option<usize>)
    ensures
        match r {
            Some(i) => i < groups@.len() && groups@[i as int].0.feed_item_id@ == key@,
            None => !listed(groups@, key@),
        },
{
    let mut i: usize = 0;
    while i < groups.len()
        invariant
            i <= groups@.len(),
            forall|m: int| 0 <= m < i ==> (#[trigger] groups@[m]).0.feed_item_id@ != key@,
        decreases groups.len() - i,
    {
        if groups[i].0.feed_item_id.eq(key) {
            return Some(i);
        }
        i = i + 1;
    }
    None
}

/// Whether the entries are for distinct remote identifiers.
pub open spec fn distinct_keys(gs: Seq<(Item, ItemExt)>) -> bool {
    forall|a: int, b: int|
        0 <= a < b < gs.len() ==> (#[trigger] gs[a]).0.feed_item_id@ != (#[trigger] gs[b]).0.feed_item_id@
}

/// Whether every item of feed `fid` has an entry for its remote identifier.
pub open spec fn covers_feed(gs: Seq<(Item, ItemExt)>, s: Seq<Item>, fid: i64) -> bool {
    forall|m: int| 0 <= m < s.len() && (#[trigger] s[m]).feed_id == Some(fid) ==> listed(gs, s[m].feed_item_id@)
}

fn group_items(items: &Vec<Item>, fid: i64) -> (r: Vec<(Item, ItemExt)>)
    requires
        items@.len() <= i64::MAX,
    ensures
        forall|i: int| 0 <= i < r@.len() ==> is_group_entry(items@, fid, #[trigger] r@[i]),
        distinct_keys(r@),
        covers_feed(r@, items@, fid),
{
    let mut groups: Vec<(Item, ItemExt)> = Vec::new();
    let mut j: usize = 0;
    while j < items.len()
        invariant
            j <= items@.len() <= i64::MAX,
            forall|i: int| 0 <= i < groups@.len() ==> is_group_entry(items@.take(j as int), fid, #[trigger] groups@[i]),
            distinct_keys(groups@),
            covers_feed(groups@, items@.take(j as int), fid),
        decreases items.len() - j,
    {
        let ghost p = items@.take(j as int);
        let ghost q = items@.take(j + 1);
        let x = &items[j];
        assert(q.drop_last() == p);
        assert(q.last() == *x);
        assert(q == p.push(*x));
        assert forall|m: int| 0 <= m < p.len() implies #[trigger] q[m] == p[m] by {}
        if x.feed_id == Some(fid) {
            match find_group(&groups, &x.feed_item_id) {
                Some(gi) => {
                    let ghost before = groups@;
                    let old_entry = (groups[gi].0.duplicate(), groups[gi].1);
                    let key = Ghost(x.feed_item_id@);
                    proof {
                        lemma_group_count_bounds(p, fid, key@);
                        assert(is_group_entry(p, fid, before[gi as int]));
                    }
                    let rep = if x.retrieved > old_entry.0.retrieved {
                        x.duplicate()
                    } else {
                        old_entry.0
                    };
                    let ext = ItemExt {
                        count: old_entry.1.count + 1,
                        any_seen: old_entry.1.any_seen || x.seen,
                        all_seen: old_entry.1.all_seen && x.seen,
                    };
                    groups.set(gi, (rep, ext));
                    proof {
                        let g = groups@[gi as int];
                        assert(g.0.feed_item_id@ == key@);
                        if x.retrieved > before[gi as int].0.retrieved {
                            assert(q[j as int] == g.0);
                        } else {
                            let w = choose|w: int| 0 <= w < p.len() && p[w] == before[gi as int].0;
                            assert(q[w] == g.0);
                        }
                        assert(group_any_seen(q, fid, key@) == (group_any_seen(p, fid, key@) || x.seen)) by {
                            if group_any_seen(p, fid, key@) {
                                let w = choose|w: int| 0 <= w < p.len() && in_group(#[trigger] p[w], fid, key@) && p[w].seen;
                                assert(q[w] == p[w]);
                            }
                            if group_any_seen(q, fid, key@) {
                                let w = choose|w: int| 0 <= w < q.len() && in_group(#[trigger] q[w], fid, key@) && q[w].seen;
                                if w < p.len() {
                                    assert(q[w] == p[w]);
                                }
                            }
                        }
                        assert(group_all_seen(q, fid, key@) == (group_all_seen(p, fid, key@) && x.seen)) by {
                            if group_all_seen(p, fid, key@) && x.seen {
                                assert forall|m: int| 0 <= m < q.len() && in_group(#[trigger] q[m], fid, key@) implies q[m].seen by {
                                    if m < p.len() {
                                        assert(q[m] == p[m]);
                                    }
                                }
                            }
                            if group_all_seen(q, fid, key@) {
                                assert(in_group(q[j as int], fid, key@));
                                assert forall|m: int| 0 <= m < p.len() && in_group(#[trigger] p[m], fid, key@) implies p[m].seen by {
                                    assert(q[m] == p[m]);
                                }
                            }
                        }
                        assert(is_group_entry(q, fid, g));
                        assert forall|i: int| 0 <= i < groups@.len() implies is_group_entry(q, fid, #[trigger] groups@[i]) by {
                            if i != gi {
                                let h = groups@[i];
                                assert(h == before[i]);
                                assert(is_group_entry(p, fid, h));
                                assert(h.0.feed_item_id@ != key@);
                                let w = choose|w: int| 0 <= w < p.len() && p[w] == h.0;
                                assert(q[w] == h.0);
                                assert(!in_group(q[j as int], fid, h.0.feed_item_id@));
                                assert(group_any_seen(q, fid, h.0.feed_item_id@) == group_any_seen(p, fid, h.0.feed_item_id@)) by {
                                    if group_any_seen(q, fid, h.0.feed_item_id@) {
                                        let w2 = choose|w2: int| 0 <= w2 < q.len() && in_group(#[trigger] q[w2], fid, h.0.feed_item_id@) && q[w2].seen;
                                        assert(q[w2] == p[w2]);
                                    }
                                    if group_any_seen(p, fid, h.0.feed_item_id@) {
                                        let w2 = choose|w2: int| 0 <= w2 < p.len() && in_group(#[trigger] p[w2], fid, h.0.feed_item_id@) && p[w2].seen;
                                        assert(q[w2] == p[w2]);
                                    }
                                }
                                assert(group_all_seen(q, fid, h.0.feed_item_id@) == group_all_seen(p, fid, h.0.feed_item_id@)) by {
                                    if group_all_seen(p, fid, h.0.feed_item_id@) {
                                        assert forall|m: int| 0 <= m < q.len() && in_group(#[trigger] q[m], fid, h.0.feed_item_id@) implies q[m].seen by {
                                            assert(q[m] == p[m]);
                                        }
                                    }
                                    if group_all_seen(q, fid, h.0.feed_item_id@) {
                                        assert forall|m: int| 0 <= m < p.len() && in_group(#[trigger] p[m], fid, h.0.feed_item_id@) implies p[m].seen by {
                                            assert(q[m] == p[m]);
                                        }
                                    }
                                }
                            }
                        }
                        assert forall|a: int, b: int| 0 <= a < b < groups@.len() implies (#[trigger] groups@[a]).0.feed_item_id@ != (#[trigger] groups@[b]).0.feed_item_id@ by {
                            assert(before[a].0.feed_item_id@ != before[b].0.feed_item_id@);
                        }
                        assert forall|m: int| 0 <= m < q.len() && (#[trigger] q[m]).feed_id == Some(fid) implies listed(groups@, q[m].feed_item_id@) by {
                            if m < p.len() {
                                assert(q[m] == p[m]);
                                assert(listed(before, p[m].feed_item_id@));
                                let i = choose|i: int| 0 <= i < before.len() && (#[trigger] before[i]).0.feed_item_id@ == p[m].feed_item_id@;
                                assert(groups@[i].0.feed_item_id@ == p[m].feed_item_id@);
                            } else {
                                assert(groups@[gi as int].0.feed_item_id@ == q[m].feed_item_id@);
                            }
                        }
                    }
                },
                None => {
                    let ghost before = groups@;
                    let ghost key = x.feed_item_id@;
                    proof {
                        assert forall|m: int| 0 <= m < p.len() implies !in_group(#[trigger] p[m], fid, key) by {
                            if p[m].feed_id == Some(fid) {
                                assert(listed(before, p[m].feed_item_id@));
                            }
                        }
                        lemma_group_count_bounds(p, fid, key);
                    }
                    groups.push((x.duplicate(), ItemExt { count: 1, any_seen: x.seen, all_seen: x.seen }));
                    proof {
                        let g = groups@[before.len() as int];
                        assert(q[j as int] == g.0);
                        assert(group_any_seen(q, fid, key) == x.seen) by {
                            if group_any_seen(q, fid, key) {
                                let w = choose|w: int| 0 <= w < q.len() && in_group(#[trigger] q[w], fid, key) && q[w].seen;
                                if w < p.len() {
                                    assert(q[w] == p[w]);
                                }
                            }
                        }
                        assert(group_all_seen(q, fid, key) == x.seen) by {
                            if x.seen {
                                assert forall|m: int| 0 <= m < q.len() && in_group(#[trigger] q[m], fid, key) implies q[m].seen by {
                                    if m < p.len() {
                                        assert(q[m] == p[m]);
                                    }
                                }
                            }
                        }
                        assert(is_group_entry(q, fid, g));
                        assert forall|i: int| 0 <= i < groups@.len() implies is_group_entry(q, fid, #[trigger] groups@[i]) by {
                            if i < before.len() {
                                let h = groups@[i];
                                assert(h == before[i]);
                                assert(is_group_entry(p, fid, h));
                                assert(h.0.feed_item_id@ != key);
                                let w = choose|w: int| 0 <= w < p.len() && p[w] == h.0;
                                assert(q[w] == h.0);
                                assert(group_any_seen(q, fid, h.0.feed_item_id@) == group_any_seen(p, fid, h.0.feed_item_id@)) by {
                                    if group_any_seen(q, fid, h.0.feed_item_id@) {
                                        let w2 = choose|w2: int| 0 <= w2 < q.len() && in_group(#[trigger] q[w2], fid, h.0.feed_item_id@) && q[w2].seen;
                                        assert(q[w2] == p[w2]);
                                    }
                                    if group_any_seen(p, fid, h.0.feed_item_id@) {
                                        let w2 = choose|w2: int| 0 <= w2 < p.len() && in_group(#[trigger] p[w2], fid, h.0.feed_item_id@) && p[w2].seen;
                                        assert(q[w2] == p[w2]);
                                    }
                                }
                                assert(group_all_seen(q, fid, h.0.feed_item_id@) == group_all_seen(p, fid, h.0.feed_item_id@)) by {
                                    if group_all_seen(p, fid, h.0.feed_item_id@) {
                                        assert forall|m: int| 0 <= m < q.len() && in_group(#[trigger] q[m], fid, h.0.feed_item_id@) implies q[m].seen by {
                                            assert(q[m] == p[m]);
                                        }
                                    }
                                    if group_all_seen(q, fid, h.0.feed_item_id@) {
                                        assert forall|m: int| 0 <= m < p.len() && in_group(#[trigger] p[m], fid, h.0.feed_item_id@) implies p[m].seen by {
                                            assert(q[m] == p[m]);
                                        }
                                    }
                                }
                            }
                        }
                        assert forall|a: int, b: int| 0 <= a < b < groups@.len() implies (#[trigger] groups@[a]).0.feed_item_id@ != (#[trigger] groups@[b]).0.feed_item_id@ by {
                            if b == before.len() {
                                assert(!listed(before, key));
                                assert(before[a].0.feed_item_id@ != key);
                            } else {
                                assert(before[a].0.feed_item_id@ != before[b].0.feed_item_id@);
                            }
                        }
                        assert forall|m: int| 0 <= m < q.len() && (#[trigger] q[m]).feed_id == Some(fid) implies listed(groups@, q[m].feed_item_id@) by {
                            if m < p.len() {
                                assert(q[m] == p[m]);
                                assert(listed(before, p[m].feed_item_id@));
                                let i = choose|i: int| 0 <= i < before.len() && (#[trigger] before[i]).0.feed_item_id@ == p[m].feed_item_id@;
                                assert(groups@[i].0.feed_item_id@ == p[m].feed_item_id@);
                            } else {
                                assert(groups@[before.len() as int].0.feed_item_id@ == q[m].feed_item_id@);
                            }
                        }
                    }
                },
            }
        } else {
            proof {
                assert forall|i: int| 0 <= i < groups@.len() implies is_group_entry(q, fid, #[trigger] groups@[i]) by {
                    let h = groups@[i];
                    assert(is_group_entry(p, fid, h));
                    let w = choose|w: int| 0 <= w < p.len() && p[w] == h.0;
                    assert(q[w] == h.0);
                    assert(group_any_seen(q, fid, h.0.feed_item_id@) == group_any_seen(p, fid, h.0.feed_item_id@)) by {
                        if group_any_seen(q, fid, h.0.feed_item_id@) {
                            let w2 = choose|w2: int| 0 <= w2 < q.len() && in_group(#[trigger] q[w2], fid, h.0.feed_item_id@) && q[w2].seen;
                            assert(q[w2] == p[w2]);
                        }
                        if group_any_seen(p, fid, h.0.feed_item_id@) {
                            let w2 = choose|w2: int| 0 <= w2 < p.len() && in_group(#[trigger] p[w2], fid, h.0.feed_item_id@) && p[w2].seen;
                            assert(q[w2] == p[w2]);
                        }
                    }
                    assert(group_all_seen(q, fid, h.0.feed_item_id@) == group_all_seen(p, fid, h.0.feed_item_id@)) by {
                        if group_all_seen(p, fid, h.0.feed_item_id@) {
                            assert forall|m: int| 0 <= m < q.len() && in_group(#[trigger] q[m], fid, h.0.feed_item_id@) implies q[m].seen by {
                                assert(q[m] == p[m]);
                            }
                        }
                        if group_all_seen(q, fid, h.0.feed_item_id@) {
                            assert forall|m: int| 0 <= m < p.len() && in_group(#[trigger] p[m], fid, h.0.feed_item_id@) implies p[m].seen by {
                                assert(q[m] == p[m]);
                            }
                        }
                    }
                }
                assert forall|m: int| 0 <= m < q.len() && (#[trigger] q[m]).feed_id == Some(fid) implies listed(groups@, q[m].feed_item_id@) by {
                    assert(q[m] == p[m]);
                }
            }
        }
        j = j + 1;
    }
    assert(items@.take(j as int) == items@);
    groups
}

/// The identifier of the feed to update, or why updating it with `batch` is
/// refused whatever is stored: the feed has no identifier, or the first
/// faulty item of the batch has no content identifier, names another feed,
/// or repeats the content identifier of an earlier one.
pub fn check_update(feed: &Feed, batch: &[Item]) -> (r: Result<i64, StoreError>)
    ensures
        feed.feed_id is None ==> r == Err::<i64, StoreError>(StoreError::NoFeedId),
        feed.feed_id matches Some(fid) ==> r == match batch_fault(Seq::empty(), batch@, fid) {
            Some(e) => Err::<i64, StoreError>(e),
            None => Ok(fid),
        },
{
    match feed.feed_id {
        None => Err(StoreError::NoFeedId),
        Some(fid) => {
            let none: Vec<Item> = Vec::new();
            match check_batch(&none, batch, fid) {
                Some(e) => Err(e),
                None => Ok(fid),
            }
        },
    }
}

/// In-memory store of feeds and items.
pub struct Store {
    feeds: Vec<Feed>,
    items: Vec<Item>,
    revision: i64,
}

impl Store {
    /// The feeds, in the order they were added.
    pub closed spec fn feeds(&self) -> Seq<Feed> {
        self.feeds@
    }

    /// The items, in the order they were inserted.
    pub closed spec fn items(&self) -> Seq<Item> {
        self.items@
    }

    /// The global revision counter.
    pub closed spec fn revision(&self) -> i64 {
        self.revision
    }

    pub open spec fn wf(&self) -> bool {
        tables_wf(self.feeds(), self.items())
    }

    /// An empty store whose revision counter is seeded with 1.
    pub fn new() -> (s: Store)
        ensures
            s.wf(),
            s.feeds() == Seq::<Feed>::empty(),
            s.items() == Seq::<Item>::empty(),
            s.revision() == 1,
    {
        Store { feeds: Vec::new(), items: Vec::new(), revision: 1 }
    }

    /// Reads the global revision counter.
    pub fn get_feed_update_revision(&self) -> (r: i64)
        ensures
            r == self.revision(),
    {
        self.revision
    }

    /// Adds a feed with only its URL known. Its identifier is one above the
    /// largest in use; the call is refused when that would not fit.
    pub fn add_feed(&mut self, href: &str) -> (r: Result<i64, StoreError>)
        requires
            old(self).wf(),
        ensures
            final(self).wf(),
            max_feed_id(old(self).feeds()) == i64::MAX ==> r == Err::<i64, StoreError>(
                StoreError::FeedIdsExhausted,
            ) && *final(self) == *old(self),
            max_feed_id(old(self).feeds()) < i64::MAX ==> {
                &&& r is Ok && r->Ok_0 == max_feed_id(old(self).feeds()) + 1
                &&& final(self).feeds().len() == old(self).feeds().len() + 1
                &&& final(self).feeds().drop_last() == old(self).feeds()
                &&& is_new_feed_row(final(self).feeds().last(), r->Ok_0, href@)
                &&& final(self).items() == old(self).items()
                &&& final(self).revision() == old(self).revision()
            },
    {
        let mut max_id: i64 = 0;
        let mut i: usize = 0;
        while i < self.feeds.len()
            invariant
                i <= self.feeds.len(),
                max_id == max_feed_id(self.feeds@.take(i as int)),
                max_id >= 0,
                self.wf(),
                forall|k: int| 0 <= k < i ==> (#[trigger] self.feeds@[k]).feed_id->0 <= max_id,
            decreases self.feeds.len() - i,
        {
            assert(self.feeds@.take(i + 1).drop_last() == self.feeds@.take(i as int));
            match self.feeds[i].feed_id {
                Some(id) => {
                    if id > max_id {
                        max_id = id;
                    }
                },
                None => {},
            }
            i = i + 1;
        }
        assert(self.feeds@.take(i as int) == self.feeds@);
        if max_id == i64::MAX {
            return Err(StoreError::FeedIdsExhausted);
        }
        let id = max_id + 1;
        let row = Feed {
            feed_id: Some(id),
            href: href.to_owned(),
            title: PLACEHOLDER_TITLE.to_owned(),
            last_retrieval: 0,
            next_retrieval: 0,
            last_activity: 0,
            disabled: false,
            updated_items: 0,
        };
        self.feeds.push(row);
        Ok(id)
    }

    /// Deletes the feeds whose identifiers are in `ids`, and every item of
    /// theirs. An empty set leaves the store untouched.
    pub fn delete_feeds(&mut self, ids: &[i64])
        requires
            old(self).wf(),
        ensures
            final(self).wf(),
            final(self).feeds() == remaining_feeds(old(self).feeds(), ids@),
            final(self).items() == remaining_items(old(self).items(), ids@),
            final(self).revision() == old(self).revision(),
            ids@.len() == 0 ==> *final(self) == *old(self),
    {
        if ids.len() == 0 {
            proof {
                lemma_filter_none(self.feeds@, |f: Feed| !feed_in(f.feed_id, ids@));
                lemma_filter_none(self.items@, |it: Item| !feed_in(it.feed_id, ids@));
            }
            return;
        }
        let ghost keep_feed = |f: Feed| !feed_in(f.feed_id, ids@);
        let ghost keep_item = |it: Item| !feed_in(it.feed_id, ids@);
        let mut feeds: Vec<Feed> = Vec::new();
        let mut i: usize = 0;
        while i < self.feeds.len()
            invariant
                i <= self.feeds.len(),
                feeds@ == self.feeds@.take(i as int).filter(keep_feed),
                keep_feed == (|f: Feed| !feed_in(f.feed_id, ids@)),
            decreases self.feeds.len() - i,
        {
            assert(self.feeds@.take(i + 1) == self.feeds@.take(i as int).push(self.feeds@[i as int]));
            proof {
                self.feeds@.take(i as int).lemma_filter_push(self.feeds@[i as int], keep_feed);
            }
            if !contains_id(ids, self.feeds[i].feed_id) {
                feeds.push(self.feeds[i].duplicate());
            }
            i = i + 1;
        }
        let mut items: Vec<Item> = Vec::new();
        let mut j: usize = 0;
        while j < self.items.len()
            invariant
                j <= self.items.len(),
                items@ == self.items@.take(j as int).filter(keep_item),
                keep_item == (|it: Item| !feed_in(it.feed_id, ids@)),
            decreases self.items.len() - j,
        {
            assert(self.items@.take(j + 1) == self.items@.take(j as int).push(self.items@[j as int]));
            proof {
                self.items@.take(j as int).lemma_filter_push(self.items@[j as int], keep_item);
            }
            if !contains_id(ids, self.items[j].feed_id) {
                items.push(self.items[j].duplicate());
            }
            j = j + 1;
        }
        assert(self.feeds@.take(i as int) == self.feeds@);
        assert(self.items@.take(j as int) == self.items@);
        proof {
            lemma_filter_keeps_wf(self.feeds@, self.items@, keep_feed, keep_item);
        }
        self.feeds = feeds;
        self.items = items;
    }

    /// Updates the row of `feed`, inserts `batch` as its items, removes, when
    /// `gc` is given, the seen items of that feed published before it, and
    /// increments the revision counter when `bump` is set: all of it, or,
    /// when refused, nothing.
    pub fn update_feed(&mut self, feed: &Feed, batch: &[Item], gc: Option<i64>, bump: bool) -> (r:
        Result<(), StoreError>)
        requires
            old(self).wf(),
        ensures
            final(self).wf(),
            r == match update_fault(
                old(self).feeds(),
                old(self).items(),
                old(self).revision(),
                *feed,
                batch@,
                bump,
            ) {
                Some(e) => Err::<(), StoreError>(e),
                None => Ok(()),
            },
            r is Err ==> *final(self) == *old(self),
            r is Ok ==> {
                &&& exists|p: int|
                    0 <= p < old(self).feeds().len() && (#[trigger] old(self).feeds()[p]).feed_id
                        == feed.feed_id && final(self).feeds() == old(self).feeds().update(p, *feed)
                &&& final(self).items() == after_gc(
                    old(self).items() + rows_of(batch@, feed.feed_id->0),
                    feed.feed_id->0,
                    gc,
                )
                &&& final(self).revision() == old(self).revision() + if bump {
                    1int
                } else {
                    0int
                }
            },
    {
        let fid = match feed.feed_id {
            None => return Err(StoreError::NoFeedId),
            Some(x) => x,
        };
        let p = match find_feed(&self.feeds, fid) {
            None => return Err(StoreError::UnknownFeed),
            Some(p) => p,
        };
        match check_batch(&self.items, batch, fid) {
            Some(e) => return Err(e),
            None => {},
        }
        if bump && self.revision == i64::MAX {
            return Err(StoreError::RevisionOverflow);
        }
        let ghost old_items = self.items@;
        self.feeds.set(p, feed.duplicate());
        assert(tables_wf(self.feeds@, self.items@));
        proof {
            lemma_batch_rows_wf(self.feeds@, self.items@, batch@, fid);
        }
        let mut j: usize = 0;
        while j < batch.len()
            invariant
                j <= batch.len(),
                self.items@ == old_items + rows_of(batch@, fid).take(j as int),
                self.feeds@ == old(self).feeds@.update(p as int, *feed),
                self.revision == old(self).revision,
            decreases batch.len() - j,
        {
            let mut row = batch[j].duplicate();
            row.feed_id = Some(fid);
            assert(rows_of(batch@, fid).take(j + 1) == rows_of(batch@, fid).take(j as int).push(row));
            self.items.push(row);
            j = j + 1;
        }
        assert(rows_of(batch@, fid).take(batch@.len() as int) == rows_of(batch@, fid));
        match gc {
            Some(thres) => {
                let ghost keep = |it: Item| !collected(it, fid, thres);
                let mut kept: Vec<Item> = Vec::new();
                let mut i: usize = 0;
                while i < self.items.len()
                    invariant
                        i <= self.items.len(),
                        kept@ == self.items@.take(i as int).filter(keep),
                        keep == (|it: Item| !collected(it, fid, thres)),
                        self.items@ == old_items + rows_of(batch@, fid),
                        self.feeds@ == old(self).feeds@.update(p as int, *feed),
                        self.revision == old(self).revision,
                        tables_wf(self.feeds@, self.items@),
                    decreases self.items.len() - i,
                {
                    assert(self.items@.take(i + 1) == self.items@.take(i as int).push(
                        self.items@[i as int],
                    ));
                    proof {
                        self.items@.take(i as int).lemma_filter_push(self.items@[i as int], keep);
                    }
                    let it = &self.items[i];
                    if !(it.feed_id == Some(fid) && it.published < thres && it.seen) {
                        kept.push(it.duplicate());
                    }
                    i = i + 1;
                }
                assert(self.items@.take(i as int) == self.items@);
                proof {
                    lemma_filter_keeps_wf(self.feeds@, self.items@, |f: Feed| true, keep);
                    lemma_filter_none(self.feeds@, |f: Feed| true);
                }
                self.items = kept;
            },
            None => {},
        }
        if bump {
            self.revision = self.revision + 1;
        }
        Ok(())
    }

    /// Classifies an entry against every stored row.
    pub fn check_item_exists(&self, item: &Item) -> (r: Result<ItemStatus, StoreError>)
        ensures
            item.item_id is None ==> r == Err::<ItemStatus, StoreError>(StoreError::NoItemId),
            item.item_id is Some ==> r == Ok::<ItemStatus, StoreError>(classify(self.items(), *item)),
    {
        match &item.item_id {
            None => Err(StoreError::NoItemId),
            Some(id) => {
                let remote = remote_id_known(&self.items, &item.feed_item_id);
                let content = id_taken_upto(&self.items, self.items.len(), id);
                assert(self.items@.take(self.items@.len() as int) == self.items@);
                Ok(crate::model::classify_counts(remote as i64, content as i64))
            },
        }
    }

    /// The feeds that are not disabled and whose next retrieval is before
    /// `now`.
    pub fn get_feeds_due(&self, now: i64) -> (r: Vec<Feed>)
        ensures
            r@ == self.feeds().filter(|f: Feed| is_due(f, now)),
    {
        let ghost due = |f: Feed| is_due(f, now);
        let mut r: Vec<Feed> = Vec::new();
        let mut i: usize = 0;
        while i < self.feeds.len()
            invariant
                i <= self.feeds.len(),
                r@ == self.feeds@.take(i as int).filter(due),
                due == (|f: Feed| is_due(f, now)),
            decreases self.feeds.len() - i,
        {
            assert(self.feeds@.take(i + 1) == self.feeds@.take(i as int).push(self.feeds@[i as int]));
            proof {
                self.feeds@.take(i as int).lemma_filter_push(self.feeds@[i as int], due);
            }
            if self.feeds[i].next_retrieval < now && !self.feeds[i].disabled {
                r.push(self.feeds[i].duplicate());
            }
            i = i + 1;
        }
        assert(self.feeds@.take(i as int) == self.feeds@);
        r
    }

    /// The earliest next retrieval among feeds that are not disabled, or
    /// `None` when every feed is disabled.
    pub fn get_next_due_time(&self) -> (r: Option<i64>)
        ensures
            r is None <==> forall|i: int| 0 <= i < self.feeds().len() ==> (#[trigger] self.feeds()[i]).disabled,
            r matches Some(t) ==> {
                &&& exists|i: int|
                    0 <= i < self.feeds().len() && !(#[trigger] self.feeds()[i]).disabled
                        && self.feeds()[i].next_retrieval == t
                &&& forall|i: int|
                    0 <= i < self.feeds().len() && !(#[trigger] self.feeds()[i]).disabled
                        ==> self.feeds()[i].next_retrieval >= t
            },
    {
        let mut best: Option<i64> = None;
        let mut i: usize = 0;
        while i < self.feeds.len()
            invariant
                i <= self.feeds.len(),
                best is None <==> forall|k: int| 0 <= k < i ==> (#[trigger] self.feeds@[k]).disabled,
                best matches Some(t) ==> {
                    &&& exists|k: int|
                        0 <= k < i && !(#[trigger] self.feeds@[k]).disabled
                            && self.feeds@[k].next_retrieval == t
                    &&& forall|k: int|
                        0 <= k < i && !(#[trigger] self.feeds@[k]).disabled
                            ==> self.feeds@[k].next_retrieval >= t
                },
            decreases self.feeds.len() - i,
        {
            let f = &self.feeds[i];
            if !f.disabled {
                match best {
                    None => {
                        best = Some(f.next_retrieval);
                    },
                    Some(t) => {
                        if f.next_retrieval < t {
                            best = Some(f.next_retrieval);
                        }
                    },
                }
            }
            i = i + 1;
        }
        best
    }

    /// Marks items seen and resets the unseen counters, of one feed or of
    /// all.
    pub fn set_seen(&mut self, feed_id: Option<i64>)
        requires
            old(self).wf(),
        ensures
            final(self).wf(),
            final(self).feeds() == old(self).feeds().map_values(|f: Feed| cleared_row(f, feed_id)),
            final(self).items() == old(self).items().map_values(|it: Item| seen_row(it, feed_id)),
            final(self).revision() == old(self).revision(),
    {
        self.clear_updated(feed_id);
        self.mark_seen(feed_id);
    }

    /// Marks the items of the feed `target` names, or of all, seen.
    fn mark_seen(&mut self, feed_id: Option<i64>)
        requires
            old(self).wf(),
        ensures
            final(self).wf(),
            final(self).feeds() == old(self).feeds(),
            final(self).items() == old(self).items().map_values(|it: Item| seen_row(it, feed_id)),
            final(self).revision() == old(self).revision(),
    {
        let ghost before = self.items@;
        let ghost fs = self.feeds@;
        let ghost rev = self.revision;
        let mut i: usize = 0;
        while i < self.items.len()
            invariant
                i <= self.items.len() == before.len(),
                self.feeds@ == fs,
                self.revision == rev,
                tables_wf(fs, before),
                forall|k: int| 0 <= k < i ==> self.items@[k] == seen_row(before[k], feed_id),
                forall|k: int| i <= k < before.len() ==> self.items@[k] == before[k],
            decreases self.items.len() - i,
        {
            let hit = match feed_id {
                Some(t) => self.items[i].feed_id == Some(t),
                None => true,
            };
            if hit {
                let mut row = self.items[i].duplicate();
                row.seen = true;
                self.items.set(i, row);
            }
            i = i + 1;
        }
        assert(self.items@ == before.map_values(|it: Item| seen_row(it, feed_id)));
        assert forall|a: int, b: int| 0 <= a < b < self.items@.len() implies (#[trigger] self.items@[a]).item_id != (#[trigger] self.items@[b]).item_id by {
            assert(before[a].item_id != before[b].item_id);
        }
    }

    /// Resets the unseen counter of the feed `target` names, or of all.
    fn clear_updated(&mut self, target: Option<i64>)
        requires
            old(self).wf(),
        ensures
            final(self).feeds() == old(self).feeds().map_values(|f: Feed| cleared_row(f, target)),
            final(self).items() == old(self).items(),
            final(self).revision() == old(self).revision(),
            final(self).wf(),
    {
        let ghost before = self.feeds@;
        let mut i: usize = 0;
        while i < self.feeds.len()
            invariant
                i <= self.feeds.len() == before.len(),
                forall|k: int| 0 <= k < i ==> self.feeds@[k] == cleared_row(before[k], target),
                forall|k: int| i <= k < before.len() ==> self.feeds@[k] == before[k],
                self.items == old(self).items,
                self.revision == old(self).revision,
            decreases self.feeds.len() - i,
        {
            let hit = match target {
                Some(t) => self.feeds[i].feed_id == Some(t),
                None => true,
            };
            if hit {
                let mut row = self.feeds[i].duplicate();
                row.updated_items = 0;
                self.feeds.set(i, row);
            }
            i = i + 1;
        }
        assert(self.feeds@ == before.map_values(|f: Feed| cleared_row(f, target)));
    }

    /// All feeds, most recent activity first, with the revision counter.
    /// When `active_feed_id` names a feed, its unseen counter is reset first.
    pub fn get_feeds(&mut self, active_feed_id: Option<i64>) -> (r: (Vec<Feed>, FeedsExt))
        requires
            old(self).wf(),
        ensures
            final(self).wf(),
            active_feed_id is None ==> *final(self) == *old(self),
            active_feed_id is Some ==> final(self).feeds() == old(self).feeds().map_values(
                |f: Feed| cleared_row(f, active_feed_id),
            ),
            final(self).items() == old(self).items(),
            final(self).revision() == old(self).revision(),
            r.0@.to_multiset() == final(self).feeds().to_multiset(),
            by_activity_desc(r.0@),
            r.1.feed_update_revision == final(self).revision(),
    {
        if active_feed_id.is_some() {
            self.clear_updated(active_feed_id);
        }
        let mut sorted: Vec<Feed> = Vec::new();
        let mut i: usize = 0;
        while i < self.feeds.len()
            invariant
                i <= self.feeds.len(),
                sorted@.to_multiset() == self.feeds@.take(i as int).to_multiset(),
                by_activity_desc(sorted@),
            decreases self.feeds.len() - i,
        {
            let f = self.feeds[i].duplicate();
            let mut pos: usize = 0;
            while pos < sorted.len() && sorted[pos].last_activity >= f.last_activity
                invariant
                    pos <= sorted.len(),
                    forall|m: int| 0 <= m < pos ==> (#[trigger] sorted@[m]).last_activity >= f.last_activity,
                decreases sorted.len() - pos,
            {
                pos = pos + 1;
            }
            let ghost prev = sorted@;
            sorted.insert(pos, f);
            proof {
                vstd::seq_lib::to_multiset_insert(prev, pos as int, f);
                vstd::seq_lib::to_multiset_build(self.feeds@.take(i as int), f);
                assert(self.feeds@.take(i + 1) == self.feeds@.take(i as int).push(f));
                assert forall|a: int, b: int| 0 <= a < b < sorted@.len() implies (#[trigger] sorted@[a]).last_activity >= (#[trigger] sorted@[b]).last_activity by {
                    if pos < prev.len() {
                        assert(prev[pos as int].last_activity < f.last_activity);
                    }
                    if a < pos && b == pos {
                    } else if a == pos && b > pos {
                        assert(prev[pos as int].last_activity >= prev[b - 1].last_activity || b - 1 == pos);
                    } else if a < pos && b > pos {
                    } else {
                    }
                }
            }
            i = i + 1;
        }
        assert(self.feeds@.take(i as int) == self.feeds@);
        (sorted, FeedsExt { feed_update_revision: self.revision })
    }

    /// Removes the items whose feed is not stored. Running it again changes
    /// nothing.
    pub fn init(&mut self)
        requires
            old(self).wf(),
        ensures
            final(self).wf(),
            final(self).feeds() == old(self).feeds(),
            final(self).items() == old(self).items().filter(
                |it: Item| feed_known(old(self).feeds(), it.feed_id->0),
            ),
            final(self).revision() == old(self).revision(),
    {
        let ghost keep = |it: Item| feed_known(self.feeds@, it.feed_id->0);
        let mut kept: Vec<Item> = Vec::new();
        let mut j: usize = 0;
        while j < self.items.len()
            invariant
                j <= self.items.len(),
                kept@ == self.items@.take(j as int).filter(keep),
                keep == (|it: Item| feed_known(self.feeds@, it.feed_id->0)),
                self.wf(),
            decreases self.items.len() - j,
        {
            assert(self.items@.take(j + 1) == self.items@.take(j as int).push(self.items@[j as int]));
            proof {
                self.items@.take(j as int).lemma_filter_push(self.items@[j as int], keep);
            }
            let fid = match self.items[j].feed_id {
                Some(x) => x,
                None => 0,
            };
            if find_feed(&self.feeds, fid).is_some() {
                kept.push(self.items[j].duplicate());
            }
            j = j + 1;
        }
        assert(self.items@.take(j as int) == self.items@);
        proof {
            lemma_filter_keeps_wf(self.feeds@, self.items@, |f: Feed| true, keep);
            lemma_filter_none(self.feeds@, |f: Feed| true);
        }
        self.items = kept;
    }

    /// The full edit history of the remote entry that the row with content
    /// identifier `item_id` belongs to, among the items of feed `feed_id`,
    /// latest retrieval first; then marks all items of the feed seen.
    pub fn get_feed_items_by_item_id(&mut self, feed_id: i64, item_id: &str) -> (r: Vec<Item>)
        requires
            old(self).wf(),
        ensures
            final(self).wf(),
            exists|map: Seq<int>|
                #[trigger] reorders(r@, history_rows(old(self).items(), feed_id, item_id@), map),
            by_retrieved_desc(r@),
            final(self).feeds() == old(self).feeds(),
            final(self).items() == old(self).items().map_values(|it: Item| seen_row(it, Some(feed_id))),
            final(self).revision() == old(self).revision(),
    {
        let ghost before = self.items@;
        let id = item_id.to_owned();
        let key = find_history_key(&self.items, &id);
        let rows = history_of(&self.items, feed_id, &key, Ghost(item_id@));
        let (sorted, Ghost(map)) = sort_history(rows);
        self.mark_seen(Some(feed_id));
        assert(reorders(sorted@, history_rows(before, feed_id, item_id@), map));
        sorted
    }

    /// One entry per remote entry of feed `feed_id`: its latest retrieved
    /// row with the number of its revisions and whether any and all of them
    /// are seen, latest publication first; then marks the feed's items seen.
    pub fn get_feed_items(&mut self, feed_id: i64) -> (r: Vec<(Item, ItemExt)>)
        requires
            old(self).wf(),
            old(self).items().len() <= i64::MAX,
        ensures
            final(self).wf(),
            forall|i: int| 0 <= i < r@.len() ==> is_group_entry(old(self).items(), feed_id, #[trigger] r@[i]),
            distinct_keys(r@),
            covers_feed(r@, old(self).items(), feed_id),
            by_published_desc(r@),
            final(self).feeds() == old(self).feeds(),
            final(self).items() == old(self).items().map_values(|it: Item| seen_row(it, Some(feed_id))),
            final(self).revision() == old(self).revision(),
    {
        let ghost before = self.items@;
        let groups = group_items(&self.items, feed_id);
        let ghost gs = groups@;
        let (sorted, Ghost(map)) = sort_groups(groups);
        proof {
            assert forall|i: int| 0 <= i < sorted@.len() implies is_group_entry(before, feed_id, #[trigger] sorted@[i]) by {
                assert(sorted@[i] == gs[map[i]]);
            }
            assert forall|a: int, b: int| 0 <= a < b < sorted@.len() implies (#[trigger] sorted@[a]).0.feed_item_id@ != (#[trigger] sorted@[b]).0.feed_item_id@ by {
                assert(sorted@[a] == gs[map[a]] && sorted@[b] == gs[map[b]]);
                assert(map[a] != map[b]);
                if map[a] < map[b] {
                    assert(gs[map[a]].0.feed_item_id@ != gs[map[b]].0.feed_item_id@);
                } else {
                    assert(gs[map[b]].0.feed_item_id@ != gs[map[a]].0.feed_item_id@);
                }
            }
            assert forall|m: int| 0 <= m < before.len() && (#[trigger] before[m]).feed_id == Some(feed_id) implies listed(sorted@, before[m].feed_item_id@) by {
                assert(listed(gs, before[m].feed_item_id@));
                let g = choose|g: int| 0 <= g < gs.len() && (#[trigger] gs[g]).0.feed_item_id@ == before[m].feed_item_id@;
                assert(covered(map, g));
                let i = choose|i: int| 0 <= i < map.len() && map[i] == g;
                assert(sorted@[i] == gs[g]);
            }
        }
        self.mark_seen(Some(feed_id));
        sorted
    }
}

} // verus!
