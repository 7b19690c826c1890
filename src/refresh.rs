//! One feed's refresh: what a fetch outcome does to the feed row, which
//! entries are stored, when the revision counter is bumped, and the garbage
//! collection threshold.

use vstd::prelude::*;
use crate::entry::{
    ParsedDocument, ParsedEntry, entry_content_id, entry_status, entry_time, entry_to_item,
    is_item_of, oldest_time,
};
use crate::identity::content_id;
use crate::model::{Feed, Item, ItemStatus, StoreError};
use crate::store::{
    Store, after_gc, batch_fault, feed_known, item_id_taken, lemma_taken_concat, rows_of,
};
use crate::text::is_blank;

verus! {

/// How a fetch of a feed ended.
pub enum FetchOutcome {
    /// The document was retrieved and parsed.
    Fetched(ParsedDocument),
    /// The feed moved permanently, to the location given if any.
    MovedPermanently(Option<String>),
    /// The feed is gone for good.
    Gone,
}

/// Settings of a refresh.
#[derive(Clone, Copy, Debug)]
pub struct RefreshPolicy {
    /// How far before the oldest entry of a fetch seen items are collected,
    /// in seconds.
    pub gc_age_offset_secs: i64,
    /// Whether edited entries count toward the revision bump as new ones do.
    pub highlight_updated_items: bool,
}

#[verifier::external_type_specification]
#[verifier::external_body]
pub struct ExRegex(regex::Regex);

/// Whether the regular expression written `pattern` is accepted.
pub uninterp spec fn regex_valid(pattern: Seq<char>) -> bool;

/// Whether the regular expression written `pattern` matches somewhere in
/// `haystack`.
pub uninterp spec fn regex_matches(pattern: Seq<char>, haystack: Seq<char>) -> bool;

/// Relies on regex's `Regex::new`: whether it accepts the pattern depends on
/// the pattern alone.
#[verifier::external_body]
fn compile_regex(source: &str) -> (r: Option<regex::Regex>)
    ensures
        r is Some == regex_valid(source@),
{
    regex::Regex::new(source).ok()
}

/// A regular expression with the text it was compiled from.
#[derive(Debug)]
pub struct Pattern {
    source: String,
    re: regex::Regex,
}

impl View for Pattern {
    type V = Seq<char>;

    closed spec fn view(&self) -> Seq<char> {
        self.source@
    }
}

/// Relies on regex's `Regex::is_match` on the expression compiled from the
/// pattern's text: whether it matches somewhere in `haystack`, which depends
/// on the text and the haystack alone.
#[verifier::external_body]
fn pattern_is_match(p: &Pattern, haystack: &str) -> (r: bool)
    ensures
        r == regex_matches(p@, haystack@),
{
    p.re.is_match(haystack)
}

impl Pattern {
    /// Compiles a pattern; `None` when the text is not a valid expression.
    pub fn new(source: &str) -> (r: Option<Pattern>)
        ensures
            r is Some == regex_valid(source@),
            r matches Some(p) ==> p@ == source@,
    {
        match compile_regex(source) {
            Some(re) => Some(Pattern { source: source.to_owned(), re }),
            None => None,
        }
    }

    /// The text the pattern was compiled from.
    pub fn source(&self) -> (r: &str)
        ensures
            r@ == self@,
    {
        self.source.as_str()
    }

    /// Whether the pattern matches somewhere in `haystack`.
    pub fn is_match(&self, haystack: &str) -> (r: bool)
        ensures
            r == regex_matches(self@, haystack@),
    {
        pattern_is_match(self, haystack)
    }
}

/// Whether one of the patterns matches somewhere in `text`.
pub open spec fn any_matches(patterns: Seq<Pattern>, text: Seq<char>) -> bool {
    exists|i: int| 0 <= i < patterns.len() && regex_matches(#[trigger] patterns[i]@, text)
}

/// Entries whose title, summary or link matches one of these patterns do
/// not count toward the revision bump, and are stored as seen when
/// `set_seen` is set.
#[derive(Debug)]
pub struct ConfigNoHighlighting {
    pub title: Vec<Pattern>,
    pub summary: Vec<Pattern>,
    pub url: Vec<Pattern>,
    pub set_seen: bool,
}

/// Whether the patterns suppress an item: a title pattern matches its
/// title, a summary pattern its summary, or a URL pattern its link.
pub open spec fn suppressed_by(f: &ConfigNoHighlighting, it: Item) -> bool {
    any_matches(f.title@, it.title@) || any_matches(f.summary@, it.summary@) || any_matches(
        f.url@,
        it.link@,
    )
}

fn any_match(patterns: &Vec<Pattern>, text: &str) -> (r: bool)
    ensures
        r == any_matches(patterns@, text@),
{
    let mut k: usize = 0;
    while k < patterns.len()
        invariant
            k <= patterns.len(),
            forall|m: int| 0 <= m < k ==> !regex_matches(#[trigger] patterns@[m]@, text@),
        decreases patterns.len() - k,
    {
        if patterns[k].is_match(text) {
            return true;
        }
        k = k + 1;
    }
    false
}

impl ConfigNoHighlighting {
    /// No patterns, nothing marked seen.
    pub fn new() -> (r: ConfigNoHighlighting)
        ensures
            r.title@.len() == 0 && r.summary@.len() == 0 && r.url@.len() == 0 && !r.set_seen,
    {
        ConfigNoHighlighting { title: Vec::new(), summary: Vec::new(), url: Vec::new(), set_seen: false }
    }

    /// Whether the patterns suppress an item.
    pub fn suppresses(&self, it: &Item) -> (r: bool)
        ensures
            r == suppressed_by(self, *it),
    {
        any_match(&self.title, it.title.as_str()) || any_match(&self.summary, it.summary.as_str())
            || any_match(&self.url, it.link.as_str())
    }
}

/// Whether an accepted entry counts toward the revision bump: it is not
/// suppressed, and it is new, or edited when edits are highlighted too.
pub open spec fn qualifies(status: ItemStatus, suppressed: bool, highlight_updated: bool) -> bool {
    !suppressed && (status == ItemStatus::New || (highlight_updated && status
        == ItemStatus::Updated))
}

/// How many of the accepted entries count toward the revision bump.
pub open spec fn count_qualifying(
    statuses: Seq<ItemStatus>,
    suppressed: Seq<bool>,
    highlight_updated: bool,
) -> int
    decreases statuses.len(),
{
    if statuses.len() == 0 {
        0
    } else {
        count_qualifying(statuses.drop_last(), suppressed, highlight_updated) + if qualifies(
            statuses.last(),
            suppressed[statuses.len() - 1],
            highlight_updated,
        ) {
            1int
        } else {
            0int
        }
    }
}

/// Whether at least one accepted entry counts toward the revision bump.
pub open spec fn any_qualifies(
    statuses: Seq<ItemStatus>,
    suppressed: Seq<bool>,
    highlight_updated: bool,
) -> bool {
    exists|k: int|
        0 <= k < statuses.len() && #[trigger] qualifies(
            statuses[k],
            suppressed[k],
            highlight_updated,
        )
}

proof fn lemma_count_positive(statuses: Seq<ItemStatus>, suppressed: Seq<bool>, hu: bool)
    ensures
        0 <= count_qualifying(statuses, suppressed, hu) <= statuses.len(),
        (count_qualifying(statuses, suppressed, hu) > 0) == any_qualifies(statuses, suppressed, hu),
    decreases statuses.len(),
{
    if statuses.len() > 0 {
        let d = statuses.drop_last();
        lemma_count_positive(d, suppressed, hu);
        if any_qualifies(d, suppressed, hu) {
            let k = choose|k: int| 0 <= k < d.len() && #[trigger] qualifies(d[k], suppressed[k], hu);
            assert(qualifies(statuses[k], suppressed[k], hu));
        }
        if any_qualifies(statuses, suppressed, hu) {
            let k = choose|k: int|
                0 <= k < statuses.len() && #[trigger] qualifies(statuses[k], suppressed[k], hu);
            if k < d.len() {
                assert(qualifies(d[k], suppressed[k], hu));
            }
        }
    }
}

/// Counts the accepted entries that count toward the revision bump.
pub fn qualifying_count(statuses: &Vec<ItemStatus>, suppressed: &Vec<bool>, highlight_updated: bool) -> (r: u64)
    requires
        statuses@.len() == suppressed@.len(),
    ensures
        r == count_qualifying(statuses@, suppressed@, highlight_updated),
        (r > 0) == any_qualifies(statuses@, suppressed@, highlight_updated),
{
    let mut n: u64 = 0;
    let mut k: usize = 0;
    while k < statuses.len()
        invariant
            k <= statuses@.len() == suppressed@.len(),
            n == count_qualifying(statuses@.take(k as int), suppressed@, highlight_updated),
            n <= k,
        decreases statuses.len() - k,
    {
        assert(statuses@.take(k + 1).drop_last() == statuses@.take(k as int));
        proof {
            lemma_count_positive(statuses@.take(k as int), suppressed@, highlight_updated);
        }
        let s = statuses[k];
        if !suppressed[k] && (s == ItemStatus::New || (highlight_updated && s == ItemStatus::Updated)) {
            n = n + 1;
        }
        k = k + 1;
    }
    assert(statuses@.take(k as int) == statuses@);
    proof {
        lemma_count_positive(statuses@, suppressed@, highlight_updated);
    }
    n
}

/// The location a permanent redirect names, unless it is blank.
pub fn moved_location(location: Option<String>) -> (r: Option<String>)
    ensures
        match location {
            Some(l) => if crate::text::trimmed(l@).len() == 0 {
                r is None
            } else {
                r == Some(l)
            },
            None => r is None,
        },
{
    match location {
        Some(l) => if is_blank(l.as_str()) {
            None
        } else {
            Some(l)
        },
        None => None,
    }
}

/// The row of a feed that moved permanently: its URL rewritten to the new
/// location, or, with none, the feed disabled.
pub fn plan_moved(feed: &Feed, location: Option<String>) -> (r: Feed)
    ensures
        match location {
            Some(l) => r == (Feed { href: l, ..*feed }),
            None => r == (Feed { disabled: true, ..*feed }),
        },
{
    let mut row = feed.duplicate();
    match location {
        Some(l) => {
            row.href = l;
        },
        None => {
            row.disabled = true;
        },
    }
    row
}

/// The row of a feed that is gone: disabled.
pub fn plan_gone(feed: &Feed) -> (r: Feed)
    ensures
        r == (Feed { disabled: true, ..*feed }),
{
    let mut row = feed.duplicate();
    row.disabled = true;
    row
}

/// `a + b` kept within the range of `i64`.
pub open spec fn sat_add(a: int, b: int) -> int {
    if a + b > i64::MAX {
        i64::MAX as int
    } else if a + b < i64::MIN {
        i64::MIN as int
    } else {
        a + b
    }
}

/// Whether `new` is the row of `old` after a successful fetch at `now` that
/// accepted `n_items` entries of which `count` count toward the bump.
pub open spec fn fetched_row(
    new: Feed,
    old: Feed,
    doc_title: Option<String>,
    n_items: int,
    count: int,
    now: i64,
    next: i64,
) -> bool {
    &&& new.feed_id == old.feed_id
    &&& new.href == old.href
    &&& new.disabled == old.disabled
    &&& new.title == match doc_title {
        Some(t) => t,
        None => old.title,
    }
    &&& new.last_retrieval == now
    &&& new.next_retrieval == next
    &&& new.last_activity == if n_items > 0 {
        now
    } else {
        old.last_activity
    }
    &&& new.updated_items == if n_items > 0 {
        sat_add(old.updated_items as int, count)
    } else {
        old.updated_items as int
    }
}

/// The row of a feed after a successful fetch.
pub fn plan_fetched(
    feed: &Feed,
    doc_title: &Option<String>,
    n_items: usize,
    count: u64,
    now: i64,
    next: i64,
) -> (r: Feed)
    ensures
        fetched_row(r, *feed, *doc_title, n_items as int, count as int, now, next),
{
    let mut row = feed.duplicate();
    match doc_title {
        Some(t) => {
            row.title = t.clone();
        },
        None => {},
    }
    row.last_retrieval = now;
    row.next_retrieval = next;
    if n_items > 0 {
        row.last_activity = now;
        let sum: i128 = feed.updated_items as i128 + count as i128;
        row.updated_items = if sum > i64::MAX as i128 {
            i64::MAX
        } else {
            sum as i64
        };
    }
    row
}

/// Seen items of the feed published before this are collected: the
/// oldest publication time of the fetch less the offset, within `i64`.
pub open spec fn gc_threshold_of(oldest: i64, offset: i64) -> int {
    sat_add(oldest as int, -(offset as int))
}

/// Computes the collection threshold of a fetch.
pub fn gc_threshold(oldest: i64, offset: i64) -> (r: i64)
    ensures
        r == gc_threshold_of(oldest, offset),
{
    let t: i128 = oldest as i128 - offset as i128;
    if t > i64::MAX as i128 {
        i64::MAX
    } else if t < i64::MIN as i128 {
        i64::MIN
    } else {
        t as i64
    }
}

/// The update a refresh writes: the feed row, the items to insert, the
/// collection threshold, and whether the revision counter is bumped; with
/// the classification of each item and whether the patterns suppressed it.
pub struct RefreshPlan {
    pub feed: Feed,
    pub items: Vec<Item>,
    pub statuses: Vec<ItemStatus>,
    pub suppressed: Vec<bool>,
    pub gc: Option<i64>,
    pub bump: bool,
}

/// The positions, among the first `n` entries, of those that are dated and
/// not already stored, in order.
pub open spec fn picked(entries: Seq<ParsedEntry>, classes: Seq<ItemStatus>, now: i64, n: int) -> Seq<
    int,
>
    decreases n,
{
    if n <= 0 {
        Seq::empty()
    } else {
        let p = picked(entries, classes, now, n - 1);
        if entry_time(entries[n - 1], now) is Some && classes[n - 1] != ItemStatus::Exists {
            p.push(n - 1)
        } else {
            p
        }
    }
}

/// The positions of the entries a refresh stores.
pub open spec fn picked_all(entries: Seq<ParsedEntry>, classes: Seq<ItemStatus>, now: i64) -> Seq<int> {
    picked(entries, classes, now, entries.len() as int)
}

/// Whether `plan` is what a fetch of `doc` at `now` gives for `feed`, with
/// `classes` the classification of each entry: one item per picked entry,
/// in order, with its classification, suppressed exactly when a pattern
/// matches it and then stored seen when the patterns ask for it; the row
/// of a successful fetch; the collection threshold; and a bump exactly when
/// a stored entry qualifies.
pub open spec fn plan_ok(
    plan: RefreshPlan,
    feed: Feed,
    doc: ParsedDocument,
    now: i64,
    next: i64,
    classes: Seq<ItemStatus>,
    policy: RefreshPolicy,
    filter: &ConfigNoHighlighting,
) -> bool {
    let entries = doc.entries@;
    let idx = picked_all(entries, classes, now);
    &&& plan.items@.len() == idx.len() == plan.statuses@.len() == plan.suppressed@.len()
    &&& forall|k: int|
        0 <= k < idx.len() ==> {
            &&& 0 <= #[trigger] idx[k] < entries.len()
            &&& is_item_of(Item { seen: false, ..plan.items@[k] }, entries[idx[k]], now)
            &&& plan.statuses@[k] == classes[idx[k]]
            &&& plan.suppressed@[k] == suppressed_by(filter, plan.items@[k])
            &&& plan.items@[k].seen == (filter.set_seen && plan.suppressed@[k])
        }
    &&& fetched_row(
        plan.feed,
        feed,
        doc.title,
        idx.len() as int,
        count_qualifying(plan.statuses@, plan.suppressed@, policy.highlight_updated_items),
        now,
        next,
    )
    &&& plan.bump == any_qualifies(plan.statuses@, plan.suppressed@, policy.highlight_updated_items)
    &&& plan.gc == Some(gc_threshold_of(oldest_time(entries, now), policy.gc_age_offset_secs) as i64)
}

proof fn lemma_picked_bounds(entries: Seq<ParsedEntry>, classes: Seq<ItemStatus>, now: i64, n: int)
    requires
        0 <= n <= entries.len(),
    ensures
        picked(entries, classes, now, n).len() <= n,
        forall|k: int|
            0 <= k < picked(entries, classes, now, n).len() ==> 0 <= #[trigger] picked(
                entries,
                classes,
                now,
                n,
            )[k] < n,
        forall|a: int, b: int|
            0 <= a < b < picked(entries, classes, now, n).len() ==> #[trigger] picked(
                entries,
                classes,
                now,
                n,
            )[a] < #[trigger] picked(entries, classes, now, n)[b],
    decreases n,
{
    if n > 0 {
        lemma_picked_bounds(entries, classes, now, n - 1);
    }
}

/// Plans the update a fetch of `doc` at `now` writes for `feed`, from the
/// classification of each entry against the stored rows.
pub fn plan_refresh(
    feed: &Feed,
    doc: &ParsedDocument,
    now: i64,
    next: i64,
    classes: &Vec<ItemStatus>,
    policy: &RefreshPolicy,
    filter: &ConfigNoHighlighting,
) -> (r: RefreshPlan)
    requires
        classes@.len() == doc.entries@.len(),
    ensures
        plan_ok(r, *feed, *doc, now, next, classes@, *policy, filter),
{
    let ghost entries = doc.entries@;
    let mut items: Vec<Item> = Vec::new();
    let mut statuses: Vec<ItemStatus> = Vec::new();
    let mut suppressed: Vec<bool> = Vec::new();
    let mut oldest = now;
    let mut j: usize = 0;
    while j < doc.entries.len()
        invariant
            j <= entries.len() == classes@.len(),
            entries == doc.entries@,
            items@.len() == statuses@.len() == suppressed@.len() == picked(entries, classes@, now, j as int).len(),
            forall|k: int|
                0 <= k < items@.len() ==> {
                    let i = #[trigger] picked(entries, classes@, now, j as int)[k];
                    &&& is_item_of(Item { seen: false, ..items@[k] }, entries[i], now)
                    &&& statuses@[k] == classes@[i]
                    &&& suppressed@[k] == suppressed_by(filter, items@[k])
                    &&& items@[k].seen == (filter.set_seen && suppressed@[k])
                },
            oldest == oldest_time(entries.take(j as int), now),
        decreases doc.entries.len() - j,
    {
        assert(entries.take(j + 1).drop_last() == entries.take(j as int));
        assert(entries.take(j + 1).last() == entries[j as int]);
        match entry_to_item(&doc.entries[j], now) {
            None => {},
            Some(item) => {
                if item.published < oldest {
                    oldest = item.published;
                }
                if classes[j] != ItemStatus::Exists {
                    let s = filter.suppresses(&item);
                    let mut it = item;
                    if s && filter.set_seen {
                        it.seen = true;
                    }
                    items.push(it);
                    statuses.push(classes[j]);
                    suppressed.push(s);
                }
            },
        }
        j = j + 1;
    }
    assert(entries.take(j as int) == entries);
    proof {
        lemma_picked_bounds(entries, classes@, now, j as int);
    }
    let count = qualifying_count(&statuses, &suppressed, policy.highlight_updated_items);
    let row = plan_fetched(feed, &doc.title, items.len(), count, now, next);
    let gc = gc_threshold(oldest, policy.gc_age_offset_secs);
    RefreshPlan { feed: row, items, statuses, suppressed, gc: Some(gc), bump: count > 0 }
}

/// The classification of an entry against stored rows; an undated entry is
/// never stored and counts as stored.
pub open spec fn class_in(stored: Seq<Item>, e: ParsedEntry, now: i64) -> ItemStatus {
    match entry_time(e, now) {
        Some(t) => entry_status(stored, e, t),
        None => ItemStatus::Exists,
    }
}

/// The classification of each entry against stored rows.
pub open spec fn store_classes(stored: Seq<Item>, entries: Seq<ParsedEntry>, now: i64) -> Seq<ItemStatus> {
    entries.map_values(|e: ParsedEntry| class_in(stored, e, now))
}

/// The content identifier of the entry at position `i`.
pub open spec fn cid_at(entries: Seq<ParsedEntry>, now: i64, i: int) -> Seq<char> {
    entry_content_id(entries[i], entry_time(entries[i], now)->0)
}

/// Whether the entries a refresh stores have content identifiers that are
/// not stored yet and differ from each other.
pub open spec fn fresh_ids(stored: Seq<Item>, doc: ParsedDocument, now: i64) -> bool {
    let entries = doc.entries@;
    let idx = picked_all(entries, store_classes(stored, entries, now), now);
    &&& forall|k: int| 0 <= k < idx.len() ==> !item_id_taken(stored, #[trigger] cid_at(entries, now, idx[k]))
    &&& forall|a: int, b: int|
        0 <= a < b < idx.len() ==> #[trigger] cid_at(entries, now, idx[a]) != #[trigger] cid_at(
            entries,
            now,
            idx[b],
        )
}

/// Whether storing what an outcome brings can meet no taken content
/// identifier: always for an outcome without a document.
pub open spec fn outcome_fresh(stored: Seq<Item>, outcome: FetchOutcome, now: i64) -> bool {
    match outcome {
        FetchOutcome::Fetched(doc) => fresh_ids(stored, doc, now),
        _ => true,
    }
}

/// A batch whose items carry distinct content identifiers, none stored, and
/// name no feed, is accepted.
proof fn lemma_fresh_batch_ok(stored: Seq<Item>, batch: Seq<Item>, fid: i64)
    requires
        forall|k: int| 0 <= k < batch.len() ==> (#[trigger] batch[k]).item_id is Some && batch[k].feed_id is None
            && !item_id_taken(stored, batch[k].item_id->0@),
        forall|a: int, b: int| 0 <= a < b < batch.len() ==> (#[trigger] batch[a]).item_id->0@ != (#[trigger] batch[b]).item_id->0@,
    ensures
        batch_fault(stored, batch, fid) is None,
    decreases batch.len(),
{
    if batch.len() > 0 {
        let d = batch.drop_last();
        assert forall|k: int| 0 <= k < d.len() implies (#[trigger] d[k]).item_id is Some && d[k].feed_id is None
            && !item_id_taken(stored, d[k].item_id->0@) by {
            assert(d[k] == batch[k]);
        }
        assert forall|a: int, b: int| 0 <= a < b < d.len() implies (#[trigger] d[a]).item_id->0@ != (#[trigger] d[b]).item_id->0@ by {
            assert(d[a] == batch[a] && d[b] == batch[b]);
        }
        lemma_fresh_batch_ok(stored, d, fid);
        let x = batch.last();
        assert(x == batch[batch.len() - 1]);
        lemma_taken_concat(stored, d, x.item_id->0@);
        if item_id_taken(d, x.item_id->0@) {
            let j = choose|j: int| 0 <= j < d.len() && (#[trigger] d[j]).item_id is Some && d[j].item_id->0@ == x.item_id->0@;
            assert(d[j] == batch[j]);
        }
    }
}

/// A batch whose items all carry a content identifier and name no feed can
/// only be refused for a taken identifier.
proof fn lemma_fresh_batch_fault(stored: Seq<Item>, batch: Seq<Item>, fid: i64)
    requires
        forall|k: int| 0 <= k < batch.len() ==> (#[trigger] batch[k]).item_id is Some && batch[k].feed_id is None,
    ensures
        batch_fault(stored, batch, fid) is None || batch_fault(stored, batch, fid) == Some(
            StoreError::DuplicateItemId,
        ),
    decreases batch.len(),
{
    if batch.len() > 0 {
        let d = batch.drop_last();
        assert forall|k: int| 0 <= k < d.len() implies (#[trigger] d[k]).item_id is Some && d[k].feed_id is None by {
            assert(d[k] == batch[k]);
        }
        lemma_fresh_batch_fault(stored, d, fid);
        assert(batch.last() == batch[batch.len() - 1]);
    }
}

/// Refreshes one feed of the store from the outcome of its fetch, in one
/// atomic update, and returns the update it wrote. A feed that moved gets
/// its new URL, or is disabled when no location is given; a feed that is
/// gone is disabled; neither touches items or the revision counter. A
/// fetched document is planned by `plan_refresh` against the stored rows and
/// written; that succeeds whenever the feed is stored, the counter is below
/// its largest value, and the entries to store have fresh content
/// identifiers.
pub fn refresh_feed_in(
    store: &mut Store,
    feed: &Feed,
    outcome: &FetchOutcome,
    now: i64,
    next: i64,
    policy: &RefreshPolicy,
    filter: &ConfigNoHighlighting,
) -> (r: Result<RefreshPlan, StoreError>)
    requires
        old(store).wf(),
    ensures
        final(store).wf(),
        r is Err ==> *final(store) == *old(store),
        feed.feed_id is None ==> r == Err::<RefreshPlan, StoreError>(StoreError::NoFeedId),
        feed.feed_id is Some && !feed_known(old(store).feeds(), feed.feed_id->0) ==> r == Err::<
            RefreshPlan,
            StoreError,
        >(StoreError::UnknownFeed),
        r matches Err(e) ==> e == StoreError::NoFeedId || e == StoreError::UnknownFeed || (e
            == StoreError::DuplicateItemId && !outcome_fresh(old(store).items(), *outcome, now)) || (e == StoreError::RevisionOverflow && old(store).revision() == i64::MAX),
        feed.feed_id is Some && feed_known(old(store).feeds(), feed.feed_id->0) && old(store).revision()
            < i64::MAX && outcome_fresh(old(store).items(), *outcome, now) ==> r is Ok,
        r matches Ok(plan) ==> {
            let fid = feed.feed_id->0;
            &&& exists|p: int|
                0 <= p < old(store).feeds().len() && (#[trigger] old(store).feeds()[p]).feed_id
                    == feed.feed_id && final(store).feeds() == old(store).feeds().update(p, plan.feed)
            &&& final(store).items() == after_gc(old(store).items() + rows_of(plan.items@, fid), fid, plan.gc)
            &&& final(store).revision() == old(store).revision() + if plan.bump {
                1int
            } else {
                0int
            }
        },
        match outcome {
            FetchOutcome::Gone => r matches Ok(plan) ==> {
                &&& plan.feed == (Feed { disabled: true, ..*feed })
                &&& !plan.bump && plan.gc is None
                &&& plan.items@.len() == 0 && plan.statuses@.len() == 0 && plan.suppressed@.len() == 0
            },
            FetchOutcome::MovedPermanently(loc) => r matches Ok(plan) ==> {
                &&& plan.feed == match loc {
                    Some(l) => Feed { href: *l, ..*feed },
                    None => Feed { disabled: true, ..*feed },
                }
                &&& !plan.bump && plan.gc is None
                &&& plan.items@.len() == 0 && plan.statuses@.len() == 0 && plan.suppressed@.len() == 0
            },
            FetchOutcome::Fetched(doc) => r matches Ok(plan) ==> plan_ok(
                plan,
                *feed,
                *doc,
                now,
                next,
                store_classes(old(store).items(), doc.entries@, now),
                *policy,
                filter,
            ),
        },
{
    let plan = match outcome {
        FetchOutcome::Gone => RefreshPlan {
            feed: plan_gone(feed),
            items: Vec::new(),
            statuses: Vec::new(),
            suppressed: Vec::new(),
            gc: None,
            bump: false,
        },
        FetchOutcome::MovedPermanently(loc) => {
            let target = match loc {
                Some(l) => Some(l.clone()),
                None => None,
            };
            RefreshPlan {
                feed: plan_moved(feed, target),
                items: Vec::new(),
                statuses: Vec::new(),
                suppressed: Vec::new(),
                gc: None,
                bump: false,
            }
        },
        FetchOutcome::Fetched(doc) => {
            let classes = classify_entries(store, doc, now);
            plan_refresh(feed, doc, now, next, &classes, policy, filter)
        },
    };
    proof {
        let fid = feed.feed_id->0;
        let stored = store.items();
        assert forall|k: int| 0 <= k < plan.items@.len() implies (#[trigger] plan.items@[k]).item_id is Some
            && plan.items@[k].feed_id is None by {
            if let FetchOutcome::Fetched(doc) = outcome {
                let idx = picked_all(doc.entries@, store_classes(stored, doc.entries@, now), now);
                assert(0 <= idx[k]);
            }
        }
        lemma_fresh_batch_fault(stored, plan.items@, fid);
        if let FetchOutcome::Fetched(doc) = outcome {
            let entries = doc.entries@;
            let idx = picked_all(entries, store_classes(stored, entries, now), now);
            assert forall|k: int| 0 <= k < idx.len() implies (#[trigger] plan.items@[k]).item_id->0@ == cid_at(entries, now, idx[k]) by {
                assert(0 <= idx[k]);
                let x = plan.items@[k];
                let y = Item { seen: false, ..x };
                assert(is_item_of(y, entries[idx[k]], now));
                assert(content_id(y) == entry_content_id(entries[idx[k]], y.published));
            }
            if fresh_ids(stored, *doc, now) {
                assert forall|k: int| 0 <= k < plan.items@.len() implies (#[trigger] plan.items@[k]).item_id is Some
                    && plan.items@[k].feed_id is None && !item_id_taken(stored, plan.items@[k].item_id->0@) by {
                    assert(plan.items@[k].item_id->0@ == cid_at(entries, now, idx[k]));
                }
                assert forall|a: int, b: int| 0 <= a < b < plan.items@.len() implies (#[trigger] plan.items@[a]).item_id->0@
                    != (#[trigger] plan.items@[b]).item_id->0@ by {
                    assert(plan.items@[a].item_id->0@ == cid_at(entries, now, idx[a]));
                    assert(plan.items@[b].item_id->0@ == cid_at(entries, now, idx[b]));
                }
                lemma_fresh_batch_ok(stored, plan.items@, fid);
            }
        } else {
            assert(batch_fault(stored, plan.items@, fid) is None);
        }
    }
    match store.update_feed(&plan.feed, plan.items.as_slice(), plan.gc, plan.bump) {
        Err(e) => Err(e),
        Ok(()) => Ok(plan),
    }
}

/// Classifies each entry of a document against the stored rows.
fn classify_entries(store: &Store, doc: &ParsedDocument, now: i64) -> (r: Vec<ItemStatus>)
    ensures
        r@ == store_classes(store.items(), doc.entries@, now),
{
    let ghost stored = store.items();
    let mut r: Vec<ItemStatus> = Vec::new();
    let mut j: usize = 0;
    while j < doc.entries.len()
        invariant
            j <= doc.entries@.len(),
            stored == store.items(),
            r@ == store_classes(stored, doc.entries@.take(j as int), now),
        decreases doc.entries.len() - j,
    {
        let ghost e = doc.entries@[j as int];
        let c = match entry_to_item(&doc.entries[j], now) {
            Some(it) => {
                assert(content_id(it) == entry_content_id(e, it.published));
                match store.check_item_exists(&it) {
                    Ok(s) => s,
                    Err(_) => ItemStatus::Exists,
                }
            },
            None => ItemStatus::Exists,
        };
        r.push(c);
        assert(store_classes(stored, doc.entries@.take(j + 1), now) == store_classes(stored, doc.entries@.take(j as int), now).push(class_in(stored, e, now)));
        j = j + 1;
    }
    assert(doc.entries@.take(j as int) == doc.entries@);
    r
}

} // verus!
