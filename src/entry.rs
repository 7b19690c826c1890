//! Parsed feed documents, and how one entry becomes an item: author list,
//! title, first link, publication time with its fallbacks, and summary with
//! its media fallback.

use vstd::prelude::*;
use crate::identity::{content_id, id_of_key, key_of};
use crate::model::{Item, ItemStatus, status_of};
use crate::store::{Store, feed_item_id_known, item_id_taken};
use crate::text::{is_blank, trimmed};

verus! {

/// One entry of a parsed feed document. Times are seconds since the Unix
/// epoch.
#[derive(Clone, Debug)]
pub struct ParsedEntry {
    pub id: String,
    pub authors: Vec<String>,
    pub title: Option<String>,
    pub links: Vec<String>,
    pub published: Option<i64>,
    pub updated: Option<i64>,
    pub summary: Option<String>,
    /// The description of each media object of the entry, where it has one.
    pub media_descriptions: Vec<Option<String>>,
}

/// A parsed feed document.
#[derive(Clone, Debug)]
pub struct ParsedDocument {
    pub title: Option<String>,
    pub entries: Vec<ParsedEntry>,
}

/// Remote identifiers containing this mark belong to a feed family whose
/// entries carry no dates.
pub const LEGACY_ID_MARK: &'static str = "blog.fefe.de";

/// The value the hex suffix of a legacy identifier is XOR-ed with to recover
/// a timestamp.
pub const LEGACY_STAMP_KEY: i64 = 0xfefec0de;

/// Whether `pat` occurs in `s`.
pub open spec fn occurs_in(s: Seq<char>, pat: Seq<char>) -> bool {
    exists|i: int| 0 <= i <= s.len() - pat.len() && #[trigger] s.subrange(i, i + pat.len()) == pat
}

/// Relies on `str::contains` with a string pattern: whether `pat` occurs in
/// `s`.
#[verifier::external_body]
fn contains_str(s: &str, pat: &str) -> (r: bool)
    ensures
        r == occurs_in(s@, pat@),
{
    s.contains(pat)
}

/// What follows the last `c` in `s`, or all of `s` when `c` does not occur.
pub open spec fn after_last(s: Seq<char>, c: char) -> Seq<char>
    decreases s.len(),
{
    if s.len() == 0 {
        s
    } else if s.last() == c {
        Seq::empty()
    } else {
        after_last(s.drop_last(), c).push(s.last())
    }
}

proof fn lemma_after_last(s: Seq<char>, c: char, k: int)
    requires
        0 <= k <= s.len(),
        forall|m: int| k <= m < s.len() ==> s[m] != c,
        k == 0 || s[k - 1] == c,
    ensures
        after_last(s, c) == s.subrange(k, s.len() as int),
    decreases s.len(),
{
    if s.len() > k {
        lemma_after_last(s.drop_last(), c, k);
        assert(s.drop_last().subrange(k, s.len() - 1).push(s.last()) == s.subrange(k, s.len() as int));
    } else if k > 0 {
        assert(s.last() == c);
    }
}

/// What follows the last `c` in `s`, or all of `s`.
fn last_piece(s: &str, c: char) -> (r: String)
    ensures
        r@ == after_last(s@, c),
{
    let n = s.unicode_len();
    let mut k = n;
    while k > 0 && s.get_char(k - 1) != c
        invariant
            k <= n == s@.len(),
            forall|m: int| k <= m < n ==> s@[m] != c,
        decreases k,
    {
        k = k - 1;
    }
    proof {
        lemma_after_last(s@, c, k as int);
    }
    s.substring_char(k, n).to_owned()
}

/// The value of a hex digit, either case.
pub open spec fn hex_value(c: char) -> Option<int> {
    if '0' <= c <= '9' {
        Some(c as int - '0' as int)
    } else if 'a' <= c <= 'f' {
        Some(c as int - 'a' as int + 10)
    } else if 'A' <= c <= 'F' {
        Some(c as int - 'A' as int + 10)
    } else {
        None
    }
}

/// The value of a nonempty run of hex digits.
pub open spec fn hex_run(s: Seq<char>) -> Option<int>
    decreases s.len(),
{
    if s.len() == 0 {
        None
    } else if s.len() == 1 {
        hex_value(s[0])
    } else {
        match (hex_run(s.drop_last()), hex_value(s.last())) {
            (Some(v), Some(d)) => Some(v * 16 + d),
            _ => None,
        }
    }
}

/// A hex number with an optional sign, when it fits an `i64`.
pub open spec fn hex_i64(s: Seq<char>) -> Option<i64> {
    let neg = s.len() > 0 && s[0] == '-';
    let digits = if s.len() > 0 && (s[0] == '-' || s[0] == '+') {
        s.drop_first()
    } else {
        s
    };
    match hex_run(digits) {
        Some(v) => {
            let w = if neg { -v } else { v };
            if i64::MIN <= w <= i64::MAX {
                Some(w as i64)
            } else {
                None
            }
        },
        None => None,
    }
}

/// Relies on `i64::from_str_radix` with radix 16: an optional sign, then one
/// or more hex digits of either case, whose value fits.
#[verifier::external_body]
fn parse_hex_i64(s: &str) -> (r: Option<i64>)
    ensures
        r == hex_i64(s@),
{
    i64::from_str_radix(s, 16).ok()
}

/// Whether a count of seconds since the epoch is a representable UTC time.
pub uninterp spec fn utc_stamp_ok(secs: int) -> bool;

/// Relies on chrono's `DateTime::<Utc>::from_timestamp`: whether it accepts
/// `secs` (with no nanoseconds).
#[verifier::external_body]
fn utc_stamp_valid(secs: i64) -> (r: bool)
    ensures
        r == utc_stamp_ok(secs as int),
{
    chrono::DateTime::<chrono::Utc>::from_timestamp(secs, 0).is_some()
}

/// The publication time of an entry, or `None` when the entry is skipped:
/// its published time, else its updated time, else for a legacy identifier
/// the timestamp recovered from its hex suffix, else `now`.
pub open spec fn entry_time(e: ParsedEntry, now: i64) -> Option<i64> {
    if e.published is Some {
        e.published
    } else if e.updated is Some {
        e.updated
    } else if occurs_in(e.id@, LEGACY_ID_MARK@) {
        match hex_i64(after_last(e.id@, '=')) {
            Some(v) => if utc_stamp_ok((v ^ LEGACY_STAMP_KEY) as int) {
                Some(v ^ LEGACY_STAMP_KEY)
            } else {
                None
            },
            None => None,
        }
    } else {
        Some(now)
    }
}

/// Computes the publication time of an entry with its fallbacks.
pub fn entry_published(e: &ParsedEntry, now: i64) -> (r: Option<i64>)
    ensures
        r == entry_time(*e, now),
{
    if let Some(p) = e.published {
        return Some(p);
    }
    if let Some(u) = e.updated {
        return Some(u);
    }
    if contains_str(e.id.as_str(), LEGACY_ID_MARK) {
        let suffix = last_piece(e.id.as_str(), '=');
        match parse_hex_i64(suffix.as_str()) {
            Some(v) => {
                let stamp = v ^ LEGACY_STAMP_KEY;
                if utc_stamp_valid(stamp) {
                    Some(stamp)
                } else {
                    None
                }
            },
            None => None,
        }
    } else {
        Some(now)
    }
}

/// How the names of an entry's authors are separated in an item.
pub const AUTHOR_SEP: &'static str = ", ";

/// The parts with `sep` between each two.
pub open spec fn joined(parts: Seq<Seq<char>>, sep: Seq<char>) -> Seq<char>
    decreases parts.len(),
{
    if parts.len() == 0 {
        Seq::empty()
    } else if parts.len() == 1 {
        parts[0]
    } else {
        joined(parts.drop_last(), sep) + sep + parts.last()
    }
}

/// The texts of a list of strings.
pub open spec fn views_of(v: Seq<String>) -> Seq<Seq<char>> {
    v.map_values(|s: String| s@)
}

/// Relies on `itertools::join`: the names, each in its `Display` form (for a
/// `String`, its text), with `sep` between each two.
#[verifier::external_body]
fn join_names(names: &Vec<String>, sep: &str) -> (r: String)
    ensures
        r@ == joined(views_of(names@), sep@),
{
    itertools::join(names, sep)
}

/// The text of an optional string, or nothing.
pub open spec fn text_of(o: Option<String>) -> Seq<char> {
    match o {
        Some(s) => s@,
        None => Seq::empty(),
    }
}

/// The first of a list of strings, or nothing.
pub open spec fn first_text(v: Seq<String>) -> Seq<char> {
    if v.len() > 0 {
        v[0]@
    } else {
        Seq::empty()
    }
}

/// The first media description present.
pub open spec fn first_description(m: Seq<Option<String>>) -> Option<Seq<char>>
    decreases m.len(),
{
    if m.len() == 0 {
        None
    } else {
        match m[0] {
            Some(d) => Some(d@),
            None => first_description(m.drop_first()),
        }
    }
}

/// The summary of an entry: its own, or when that is blank the first media
/// description present.
pub open spec fn entry_summary(e: ParsedEntry) -> Seq<char> {
    let s = text_of(e.summary);
    if trimmed(s).len() == 0 {
        match first_description(e.media_descriptions@) {
            Some(d) => d,
            None => s,
        }
    } else {
        s
    }
}

/// The content identifier of the item an entry becomes when published at
/// `t`.
pub open spec fn entry_content_id(e: ParsedEntry, t: i64) -> Seq<char> {
    id_of_key(
        key_of(
            e.id@,
            joined(views_of(e.authors@), AUTHOR_SEP@),
            text_of(e.title),
            first_text(e.links@),
            t as int,
            entry_summary(e),
        ),
    )
}

/// Whether `it` is the item that entry `e` becomes when retrieved at `now`.
pub open spec fn is_item_of(it: Item, e: ParsedEntry, now: i64) -> bool {
    &&& entry_time(e, now) == Some(it.published)
    &&& it.item_id is Some
    &&& it.item_id->0@ == content_id(it)
    &&& it.feed_id is None
    &&& it.retrieved == now
    &&& !it.seen
    &&& it.author@ == joined(views_of(e.authors@), AUTHOR_SEP@)
    &&& it.title@ == text_of(e.title)
    &&& it.feed_item_id@ == e.id@
    &&& it.link@ == first_text(e.links@)
    &&& it.summary@ == entry_summary(e)
}

fn copy_text(o: &Option<String>) -> (r: String)
    ensures
        r@ == text_of(*o),
{
    match o {
        Some(s) => s.clone(),
        None => String::new(),
    }
}

fn first_media_description(m: &Vec<Option<String>>) -> (r: Option<String>)
    ensures
        match r {
            Some(d) => first_description(m@) == Some(d@),
            None => first_description(m@) is None,
        },
{
    let mut i: usize = 0;
    assert(m@.skip(0) == m@);
    while i < m.len()
        invariant
            i <= m.len(),
            first_description(m@) == first_description(m@.skip(i as int)),
        decreases m.len() - i,
    {
        assert(m@.skip(i as int)[0] == m@[i as int]);
        assert(m@.skip(i as int).drop_first() == m@.skip(i + 1));
        match &m[i] {
            Some(d) => {
                return Some(d.clone());
            },
            None => {},
        }
        i = i + 1;
    }
    assert(m@.skip(i as int).len() == 0);
    None
}

/// The item an entry becomes when retrieved at `now`, with its content
/// identifier; `None` when no publication time can be had for it.
pub fn entry_to_item(e: &ParsedEntry, now: i64) -> (r: Option<Item>)
    ensures
        r is None <==> entry_time(*e, now) is None,
        r matches Some(it) ==> is_item_of(it, *e, now),
{
    let published = match entry_published(e, now) {
        Some(t) => t,
        None => return None,
    };
    let author = join_names(&e.authors, AUTHOR_SEP);
    let title = copy_text(&e.title);
    let link = if e.links.len() > 0 {
        e.links[0].clone()
    } else {
        String::new()
    };
    let mut summary = copy_text(&e.summary);
    if is_blank(summary.as_str()) {
        match first_media_description(&e.media_descriptions) {
            Some(d) => {
                summary = d;
            },
            None => {},
        }
    }
    let mut item = Item {
        item_id: None,
        feed_id: None,
        retrieved: now,
        seen: false,
        author,
        title,
        feed_item_id: e.id.clone(),
        link,
        published,
        summary,
    };
    let id = item.make_id();
    item.item_id = Some(id);
    Some(item)
}

/// How an entry published at `t` classifies against the stored rows.
pub open spec fn entry_status(stored: Seq<Item>, e: ParsedEntry, t: i64) -> ItemStatus {
    status_of(feed_item_id_known(stored, e.id@), item_id_taken(stored, entry_content_id(e, t)))
}

/// Whether an entry yields an item that is new or an edit of a stored one.
pub open spec fn kept(stored: Seq<Item>, e: ParsedEntry, now: i64) -> bool {
    match entry_time(e, now) {
        Some(t) => entry_status(stored, e, t) != ItemStatus::Exists,
        None => false,
    }
}

/// The earliest publication time among the entries, or `now` when none is
/// earlier.
pub open spec fn oldest_time(entries: Seq<ParsedEntry>, now: i64) -> i64
    decreases entries.len(),
{
    if entries.len() == 0 {
        now
    } else {
        let o = oldest_time(entries.drop_last(), now);
        match entry_time(entries.last(), now) {
            Some(t) => if t < o {
                t
            } else {
                o
            },
            None => o,
        }
    }
}

/// The entries of a document that yield new or edited items.
pub open spec fn kept_entries(stored: Seq<Item>, entries: Seq<ParsedEntry>, now: i64) -> Seq<
    ParsedEntry,
> {
    entries.filter(|e: ParsedEntry| kept(stored, e, now))
}

/// The items of a document that are to be stored, with their
/// classification, and the earliest publication time seen.
pub struct Harvest {
    pub items: Vec<Item>,
    pub statuses: Vec<ItemStatus>,
    pub oldest: i64,
}

/// Turns the entries of a document into items, classifies each against the
/// store, and keeps those that are new or edited.
pub fn collect_items(store: &Store, doc: &ParsedDocument, now: i64) -> (r: Harvest)
    ensures
        r.items@.len() == r.statuses@.len() == kept_entries(store.items(), doc.entries@, now).len(),
        forall|k: int|
            0 <= k < r.items@.len() ==> {
                let e = #[trigger] kept_entries(store.items(), doc.entries@, now)[k];
                &&& is_item_of(r.items@[k], e, now)
                &&& r.statuses@[k] == entry_status(store.items(), e, r.items@[k].published)
            },
        r.oldest == oldest_time(doc.entries@, now),
{
    let ghost stored = store.items();
    let ghost keep = |e: ParsedEntry| kept(stored, e, now);
    let mut items: Vec<Item> = Vec::new();
    let mut statuses: Vec<ItemStatus> = Vec::new();
    let mut oldest = now;
    let mut i: usize = 0;
    while i < doc.entries.len()
        invariant
            i <= doc.entries.len(),
            stored == store.items(),
            keep == (|e: ParsedEntry| kept(stored, e, now)),
            items@.len() == statuses@.len() == doc.entries@.take(i as int).filter(keep).len(),
            forall|k: int|
                0 <= k < items@.len() ==> {
                    let e = #[trigger] doc.entries@.take(i as int).filter(keep)[k];
                    &&& is_item_of(items@[k], e, now)
                    &&& statuses@[k] == entry_status(stored, e, items@[k].published)
                },
            oldest == oldest_time(doc.entries@.take(i as int), now),
        decreases doc.entries.len() - i,
    {
        let ghost e = doc.entries@[i as int];
        let ghost prev = doc.entries@.take(i as int);
        assert(doc.entries@.take(i + 1) == prev.push(e));
        assert(doc.entries@.take(i + 1).drop_last() == prev);
        proof {
            prev.lemma_filter_push(e, keep);
        }
        match entry_to_item(&doc.entries[i], now) {
            None => {},
            Some(item) => {
                if item.published < oldest {
                    oldest = item.published;
                }
                let status = match store.check_item_exists(&item) {
                    Ok(s) => s,
                    Err(_) => ItemStatus::Exists,
                };
                assert(content_id(item) == entry_content_id(e, item.published));
                if status != ItemStatus::Exists {
                    items.push(item);
                    statuses.push(status);
                }
            },
        }
        i = i + 1;
    }
    assert(doc.entries@.take(i as int) == doc.entries@);
    Harvest { items, statuses, oldest }
}

} // verus!
