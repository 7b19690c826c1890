use feedreader::entry::{collect_items, entry_published, entry_to_item, ParsedDocument, ParsedEntry};
use feedreader::identity::id_from_digest;
use feedreader::model::{Feed, Item, ItemStatus, StoreError};
use feedreader::refresh::{
    gc_threshold, moved_location, plan_fetched, plan_refresh, qualifying_count, refresh_feed_in,
    ConfigNoHighlighting, FetchOutcome, Pattern, RefreshPolicy,
};
use feedreader::store::Store;

fn entry(id: &str, title: &str) -> ParsedEntry {
    ParsedEntry {
        id: id.to_string(),
        authors: vec![],
        title: Some(title.to_string()),
        links: vec![],
        published: Some(1000),
        updated: None,
        summary: None,
        media_descriptions: vec![],
    }
}

fn doc(entries: Vec<ParsedEntry>) -> ParsedDocument {
    ParsedDocument { title: Some("Feed F".to_string()), entries }
}

fn policy() -> RefreshPolicy {
    RefreshPolicy { gc_age_offset_secs: 180 * 86400, highlight_updated_items: false }
}

fn feed_row(store: &mut Store, id: i64) -> Feed {
    let (feeds, _) = store.get_feeds(None);
    feeds.into_iter().find(|f| f.feed_id == Some(id)).unwrap()
}

fn due_store(now: i64) -> (Store, Feed) {
    let mut store = Store::new();
    store.add_feed("http://f/feed").unwrap();
    let mut f = feed_row(&mut store, 1);
    f.next_retrieval = now - 1;
    store.update_feed(&f, &[], None, false).unwrap();
    (store, f)
}

#[test]
fn make_id_is_sha256_hex_of_salient_fields() {
    let it = Item {
        item_id: None,
        feed_id: None,
        retrieved: 7,
        seen: false,
        author: "Ann".to_string(),
        title: "A".to_string(),
        feed_item_id: "e1".to_string(),
        link: "http://x/a".to_string(),
        published: 100,
        summary: "sum".to_string(),
    };
    assert_eq!(it.make_id(), "f69bf90c36296d735e1fecd2f915a743702523833e5422ef0c1c4a279ff1e7b6");
    let empty = Item {
        item_id: None,
        feed_id: None,
        retrieved: 0,
        seen: true,
        author: String::new(),
        title: String::new(),
        feed_item_id: String::new(),
        link: String::new(),
        published: 0,
        summary: String::new(),
    };
    assert_eq!(empty.make_id(), "61545d8fa0a372cc367e99d1a42b44e697b2aa58459bed84915d4c551ca0dab2");
}

#[test]
fn id_from_digest_is_lower_hex() {
    assert_eq!(id_from_digest(&[0x00, 0xab, 0x10, 0xff]), "00ab10ff");
    assert_eq!(id_from_digest(&[]), "");
}

#[test]
fn shifted_field_boundaries_change_the_id() {
    let mut a = entry("e1", "");
    a.authors = vec!["ab".to_string()];
    let mut b = entry("e1", "b");
    b.authors = vec!["a".to_string()];
    let ia = entry_to_item(&a, 5).unwrap();
    let ib = entry_to_item(&b, 5).unwrap();
    assert_ne!(ia.item_id, ib.item_id);
    assert_eq!(ia.item_id.unwrap().len(), 64);
}

#[test]
fn plan_refresh_from_classifications() {
    let f = Feed {
        feed_id: Some(1),
        href: "h".to_string(),
        title: "old".to_string(),
        last_retrieval: 0,
        next_retrieval: 0,
        last_activity: 0,
        disabled: false,
        updated_items: 0,
    };
    let mut undated = entry("u", "U");
    undated.published = None;
    undated.id = "https://blog.fefe.de/?ts=zz".to_string();
    let d = doc(vec![entry("e1", "A"), entry("e2", "B"), undated, entry("e3", "C")]);
    let classes = vec![ItemStatus::New, ItemStatus::Exists, ItemStatus::New, ItemStatus::Updated];
    let plan = plan_refresh(&f, &d, 5000, 5600, &classes, &policy(), &ConfigNoHighlighting::new());
    let ids: Vec<&str> = plan.items.iter().map(|i| i.feed_item_id.as_str()).collect();
    assert_eq!(ids, vec!["e1", "e3"]);
    assert_eq!(plan.statuses, vec![ItemStatus::New, ItemStatus::Updated]);
    assert_eq!(plan.suppressed, vec![false, false]);
    assert!(plan.bump);
    assert_eq!(plan.feed.updated_items, 1);
    assert_eq!(plan.feed.title, "Feed F");
    assert_eq!(plan.gc, Some(1000 - 180 * 86400));
}

#[test]
fn pattern_keeps_its_source() {
    let p = Pattern::new("^a+$").unwrap();
    assert_eq!(p.source(), "^a+$");
    assert!(p.is_match("aaa"));
    assert!(!p.is_match("ab"));
    assert!(Pattern::new("(").is_none());
}

#[test]
fn edited_fields_change_the_id() {
    let mut a = entry_to_item(&entry("e1", "A"), 5).unwrap();
    let b = entry_to_item(&entry("e1", "B"), 5).unwrap();
    assert_ne!(a.item_id, b.item_id);
    a.item_id = None;
    a.link = "http://other".to_string();
    assert_ne!(Some(a.make_id()), b.item_id);
}

#[test]
fn published_time_fallbacks() {
    let mut e = entry("x", "t");
    assert_eq!(entry_published(&e, 5), Some(1000));
    e.published = None;
    e.updated = Some(77);
    assert_eq!(entry_published(&e, 5), Some(77));
    e.updated = None;
    assert_eq!(entry_published(&e, 5), Some(5));
}

#[test]
fn legacy_identifier_timestamp_recovery() {
    let mut e = entry("https://blog.fefe.de/?ts=a1b2c3d4", "t");
    e.published = None;
    assert_eq!(entry_published(&e, 5), Some(1598817034));
    let mut bad = entry("https://blog.fefe.de/?ts=zz", "t");
    bad.published = None;
    assert_eq!(entry_published(&bad, 5), None);
    assert!(entry_to_item(&bad, 5).is_none());
    let mut far = entry("https://blog.fefe.de/?ts=7fffffffffffffff", "t");
    far.published = None;
    assert_eq!(entry_published(&far, 5), None);
    let mut plain = entry("https://example.org/?ts=a1b2c3d4", "t");
    plain.published = None;
    assert_eq!(entry_published(&plain, 5), Some(5));
}

#[test]
fn entry_becomes_item() {
    let mut e = entry("e1", "A");
    e.authors = vec!["Ann".to_string(), "Bob".to_string()];
    e.links = vec!["http://x/1".to_string(), "http://x/2".to_string()];
    e.summary = Some("  ".to_string());
    e.media_descriptions = vec![None, Some("media text".to_string())];
    let it = entry_to_item(&e, 42).unwrap();
    assert_eq!(it.author, "Ann, Bob");
    assert_eq!(it.title, "A");
    assert_eq!(it.link, "http://x/1");
    assert_eq!(it.summary, "media text");
    assert_eq!(it.retrieved, 42);
    assert_eq!(it.published, 1000);
    assert!(!it.seen);
    assert_eq!(it.feed_id, None);
    let mut plain = it.clone();
    plain.item_id = None;
    assert_eq!(it.item_id, Some(plain.make_id()));
}

#[test]
fn scenario_new_entry_then_unchanged() {
    let now = 5000;
    let (mut store, f) = due_store(now);
    assert_eq!(store.get_feeds_due(now).len(), 1);
    let r0 = store.get_feed_update_revision();
    let d = doc(vec![entry("e1", "A")]);
    let nh = ConfigNoHighlighting::new();
    let rep = refresh_feed_in(&mut store, &f, &FetchOutcome::Fetched(d.clone()), now, now + 600, &policy(), &nh)
        .unwrap();
    assert_eq!(rep.statuses, vec![ItemStatus::New]);
    assert!(rep.bump);
    assert_eq!(store.get_feed_update_revision(), r0 + 1);
    let f1 = feed_row(&mut store, 1);
    assert_eq!(f1.updated_items, 1);
    assert_eq!(f1.title, "Feed F");
    assert_eq!(f1.next_retrieval, now + 600);
    assert_eq!(f1.last_activity, now);

    let rep2 = refresh_feed_in(&mut store, &f1, &FetchOutcome::Fetched(d), now + 700, now + 1300, &policy(), &nh)
        .unwrap();
    assert!(rep2.statuses.is_empty());
    assert!(!rep2.bump);
    assert_eq!(store.get_feed_update_revision(), r0 + 1);
    let f2 = feed_row(&mut store, 1);
    assert_eq!(f2.updated_items, 1);
    assert_eq!(f2.last_activity, now);
}

#[test]
fn scenario_gone_disables_feed() {
    let now = 5000;
    let (mut store, f) = due_store(now);
    let nh = ConfigNoHighlighting::new();
    refresh_feed_in(&mut store, &f, &FetchOutcome::Fetched(doc(vec![entry("e1", "A")])), now, now - 1, &policy(), &nh)
        .unwrap();
    let f = feed_row(&mut store, 1);
    let r = store.get_feed_update_revision();
    let rep = refresh_feed_in(&mut store, &f, &FetchOutcome::Gone, now, now + 600, &policy(), &nh).unwrap();
    assert!(!rep.bump);
    assert!(feed_row(&mut store, 1).disabled);
    assert_eq!(store.get_feed_update_revision(), r);
    assert!(store.get_feeds_due(now + 10_000).is_empty());
    let probe = entry_to_item(&entry("e1", "A"), now).unwrap();
    assert_eq!(store.check_item_exists(&probe), Ok(ItemStatus::Exists));
}

#[test]
fn moved_feed_gets_new_url_or_is_disabled() {
    let now = 5000;
    let (mut store, f) = due_store(now);
    let nh = ConfigNoHighlighting::new();
    refresh_feed_in(
        &mut store,
        &f,
        &FetchOutcome::MovedPermanently(Some("http://g/feed".to_string())),
        now,
        now + 600,
        &policy(),
        &nh,
    )
    .unwrap();
    let f = feed_row(&mut store, 1);
    assert_eq!(f.href, "http://g/feed");
    assert!(!f.disabled);
    refresh_feed_in(&mut store, &f, &FetchOutcome::MovedPermanently(None), now, now + 600, &policy(), &nh).unwrap();
    assert!(feed_row(&mut store, 1).disabled);
    assert_eq!(moved_location(Some("  ".to_string())), None);
    assert_eq!(moved_location(Some("http://h".to_string())), Some("http://h".to_string()));
    assert_eq!(moved_location(None), None);
}

#[test]
fn refresh_of_unknown_feed_is_refused() {
    let mut store = Store::new();
    let f = Feed {
        feed_id: Some(3),
        href: String::new(),
        title: String::new(),
        last_retrieval: 0,
        next_retrieval: 0,
        last_activity: 0,
        disabled: false,
        updated_items: 0,
    };
    let nh = ConfigNoHighlighting::new();
    let r = refresh_feed_in(&mut store, &f, &FetchOutcome::Gone, 1, 2, &policy(), &nh);
    assert!(matches!(r, Err(StoreError::UnknownFeed)));
}

#[test]
fn same_document_twice_inserts_nothing() {
    let now = 5000;
    let (mut store, f) = due_store(now);
    let d = doc(vec![entry("e1", "A"), entry("e2", "B"), entry("e3", "C")]);
    let first = collect_items(&store, &d, now);
    assert_eq!(first.items.len(), 3);
    store.update_feed(&f, &first.items, None, false).unwrap();
    let second = collect_items(&store, &d, now);
    assert!(second.items.is_empty());
    assert!(second.statuses.is_empty());
}

#[test]
fn edited_entry_is_stored_beside_the_first() {
    let now = 5000;
    let (mut store, f) = due_store(now);
    let nh = ConfigNoHighlighting::new();
    refresh_feed_in(&mut store, &f, &FetchOutcome::Fetched(doc(vec![entry("e1", "A")])), now, now, &policy(), &nh)
        .unwrap();
    let f = feed_row(&mut store, 1);
    let r = store.get_feed_update_revision();
    let rep = refresh_feed_in(&mut store, &f, &FetchOutcome::Fetched(doc(vec![entry("e1", "A2")])), now, now, &policy(), &nh)
        .unwrap();
    assert_eq!(rep.statuses, vec![ItemStatus::Updated]);
    // only brand-new entries bump under the default policy
    assert!(!rep.bump);
    assert_eq!(store.get_feed_update_revision(), r);
    let old = entry_to_item(&entry("e1", "A"), now).unwrap();
    let new = entry_to_item(&entry("e1", "A2"), now).unwrap();
    assert_ne!(old.item_id, new.item_id);
    assert_eq!(store.check_item_exists(&old), Ok(ItemStatus::Exists));
    assert_eq!(store.check_item_exists(&new), Ok(ItemStatus::Exists));
}

#[test]
fn highlighting_updates_bumps_on_edits() {
    let now = 5000;
    let (mut store, f) = due_store(now);
    let nh = ConfigNoHighlighting::new();
    let pol = RefreshPolicy { gc_age_offset_secs: 0, highlight_updated_items: true };
    refresh_feed_in(&mut store, &f, &FetchOutcome::Fetched(doc(vec![entry("e1", "A")])), now, now, &pol, &nh)
        .unwrap();
    let f = feed_row(&mut store, 1);
    let r = store.get_feed_update_revision();
    let rep = refresh_feed_in(&mut store, &f, &FetchOutcome::Fetched(doc(vec![entry("e1", "A2")])), now, now, &pol, &nh)
        .unwrap();
    assert!(rep.bump);
    assert_eq!(store.get_feed_update_revision(), r + 1);
    assert_eq!(feed_row(&mut store, 1).updated_items, 2);
}

#[test]
fn suppressed_entries_do_not_bump_and_may_be_seen() {
    let now = 5000;
    let (mut store, f) = due_store(now);
    let mut nh = ConfigNoHighlighting::new();
    nh.title.push(Pattern::new("^Ad:").unwrap());
    nh.set_seen = true;
    let rep = refresh_feed_in(&mut store, &f, &FetchOutcome::Fetched(doc(vec![entry("e1", "Ad: buy")])), now, now, &policy(), &nh)
        .unwrap();
    assert_eq!(rep.suppressed, vec![true]);
    assert!(!rep.bump);
    assert_eq!(feed_row(&mut store, 1).updated_items, 0);
    // stored as seen, so collection with a later threshold removes it
    let f = feed_row(&mut store, 1);
    store.update_feed(&f, &[], Some(2000), false).unwrap();
    let probe = entry_to_item(&entry("e1", "Ad: buy"), now).unwrap();
    assert_eq!(store.check_item_exists(&probe), Ok(ItemStatus::New));
}

#[test]
fn qualifying_count_follows_policy() {
    let st = vec![ItemStatus::New, ItemStatus::Updated, ItemStatus::New];
    assert_eq!(qualifying_count(&st, &vec![false, false, true], false), 1);
    assert_eq!(qualifying_count(&st, &vec![false, false, false], true), 3);
    assert_eq!(qualifying_count(&st, &vec![true, true, true], true), 0);
}

#[test]
fn fetched_row_and_gc_threshold() {
    let f = Feed {
        feed_id: Some(1),
        href: "h".to_string(),
        title: "old".to_string(),
        last_retrieval: 0,
        next_retrieval: 0,
        last_activity: 3,
        disabled: false,
        updated_items: 2,
    };
    let r = plan_fetched(&f, &None, 0, 0, 10, 20);
    assert_eq!(r.title, "old");
    assert_eq!(r.last_activity, 3);
    assert_eq!(r.updated_items, 2);
    let r = plan_fetched(&f, &Some("new".to_string()), 2, 1, 10, 20);
    assert_eq!(r.title, "new");
    assert_eq!((r.last_retrieval, r.next_retrieval, r.last_activity, r.updated_items), (10, 20, 10, 3));
    assert_eq!(gc_threshold(1000, 400), 600);
    assert_eq!(gc_threshold(i64::MIN + 1, 10), i64::MIN);
}
