use feedreader::model::{classify_counts, Feed, Item, ItemStatus, StoreError};
use feedreader::store::{Store, PLACEHOLDER_TITLE};

fn item(id: &str, feed_id: Option<i64>, feed_item_id: &str, published: i64, seen: bool) -> Item {
    Item {
        item_id: Some(id.to_string()),
        feed_id,
        retrieved: 100,
        seen,
        author: String::new(),
        title: format!("title of {id}"),
        feed_item_id: feed_item_id.to_string(),
        link: String::new(),
        published,
        summary: String::new(),
    }
}

fn feed_row(store: &mut Store, id: i64) -> Feed {
    let (feeds, _) = store.get_feeds(None);
    feeds.into_iter().find(|f| f.feed_id == Some(id)).unwrap()
}

#[test]
fn classify_counts_rule() {
    assert_eq!(classify_counts(0, 0), ItemStatus::New);
    assert_eq!(classify_counts(2, 0), ItemStatus::Updated);
    assert_eq!(classify_counts(1, 1), ItemStatus::Exists);
    assert_eq!(classify_counts(0, 1), ItemStatus::New);
}

#[test]
fn new_store_starts_at_revision_one() {
    let store = Store::new();
    assert_eq!(store.get_feed_update_revision(), 1);
}

#[test]
fn add_feed_assigns_increasing_ids_and_placeholder() {
    let mut store = Store::new();
    assert_eq!(store.add_feed("http://a/feed"), Ok(1));
    assert_eq!(store.add_feed("http://b/feed"), Ok(2));
    let f = feed_row(&mut store, 2);
    assert_eq!(f.href, "http://b/feed");
    assert_eq!(f.title, PLACEHOLDER_TITLE);
    assert_eq!(f.title, "[New feed] Updating...");
    assert_eq!(f.next_retrieval, 0);
    assert!(!f.disabled);
    assert_eq!(f.updated_items, 0);
}

#[test]
fn add_feed_does_not_deduplicate_urls() {
    let mut store = Store::new();
    assert_eq!(store.add_feed("http://a/feed"), Ok(1));
    assert_eq!(store.add_feed("http://a/feed"), Ok(2));
    let (feeds, _) = store.get_feeds(None);
    assert_eq!(feeds.len(), 2);
}

#[test]
fn delete_feeds_cascades_to_items_only_of_those_feeds() {
    let mut store = Store::new();
    store.add_feed("a").unwrap();
    store.add_feed("b").unwrap();
    let f1 = feed_row(&mut store, 1);
    let f2 = feed_row(&mut store, 2);
    store.update_feed(&f1, &[item("x1", None, "e1", 10, false)], None, false).unwrap();
    store.update_feed(&f2, &[item("x2", None, "e2", 10, false)], None, false).unwrap();
    store.delete_feeds(&[1]);
    let (feeds, _) = store.get_feeds(None);
    assert_eq!(feeds.len(), 1);
    assert_eq!(feeds[0].feed_id, Some(2));
    let probe1 = item("x1", None, "e1", 10, false);
    let probe2 = item("x2", None, "e2", 10, false);
    assert_eq!(store.check_item_exists(&probe1), Ok(ItemStatus::New));
    assert_eq!(store.check_item_exists(&probe2), Ok(ItemStatus::Exists));
}

#[test]
fn delete_feeds_with_empty_set_is_noop() {
    let mut store = Store::new();
    store.add_feed("a").unwrap();
    let f1 = feed_row(&mut store, 1);
    store.update_feed(&f1, &[item("x1", None, "e1", 10, false)], None, true).unwrap();
    store.delete_feeds(&[]);
    let (feeds, ext) = store.get_feeds(None);
    assert_eq!(feeds.len(), 1);
    assert_eq!(ext.feed_update_revision, 2);
    assert_eq!(store.check_item_exists(&item("x1", None, "e1", 10, false)), Ok(ItemStatus::Exists));
}

#[test]
fn update_feed_refusals_leave_store_unchanged() {
    let mut store = Store::new();
    store.add_feed("a").unwrap();
    let f1 = feed_row(&mut store, 1);
    let mut no_id = f1.clone();
    no_id.feed_id = None;
    assert_eq!(store.update_feed(&no_id, &[], None, true), Err(StoreError::NoFeedId));
    let mut unknown = f1.clone();
    unknown.feed_id = Some(7);
    assert_eq!(store.update_feed(&unknown, &[], None, true), Err(StoreError::UnknownFeed));
    let mut missing = item("x1", None, "e1", 10, false);
    missing.item_id = None;
    assert_eq!(
        store.update_feed(&f1, &[item("x0", None, "e0", 10, false), missing], None, true),
        Err(StoreError::NoItemId)
    );
    assert_eq!(
        store.update_feed(&f1, &[item("x1", Some(9), "e1", 10, false)], None, true),
        Err(StoreError::FeedIdMismatch)
    );
    assert_eq!(
        store.update_feed(
            &f1,
            &[item("x1", None, "e1", 10, false), item("x1", None, "e1", 10, false)],
            None,
            true
        ),
        Err(StoreError::DuplicateItemId)
    );
    assert_eq!(store.get_feed_update_revision(), 1);
    assert_eq!(store.check_item_exists(&item("x0", None, "e0", 10, false)), Ok(ItemStatus::New));
}

#[test]
fn update_feed_inserts_collects_and_bumps_together() {
    let mut store = Store::new();
    store.add_feed("a").unwrap();
    let mut f1 = feed_row(&mut store, 1);
    store
        .update_feed(&f1, &[item("old", None, "e0", 5, true), item("keep", None, "e1", 5, false)], None, false)
        .unwrap();
    assert_eq!(store.get_feed_update_revision(), 1);
    f1.title = "Renamed".to_string();
    store.update_feed(&f1, &[item("new", Some(1), "e2", 50, false)], Some(10), true).unwrap();
    assert_eq!(store.get_feed_update_revision(), 2);
    assert_eq!(feed_row(&mut store, 1).title, "Renamed");
    // seen and older than the threshold: collected
    assert_eq!(store.check_item_exists(&item("old", None, "zz", 5, true)), Ok(ItemStatus::New));
    // unseen: kept
    assert_eq!(store.check_item_exists(&item("keep", None, "e1", 5, false)), Ok(ItemStatus::Exists));
    assert_eq!(store.check_item_exists(&item("new", None, "e2", 50, false)), Ok(ItemStatus::Exists));
}

#[test]
fn unknown_remote_id_is_new_even_if_content_id_is_stored() {
    let mut store = Store::new();
    store.add_feed("a").unwrap();
    let f1 = feed_row(&mut store, 1);
    store.update_feed(&f1, &[item("x", None, "e1", 10, false)], None, false).unwrap();
    assert_eq!(store.check_item_exists(&item("x", None, "other", 10, false)), Ok(ItemStatus::New));
}

#[test]
fn check_item_exists_needs_an_id() {
    let store = Store::new();
    let mut it = item("x", None, "e", 1, false);
    it.item_id = None;
    assert_eq!(store.check_item_exists(&it), Err(StoreError::NoItemId));
}

#[test]
fn edit_of_stored_entry_is_updated() {
    let mut store = Store::new();
    store.add_feed("a").unwrap();
    let f1 = feed_row(&mut store, 1);
    store.update_feed(&f1, &[item("v1", None, "e1", 10, false)], None, false).unwrap();
    assert_eq!(store.check_item_exists(&item("v2", None, "e1", 10, false)), Ok(ItemStatus::Updated));
    store.update_feed(&f1, &[item("v2", None, "e1", 10, false)], None, false).unwrap();
    assert_eq!(store.check_item_exists(&item("v1", None, "e1", 10, false)), Ok(ItemStatus::Exists));
    assert_eq!(store.check_item_exists(&item("v2", None, "e1", 10, false)), Ok(ItemStatus::Exists));
}

#[test]
fn feeds_due_and_next_due_time() {
    let mut store = Store::new();
    assert_eq!(store.get_next_due_time(), None);
    store.add_feed("a").unwrap();
    store.add_feed("b").unwrap();
    store.add_feed("c").unwrap();
    let mut f1 = feed_row(&mut store, 1);
    f1.next_retrieval = 500;
    store.update_feed(&f1, &[], None, false).unwrap();
    let mut f2 = feed_row(&mut store, 2);
    f2.next_retrieval = 50;
    f2.disabled = true;
    store.update_feed(&f2, &[], None, false).unwrap();
    let mut f3 = feed_row(&mut store, 3);
    f3.next_retrieval = 99;
    store.update_feed(&f3, &[], None, false).unwrap();
    let due = store.get_feeds_due(100);
    assert_eq!(due.len(), 1);
    assert_eq!(due[0].feed_id, Some(3));
    assert_eq!(store.get_next_due_time(), Some(99));
}

#[test]
fn get_feeds_orders_by_activity_and_resets_active_counter() {
    let mut store = Store::new();
    for u in ["a", "b", "c"] {
        store.add_feed(u).unwrap();
    }
    for (id, act) in [(1, 10), (2, 30), (3, 20)] {
        let mut f = feed_row(&mut store, id);
        f.last_activity = act;
        f.updated_items = 4;
        store.update_feed(&f, &[], None, false).unwrap();
    }
    let (feeds, ext) = store.get_feeds(Some(3));
    let order: Vec<i64> = feeds.iter().map(|f| f.feed_id.unwrap()).collect();
    assert_eq!(order, vec![2, 3, 1]);
    assert_eq!(feeds[1].updated_items, 0);
    assert_eq!(feeds[0].updated_items, 4);
    assert_eq!(ext.feed_update_revision, 1);
}

#[test]
fn set_seen_one_feed_or_all() {
    let mut store = Store::new();
    store.add_feed("a").unwrap();
    store.add_feed("b").unwrap();
    for id in [1, 2] {
        let mut f = feed_row(&mut store, id);
        f.updated_items = 3;
        store.update_feed(&f, &[], None, false).unwrap();
    }
    store.set_seen(Some(1));
    assert_eq!(feed_row(&mut store, 1).updated_items, 0);
    assert_eq!(feed_row(&mut store, 2).updated_items, 3);
    store.set_seen(None);
    assert_eq!(feed_row(&mut store, 2).updated_items, 0);
}

#[test]
fn set_seen_lets_collection_remove_items() {
    let mut store = Store::new();
    store.add_feed("a").unwrap();
    let f1 = feed_row(&mut store, 1);
    store.update_feed(&f1, &[item("x", None, "e", 5, false)], None, false).unwrap();
    store.update_feed(&f1, &[], Some(10), false).unwrap();
    assert_eq!(store.check_item_exists(&item("x", None, "e", 5, false)), Ok(ItemStatus::Exists));
    store.set_seen(Some(1));
    store.update_feed(&f1, &[], Some(10), false).unwrap();
    assert_eq!(store.check_item_exists(&item("x", None, "e", 5, false)), Ok(ItemStatus::New));
}

#[test]
fn init_keeps_items_of_stored_feeds() {
    let mut store = Store::new();
    store.add_feed("a").unwrap();
    let f1 = feed_row(&mut store, 1);
    store.update_feed(&f1, &[item("x", None, "e", 5, false)], None, false).unwrap();
    store.init();
    store.init();
    assert_eq!(store.check_item_exists(&item("x", None, "e", 5, false)), Ok(ItemStatus::Exists));
}

fn revision_row(id: &str, feed_item_id: &str, retrieved: i64, published: i64, seen: bool) -> Item {
    let mut it = item(id, None, feed_item_id, published, seen);
    it.retrieved = retrieved;
    it
}

#[test]
fn get_feed_items_groups_revisions_and_marks_seen() {
    let mut store = Store::new();
    store.add_feed("a").unwrap();
    store.add_feed("b").unwrap();
    let f1 = feed_row(&mut store, 1);
    let f2 = feed_row(&mut store, 2);
    store
        .update_feed(
            &f1,
            &[
                revision_row("a1", "A", 10, 100, true),
                revision_row("a2", "A", 20, 150, false),
                revision_row("b1", "B", 15, 300, false),
            ],
            None,
            false,
        )
        .unwrap();
    store.update_feed(&f2, &[revision_row("c1", "C", 5, 500, false)], None, false).unwrap();
    let groups = store.get_feed_items(1);
    assert_eq!(groups.len(), 2);
    assert_eq!(groups[0].0.item_id, Some("b1".to_string()));
    assert_eq!(groups[0].1.count, 1);
    assert!(!groups[0].1.any_seen);
    assert_eq!(groups[1].0.item_id, Some("a2".to_string()));
    assert_eq!(groups[1].1.count, 2);
    assert!(groups[1].1.any_seen);
    assert!(!groups[1].1.all_seen);
    // a second listing sees everything as seen, feed 2 untouched
    let again = store.get_feed_items(1);
    assert!(again.iter().all(|(it, ext)| it.seen && ext.all_seen));
    let other = store.get_feed_items(2);
    assert_eq!(other.len(), 1);
    assert!(!other[0].0.seen);
}

#[test]
fn get_feed_items_by_item_id_lists_history_newest_first() {
    let mut store = Store::new();
    store.add_feed("a").unwrap();
    let f1 = feed_row(&mut store, 1);
    let mut f1b = f1.clone();
    f1b.updated_items = 5;
    store
        .update_feed(
            &f1b,
            &[
                revision_row("a1", "A", 10, 100, false),
                revision_row("b1", "B", 12, 100, false),
                revision_row("a2", "A", 30, 150, false),
                revision_row("a3", "A", 20, 150, false),
            ],
            None,
            false,
        )
        .unwrap();
    let hist = store.get_feed_items_by_item_id(1, "a1");
    let ids: Vec<String> = hist.iter().map(|i| i.item_id.clone().unwrap()).collect();
    assert_eq!(ids, vec!["a2", "a3", "a1"]);
    assert!(store.get_feed_items_by_item_id(1, "zz").is_empty());
    assert!(store.get_feed_items_by_item_id(1, "b1").iter().all(|i| i.seen));
    assert_eq!(feed_row(&mut store, 1).updated_items, 5);
}
