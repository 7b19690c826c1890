//! The records the store holds and the outcome of classifying an entry.

use vstd::prelude::*;

verus! {

/// One subscribed source. Timestamps are seconds since the Unix epoch.
#[derive(Clone, Debug)]
pub struct Feed {
    pub feed_id: Option<i64>,
    pub href: String,
    pub title: String,
    pub last_retrieval: i64,
    pub next_retrieval: i64,
    pub last_activity: i64,
    pub disabled: bool,
    pub updated_items: i64,
}

impl Feed {
    /// A field-by-field copy.
    pub fn duplicate(&self) -> (r: Feed)
        ensures
            r == *self,
    {
        Feed {
            feed_id: self.feed_id,
            href: self.href.clone(),
            title: self.title.clone(),
            last_retrieval: self.last_retrieval,
            next_retrieval: self.next_retrieval,
            last_activity: self.last_activity,
            disabled: self.disabled,
            updated_items: self.updated_items,
        }
    }
}

/// Extra information returned beside the list of feeds.
#[derive(Clone, Copy, Debug, PartialEq, Eq)]
pub struct FeedsExt {
    pub feed_update_revision: i64,
}

/// One stored revision of one entry of a feed.
#[derive(Clone, Debug)]
pub struct Item {
    pub item_id: Option<String>,
    pub feed_id: Option<i64>,
    pub retrieved: i64,
    pub seen: bool,
    pub author: String,
    pub title: String,
    pub feed_item_id: String,
    pub link: String,
    pub published: i64,
    pub summary: String,
}

impl Item {
    /// A field-by-field copy.
    pub fn duplicate(&self) -> (r: Item)
        ensures
            r == *self,
    {
        let item_id = match &self.item_id {
            Some(s) => Some(s.clone()),
            None => None,
        };
        Item {
            item_id,
            feed_id: self.feed_id,
            retrieved: self.retrieved,
            seen: self.seen,
            author: self.author.clone(),
            title: self.title.clone(),
            feed_item_id: self.feed_item_id.clone(),
            link: self.link.clone(),
            published: self.published,
            summary: self.summary.clone(),
        }
    }
}

/// Aggregate information on all stored revisions of one remote entry.
#[derive(Clone, Copy, Debug, PartialEq, Eq)]
pub struct ItemExt {
    pub count: i64,
    pub any_seen: bool,
    pub all_seen: bool,
}

/// How an incoming entry relates to what is stored.
#[derive(Clone, Copy, PartialEq, Eq, Debug, Structural)]
pub enum ItemStatus {
    /// No stored row shares the entry's remote identifier.
    New,
    /// Rows share the remote identifier, none the content identifier.
    Updated,
    /// A stored row has the same content identifier.
    Exists,
}

/// Why the store refused an operation. Every refusal leaves the store as it
/// was.
#[derive(Clone, Copy, PartialEq, Eq, Debug, Structural)]
pub enum StoreError {
    /// The feed to update carries no identifier.
    NoFeedId,
    /// No stored feed has the identifier of the feed to update.
    UnknownFeed,
    /// An item to insert or classify carries no content identifier.
    NoItemId,
    /// An item to insert names a feed other than the one being updated.
    FeedIdMismatch,
    /// An item to insert has a content identifier that is already taken.
    DuplicateItemId,
    /// The identifier space of feeds is used up.
    FeedIdsExhausted,
    /// The revision counter is at its largest value.
    RevisionOverflow,
}

/// The classification rule, from whether a stored row shares the remote
/// identifier and whether one shares the content identifier: an entry whose
/// remote identifier is unknown is new; a known one is an edit unless its
/// content identifier is stored too.
pub open spec fn status_of(remote_id_known: bool, content_id_known: bool) -> ItemStatus {
    if !remote_id_known {
        ItemStatus::New
    } else if !content_id_known {
        ItemStatus::Updated
    } else {
        ItemStatus::Exists
    }
}

/// Classifies an entry from the number of stored rows that share its remote
/// identifier and the number that share its content identifier.
pub fn classify_counts(feed_item_id_count: i64, item_id_count: i64) -> (r: ItemStatus)
    ensures
        r == status_of(feed_item_id_count != 0, item_id_count != 0),
{
    if feed_item_id_count == 0 {
        ItemStatus::New
    } else if item_id_count == 0 {
        ItemStatus::Updated
    } else {
        ItemStatus::Exists
    }
}

} // verus!
