//! Tests for the synchronization engine: idempotent reconciliation,
//! watermark commit rules, pagination termination and archived-item
//! handling.

use memory_jogger::data_store::{DataStore, MemoryDataStore, UpsertSavedItem};
use memory_jogger::error::Error;
use memory_jogger::pocket::{PocketItem, PocketItemId, PocketItemStatus, PocketPage};
use memory_jogger::{SavedItemMediator, ScriptedRemote};

fn live_item(id: &str, title: &str) -> PocketItem {
    PocketItem::Unread {
        id: PocketItemId::new(id.to_string()),
        title: title.to_string(),
        excerpt: String::new(),
        url: String::new(),
        time_added: 1363453123,
    }
}

fn full_page(prefix: &str, since: i64) -> PocketPage {
    let mut items = Vec::new();
    for i in 0..100 {
        items.push(live_item(&format!("{prefix}{i}"), &format!("title {i}")));
    }
    PocketPage { items, since }
}

fn upsert(user_id: i32, pocket_id: &str, title: &str) -> UpsertSavedItem {
    UpsertSavedItem {
        user_id,
        pocket_id: PocketItemId::new(pocket_id.to_string()),
        title: title.to_string(),
        excerpt: "e".to_string(),
        url: "u".to_string(),
        time_added: 42,
    }
}

#[test]
fn test_upsert_twice_with_identical_fields_stores_one_row() {
    let mut store = MemoryDataStore::new();
    let user = store.create_user("a@example.com", None).unwrap();
    let u = upsert(user.id(), "p1", "One");

    store.upsert_item(&u).unwrap();
    store.upsert_item(&u).unwrap();

    let items = store.get_saved_items_by_user(user.id()).unwrap();
    assert_eq!(items.len(), 1);
    assert_eq!(items[0].title(), "One");
    assert_eq!(items[0].pocket_id().0, "p1");
}

#[test]
fn test_upsert_same_pair_updates_in_place() {
    let mut store = MemoryDataStore::new();
    let user = store.create_user("a@example.com", None).unwrap();
    store.upsert_item(&upsert(user.id(), "p1", "Old")).unwrap();
    let first_id = store.get_saved_items_by_user(user.id()).unwrap()[0].id();

    store.upsert_item(&upsert(user.id(), "p1", "New")).unwrap();

    let items = store.get_saved_items_by_user(user.id()).unwrap();
    assert_eq!(items.len(), 1);
    assert_eq!(items[0].title(), "New");
    assert_eq!(items[0].id(), first_id);
}

#[test]
fn test_delete_item_that_was_never_stored_succeeds() {
    let mut store = MemoryDataStore::new();
    let user = store.create_user("a@example.com", None).unwrap();

    let r = store.delete_item(user.id(), &PocketItemId::new("absent".to_string()));

    assert!(r.is_ok());
    assert!(store.get_saved_items_by_user(user.id()).unwrap().is_empty());
}

#[test]
fn test_sync_persists_last_page_watermark() {
    let mut store = MemoryDataStore::new();
    let user = store.create_user("a@example.com", Some("tok")).unwrap();
    let uid = user.id();
    let pages = vec![
        full_page("a", 10),
        PocketPage {
            items: vec![live_item("b0", "late")],
            since: 20,
        },
    ];
    let mut med = SavedItemMediator::new(ScriptedRemote::new(pages), store);

    med.sync(uid).unwrap();

    let synced = med.data_store.get_user(uid).unwrap();
    assert_eq!(synced.last_pocket_sync_time(), Some(20));
    assert_eq!(med.data_store.get_saved_items_by_user(uid).unwrap().len(), 101);
}

#[test]
fn test_sync_interrupted_before_last_page_keeps_old_watermark() {
    let mut store = MemoryDataStore::new();
    let user = store.create_user("a@example.com", Some("tok")).unwrap();
    let uid = user.id();
    store
        .update_user_last_pocket_sync_time(uid, Some(5))
        .unwrap();
    // The first page is full, so the engine asks for a second page that the
    // session cannot serve: the sync fails mid-pagination.
    let pages = vec![full_page("a", 10)];
    let mut med = SavedItemMediator::new(ScriptedRemote::new(pages), store);

    let r = med.sync(uid);

    assert!(matches!(r, Err(Error::TransportExhausted)));
    let after = med.data_store.get_user(uid).unwrap();
    assert_eq!(after.last_pocket_sync_time(), Some(5));
    // Page one was applied durably; only the watermark stayed put.
    assert_eq!(med.data_store.get_saved_items_by_user(uid).unwrap().len(), 100);
}

#[test]
fn test_sync_short_final_page_stops_after_two_fetches() {
    let mut store = MemoryDataStore::new();
    let user = store.create_user("a@example.com", Some("tok")).unwrap();
    let uid = user.id();
    // 199 items across two pages: the 99-item page ends the loop, so a
    // session holding exactly two pages suffices.
    let mut second = full_page("b", 20);
    second.items.truncate(99);
    let pages = vec![full_page("a", 10), second];
    let mut med = SavedItemMediator::new(ScriptedRemote::new(pages), store);

    med.sync(uid).unwrap();

    assert_eq!(med.data_store.get_saved_items_by_user(uid).unwrap().len(), 199);
    assert_eq!(
        med.data_store.get_user(uid).unwrap().last_pocket_sync_time(),
        Some(20)
    );
}

#[test]
fn test_sync_two_exactly_full_pages_needs_a_third_empty_page() {
    let mut store = MemoryDataStore::new();
    let user = store.create_user("a@example.com", Some("tok")).unwrap();
    let uid = user.id();
    // With exactly 200 items the engine cannot know page two was the last,
    // so it fetches a third, empty page whose watermark wins.
    let pages = vec![
        full_page("a", 10),
        full_page("b", 20),
        PocketPage {
            items: Vec::new(),
            since: 30,
        },
    ];
    let mut med = SavedItemMediator::new(ScriptedRemote::new(pages), store);

    med.sync(uid).unwrap();

    assert_eq!(med.data_store.get_saved_items_by_user(uid).unwrap().len(), 200);
    assert_eq!(
        med.data_store.get_user(uid).unwrap().last_pocket_sync_time(),
        Some(30)
    );
}

#[test]
fn test_sync_deletes_archived_item_that_was_stored() {
    let mut store = MemoryDataStore::new();
    let user = store.create_user("a@example.com", Some("tok")).unwrap();
    let uid = user.id();
    store.upsert_item(&upsert(uid, "gone", "Soon gone")).unwrap();
    store.upsert_item(&upsert(uid, "kept", "Kept")).unwrap();
    let pages = vec![PocketPage {
        items: vec![PocketItem::ArchivedOrDeleted {
            id: PocketItemId::new("gone".to_string()),
            status: PocketItemStatus::Archived,
        }],
        since: 99,
    }];
    let mut med = SavedItemMediator::new(ScriptedRemote::new(pages), store);

    med.sync(uid).unwrap();

    let items = med.data_store.get_saved_items_by_user(uid).unwrap();
    assert_eq!(items.len(), 1);
    assert_eq!(items[0].pocket_id().0, "kept");
}

#[test]
fn test_sync_missing_user_is_not_found() {
    let store = MemoryDataStore::new();
    let mut med = SavedItemMediator::new(ScriptedRemote::new(Vec::new()), store);

    let r = med.sync(7);

    assert!(matches!(r, Err(Error::NotFound(_))));
}

#[test]
fn test_favorite_missing_item_is_not_found_and_reaches_no_remote() {
    let store = MemoryDataStore::new();
    let mut med = SavedItemMediator::new(ScriptedRemote::new(Vec::new()), store);

    let r = med.favorite(3);

    assert!(matches!(r, Err(Error::NotFound(_))));
}

#[test]
fn test_delete_reflects_remote_removal_locally() {
    let mut store = MemoryDataStore::new();
    let user = store.create_user("a@example.com", Some("tok")).unwrap();
    let uid = user.id();
    store.upsert_item(&upsert(uid, "r1", "Row")).unwrap();
    let local_id = store.get_saved_items_by_user(uid).unwrap()[0].id();
    // After the remote delete is accepted, the engine re-syncs; the session
    // then reports the item as deleted.
    let pages = vec![PocketPage {
        items: vec![PocketItem::ArchivedOrDeleted {
            id: PocketItemId::new("r1".to_string()),
            status: PocketItemStatus::Deleted,
        }],
        since: 50,
    }];
    let mut med = SavedItemMediator::new(ScriptedRemote::new(pages), store);

    med.delete(uid, local_id).unwrap();

    assert!(med.data_store.get_saved_items_by_user(uid).unwrap().is_empty());
    assert_eq!(
        med.data_store.get_user(uid).unwrap().last_pocket_sync_time(),
        Some(50)
    );
}

#[test]
fn test_archive_missing_item_is_not_found_and_reaches_no_remote() {
    let mut store = MemoryDataStore::new();
    let user = store.create_user("a@example.com", Some("tok")).unwrap();
    let uid = user.id();
    let mut med = SavedItemMediator::new(ScriptedRemote::new(Vec::new()), store);

    let r = med.archive(uid, 42);

    assert!(matches!(r, Err(Error::NotFound(_))));
    assert!(med.data_store.get_saved_items_by_user(uid).unwrap().is_empty());
}

#[test]
fn test_delete_missing_item_is_not_found_and_reaches_no_remote() {
    let store = MemoryDataStore::new();
    let mut med = SavedItemMediator::new(ScriptedRemote::new(Vec::new()), store);

    let r = med.delete(1, 42);

    assert!(matches!(r, Err(Error::NotFound(_))));
}
