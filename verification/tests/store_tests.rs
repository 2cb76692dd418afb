//! Tests for the user rows and the remaining storage port operations.

use memory_jogger::data_store::{DataStore, MemoryDataStore, UpsertSavedItem};
use memory_jogger::error::Error;
use memory_jogger::pocket::PocketItemId;

#[test]
fn test_create_user_assigns_fresh_ids_and_fields() {
    let mut store = MemoryDataStore::new();
    let a = store.create_user("a@example.com", Some("tok")).unwrap();
    let b = store.create_user("b@example.com", None).unwrap();

    assert_eq!(a.id(), 1);
    assert_eq!(b.id(), 2);
    assert_eq!(a.email(), "a@example.com");
    assert_eq!(a.pocket_access_token(), Some("tok".to_string()));
    assert_eq!(a.last_pocket_sync_time(), None);
    assert_eq!(b.pocket_access_token(), None);
}

#[test]
fn test_get_user_miss_is_not_found() {
    let mut store = MemoryDataStore::new();
    assert!(matches!(store.get_user(9), Err(Error::NotFound(_))));
}

#[test]
fn test_update_user_changes_only_given_fields() {
    let mut store = MemoryDataStore::new();
    let u = store.create_user("a@example.com", Some("tok")).unwrap();

    store.update_user(u.id(), Some("new@example.com"), None).unwrap();

    let after = store.get_user(u.id()).unwrap();
    assert_eq!(after.email(), "new@example.com");
    assert_eq!(after.pocket_access_token(), Some("tok".to_string()));
}

#[test]
fn test_update_user_miss_is_not_found() {
    let mut store = MemoryDataStore::new();
    assert!(matches!(
        store.update_user(3, Some("x@example.com"), None),
        Err(Error::NotFound(_))
    ));
}

#[test]
fn test_filter_users_returns_first_count_users() {
    let mut store = MemoryDataStore::new();
    for i in 0..4 {
        store.create_user(&format!("u{i}@example.com"), None).unwrap();
    }

    let two = store.filter_users(2).unwrap();
    assert_eq!(two.len(), 2);
    assert_eq!(two[0].email(), "u0@example.com");
    assert_eq!(two[1].email(), "u1@example.com");
    assert_eq!(store.filter_users(10).unwrap().len(), 4);
    assert_eq!(store.filter_users(-1).unwrap().len(), 0);
}

#[test]
fn test_delete_user_and_delete_all_users() {
    let mut store = MemoryDataStore::new();
    let a = store.create_user("a@example.com", None).unwrap();
    store.create_user("b@example.com", None).unwrap();

    store.delete_user(a.id()).unwrap();
    assert!(matches!(store.get_user(a.id()), Err(Error::NotFound(_))));
    assert!(matches!(store.delete_user(a.id()), Err(Error::NotFound(_))));

    store.delete_all_users().unwrap();
    assert_eq!(store.filter_users(10).unwrap().len(), 0);
}

#[test]
fn test_create_saved_item_rejects_duplicate_pair() {
    let mut store = MemoryDataStore::new();
    let u = store.create_user("a@example.com", None).unwrap();
    let pid = PocketItemId::new("p1".to_string());

    let item = store.create_saved_item(u.id(), &pid, "Title").unwrap();
    assert_eq!(item.title(), "Title");
    assert_eq!(item.user_id(), u.id());

    assert!(matches!(
        store.create_saved_item(u.id(), &pid, "Other"),
        Err(Error::Storage(_))
    ));
}

#[test]
fn test_get_item_finds_by_local_id() {
    let mut store = MemoryDataStore::new();
    let u = store.create_user("a@example.com", None).unwrap();
    let pid = PocketItemId::new("p1".to_string());
    let created = store.create_saved_item(u.id(), &pid, "Title").unwrap();

    let found = store.get_item(created.id()).unwrap().unwrap();
    assert_eq!(found.pocket_id().0, "p1");
    assert!(store.get_item(created.id() + 1).unwrap().is_none());
}

#[test]
fn test_get_random_item_none_for_empty_user() {
    let mut store = MemoryDataStore::new();
    let u = store.create_user("a@example.com", None).unwrap();
    assert!(store.get_random_item(u.id()).unwrap().is_none());

    let pid = PocketItemId::new("p1".to_string());
    store.create_saved_item(u.id(), &pid, "Title").unwrap();
    let got = store.get_random_item(u.id()).unwrap().unwrap();
    assert_eq!(got.user_id(), u.id());
}

#[test]
fn test_delete_all_removes_only_that_users_items() {
    let mut store = MemoryDataStore::new();
    let a = store.create_user("a@example.com", None).unwrap();
    let b = store.create_user("b@example.com", None).unwrap();
    for (owner, pid) in [(a.id(), "x"), (a.id(), "y"), (b.id(), "z")] {
        store
            .upsert_item(&UpsertSavedItem {
                user_id: owner,
                pocket_id: PocketItemId::new(pid.to_string()),
                title: pid.to_string(),
                excerpt: String::new(),
                url: String::new(),
                time_added: 0,
            })
            .unwrap();
    }

    store.delete_all(a.id()).unwrap();

    assert!(store.get_saved_items_by_user(a.id()).unwrap().is_empty());
    assert_eq!(store.get_saved_items_by_user(b.id()).unwrap().len(), 1);
}

#[test]
fn test_error_messages_name_their_kind() {
    assert_eq!(
        Error::RemoteAuth.message(),
        "user did not authorize application"
    );
    assert!(Error::TransportExhausted.message().contains("failed to connect"));
    assert!(Error::InvalidArgument("geo".to_string())
        .message()
        .starts_with("invalid argument: "));
    assert!(Error::NotFound("user".to_string())
        .message()
        .starts_with("not found: "));
    assert!(Error::Storage("dup".to_string())
        .message()
        .starts_with("storage error: "));
    assert!(Error::Deserialization("body".to_string())
        .message()
        .starts_with("failed to deserialize payload: "));
}

#[test]
fn test_create_user_rejects_duplicate_email() {
    let mut store = MemoryDataStore::new();
    store.create_user("a@example.com", None).unwrap();

    let r = store.create_user("a@example.com", Some("tok"));

    assert!(matches!(r, Err(Error::Storage(_))));
    assert_eq!(store.filter_users(10).unwrap().len(), 1);
}
