//! Tests for the relevance index: scoring scenarios, zero-score filtering
//! and the fixed-point weight.

use memory_jogger::data_store::{DataStore, MemoryDataStore, SavedItem, UpsertSavedItem};
use memory_jogger::relevance::{keyword_scores, lg10_fixed, rank_items_by_keyword, LOG_SCALE};
use memory_jogger::pocket::PocketItemId;

fn store_with_titles(titles: &[&str]) -> (MemoryDataStore, i32) {
    let mut store = MemoryDataStore::new();
    let user = store.create_user("a@example.com", None).unwrap();
    for (i, title) in titles.iter().enumerate() {
        store
            .upsert_item(&UpsertSavedItem {
                user_id: user.id(),
                pocket_id: PocketItemId::new(format!("p{i}")),
                title: title.to_string(),
                excerpt: String::new(),
                url: String::new(),
                time_added: i as i64,
            })
            .unwrap();
    }
    (store, user.id())
}

fn items_of(store: &mut MemoryDataStore, uid: i32) -> Vec<SavedItem> {
    store.get_saved_items_by_user(uid).unwrap()
}

#[test]
fn test_tfidf_three_titles_rust_query_scores() {
    // With three items and the term in two of them, the smoothed weight is
    // log10(3 / (1 + 2)) = 0, so every score is zero and nothing ranks.
    let (mut store, uid) = store_with_titles(&["rust language", "python language", "rust compiler"]);
    let items = items_of(&mut store, uid);

    let scores = keyword_scores(&items, "rust");
    assert_eq!(scores, vec![0, 0, 0]);
    // Items containing the term never score below the one that does not.
    assert!(scores[0] >= scores[1]);
    assert!(scores[2] >= scores[1]);

    let ranked = store.get_items_by_keyword(uid, "rust").unwrap();
    assert!(ranked.is_empty());
}

#[test]
fn test_tfidf_rarer_term_ranks_single_match_first() {
    let (mut store, uid) = store_with_titles(&["alpha beta", "gamma", "delta"]);

    let ranked = store.get_items_by_keyword(uid, "alpha").unwrap();

    assert_eq!(ranked.len(), 1);
    assert_eq!(ranked[0].title(), "alpha beta");
}

#[test]
fn test_tfidf_higher_frequency_ranks_first() {
    let (mut store, uid) = store_with_titles(&["cat cat cat toy", "cat nap", "dog", "fish"]);

    let ranked = store.get_items_by_keyword(uid, "cat").unwrap();

    assert_eq!(ranked.len(), 2);
    assert_eq!(ranked[0].title(), "cat cat cat toy");
    assert_eq!(ranked[1].title(), "cat nap");
}

#[test]
fn test_tfidf_keyword_matching_nothing_returns_empty_result() {
    let (mut store, uid) = store_with_titles(&["rust language", "python language"]);

    let ranked = store.get_items_by_keyword(uid, "quantum").unwrap();

    assert!(ranked.is_empty());
}

#[test]
fn test_tfidf_empty_keyword_returns_empty_result() {
    let (mut store, uid) = store_with_titles(&["rust language"]);

    let ranked = store.get_items_by_keyword(uid, "").unwrap();

    assert!(ranked.is_empty());
}

#[test]
fn test_tfidf_empty_store_returns_empty_result() {
    let mut store = MemoryDataStore::new();
    let user = store.create_user("a@example.com", None).unwrap();

    let ranked = store.get_items_by_keyword(user.id(), "anything").unwrap();

    assert!(ranked.is_empty());
}

#[test]
fn test_matching_is_case_folded_both_ways() {
    let (mut store, uid) = store_with_titles(&["Rust Language", "python", "haskell"]);
    let items = items_of(&mut store, uid);

    // The query is upper-case and the title mixed-case; both sides fold.
    let ranked = rank_items_by_keyword(&items, "RUST");

    assert_eq!(ranked.len(), 1);
    assert_eq!(ranked[0].title(), "Rust Language");
}

#[test]
fn test_matching_splits_on_any_whitespace() {
    let (mut store, uid) = store_with_titles(&["rust\tlanguage  today", "python", "go"]);
    let items = items_of(&mut store, uid);

    let ranked = rank_items_by_keyword(&items, "language");

    assert_eq!(ranked.len(), 1);
    assert_eq!(ranked[0].title(), "rust\tlanguage  today");
}

#[test]
fn test_url_matches_count_as_substrings() {
    let mut store = MemoryDataStore::new();
    let user = store.create_user("a@example.com", None).unwrap();
    let uid = user.id();
    store
        .upsert_item(&UpsertSavedItem {
            user_id: uid,
            pocket_id: PocketItemId::new("u1".to_string()),
            title: "a post".to_string(),
            excerpt: String::new(),
            url: "https://rust-lang.org/rust".to_string(),
            time_added: 0,
        })
        .unwrap();
    store
        .upsert_item(&UpsertSavedItem {
            user_id: uid,
            pocket_id: PocketItemId::new("u2".to_string()),
            title: "another".to_string(),
            excerpt: String::new(),
            url: String::new(),
            time_added: 0,
        })
        .unwrap();
    store
        .upsert_item(&UpsertSavedItem {
            user_id: uid,
            pocket_id: PocketItemId::new("u3".to_string()),
            title: "third".to_string(),
            excerpt: String::new(),
            url: String::new(),
            time_added: 0,
        })
        .unwrap();

    let ranked = store.get_items_by_keyword(uid, "rust").unwrap();

    assert_eq!(ranked.len(), 1);
    assert_eq!(ranked[0].title(), "a post");

    let items = items_of(&mut store, uid);
    let scores = keyword_scores(&items, "rust");
    // Two substring hits in the URL, none elsewhere; weight log10(3/2) > 0.
    assert!(scores[0] > 0);
    assert_eq!(scores[1], 0);
    assert_eq!(scores[2], 0);
}

#[test]
fn test_excerpt_tokens_count_toward_frequency() {
    let mut store = MemoryDataStore::new();
    let user = store.create_user("a@example.com", None).unwrap();
    let uid = user.id();
    for (i, excerpt) in ["about borrowing", "", ""].iter().enumerate() {
        store
            .upsert_item(&UpsertSavedItem {
                user_id: uid,
                pocket_id: PocketItemId::new(format!("e{i}")),
                title: format!("item {i}"),
                excerpt: excerpt.to_string(),
                url: String::new(),
                time_added: 0,
            })
            .unwrap();
    }

    let ranked = store.get_items_by_keyword(uid, "borrowing").unwrap();

    assert_eq!(ranked.len(), 1);
    assert_eq!(ranked[0].pocket_id().0, "e0");
}

#[test]
fn test_lg10_fixed_exact_at_powers_of_ten() {
    assert_eq!(lg10_fixed(1, 1), 0);
    assert_eq!(lg10_fixed(10, 1), LOG_SCALE as i64);
    assert_eq!(lg10_fixed(100, 1), 2 * LOG_SCALE as i64);
    assert_eq!(lg10_fixed(1, 10), -(LOG_SCALE as i64));
    assert_eq!(lg10_fixed(5, 5), 0);
}

#[test]
fn test_lg10_fixed_sign_is_exact_near_one() {
    assert!(lg10_fixed(1000001, 1000000) > 0);
    assert!(lg10_fixed(1000000, 1000001) < 0);
    // log10(2) ~= 0.30103; in units of 2^-20 that is about 315653.
    let two = lg10_fixed(2, 1);
    assert!(315600 < two && two < 315700);
}
