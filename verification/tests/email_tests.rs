//! Tests for the digest rendering, fallback URLs and the store listing
//! operations they draw on.

use memory_jogger::data_store::{
    DataStore, GetSavedItemsQuery, MemoryDataStore, SavedItemSort, UpsertSavedItem,
};
use memory_jogger::email::{
    build_mail_send_url, get_email_body, get_pocket_fallback_url, get_pocket_url, Mail,
    SendGridAPIClient,
};
use memory_jogger::error::Error;
use memory_jogger::pocket::PocketItemId;
use memory_jogger::trends::{Trend, TrendingSearch, TrendingSearchTitle};

#[test]
fn test_build_mail_send_url_returns_nonempty_string() {
    let url = build_mail_send_url();
    assert!(!url.as_str().is_empty());
}

#[test]
fn test_pocket_fallback_url_returns_percent_encoded_query() {
    // Note embedded double quotes and special quotes in `item_title`
    let item_title = "C++Now 2017: Bryce Lelbach \u{201c}C++17 Features\"";

    let actual_url = get_pocket_fallback_url(item_title);

    let expected_url = "https://app.getpocket.com/search/C++Now%202017:%20Bryce%20Lelbach%20%E2%80%9CC++17%20Features%22";
    let expected_url = url::Url::parse(expected_url).unwrap();
    assert_eq!(url::Url::parse(&actual_url).unwrap(), expected_url);
}

#[test]
fn test_sendgrid_client_keeps_key() {
    let client = SendGridAPIClient::new("SECRET-REDACTED".to_string());
    assert_eq!(client.sendgrid_api_key, "SECRET-REDACTED");
}

#[test]
fn test_mail_render_layout() {
    let mail = Mail {
        from_email: "from@example.com".to_string(),
        to_email: "to@example.com".to_string(),
        subject: "Digest".to_string(),
        html_content: "<b>hi</b>".to_string(),
    };
    assert_eq!(
        mail.render(),
        "From: from@example.com\nTo: to@example.com\nSubject: Digest\n\n<b>hi</b>"
    );
}

fn sample_store() -> (MemoryDataStore, i32) {
    let mut store = MemoryDataStore::new();
    let user = store.create_user("a@example.com", None).unwrap();
    for (i, (title, time)) in [("Oldest", 1), ("Newest", 9), ("Middle", 5)].iter().enumerate() {
        store
            .upsert_item(&UpsertSavedItem {
                user_id: user.id(),
                pocket_id: PocketItemId::new(format!("m{i}")),
                title: title.to_string(),
                excerpt: String::new(),
                url: String::new(),
                time_added: *time,
            })
            .unwrap();
    }
    (store, user.id())
}

#[test]
fn test_get_items_sorted_by_time_added_oldest_first() {
    let (mut store, uid) = sample_store();

    let items = store
        .get_items(&GetSavedItemsQuery {
            user_id: uid,
            sort_by: Some(SavedItemSort::TimeAdded),
            count: Some(3),
        })
        .unwrap();

    let titles: Vec<String> = items.iter().map(|it| it.title()).collect();
    assert_eq!(titles, vec!["Oldest", "Middle", "Newest"]);
}

#[test]
fn test_get_items_negative_count_is_rejected() {
    let (mut store, uid) = sample_store();

    let r = store.get_items(&GetSavedItemsQuery {
        user_id: uid,
        sort_by: None,
        count: Some(-1),
    });

    assert!(matches!(r, Err(Error::InvalidArgument(_))));
}

#[test]
fn test_get_email_body_with_relevant_items() {
    let (mut store, uid) = sample_store();
    let items = store.get_saved_items_by_user(uid).unwrap();
    let trend = Trend::from(TrendingSearch {
        title: TrendingSearchTitle {
            query: "Topic".to_string(),
            explore_link: "/t".to_string(),
        },
    });
    let first = items[0].duplicate();
    let expected_entry = format!(
        r#"<li><a href="{}">Oldest</a> (<a href="{}">Fallback</a>)</li>"#,
        get_pocket_url(&first),
        get_pocket_fallback_url("Oldest"),
    );

    let body = get_email_body(&vec![(trend, vec![first])], &Vec::new());

    assert_eq!(
        body,
        format!(
            r#"<b>Timely items from your Pocket:</b><ol><li><a href="https://trends.google.com/t">Trend: Topic</a><ol>{expected_entry}</ol></li></ol>"#
        )
    );
}

#[test]
fn test_get_email_body_with_no_relevant_items_lists_fallback() {
    let (mut store, uid) = sample_store();
    let fallback = store
        .get_items(&GetSavedItemsQuery {
            user_id: uid,
            sort_by: Some(SavedItemSort::TimeAdded),
            count: Some(1),
        })
        .unwrap();

    let body = get_email_body(&Vec::new(), &fallback);

    assert!(body.starts_with(
        "<b>Timely items from your Pocket:</b>Nothing relevant found in your Pocket"
    ));
    assert!(body.contains(">Oldest</a>"));
    assert!(body.ends_with("</ol>"));
}

#[test]
fn test_get_pocket_url_appends_remote_id() {
    let (mut store, uid) = sample_store();
    let item = store.get_saved_items_by_user(uid).unwrap()[0].duplicate();
    assert_eq!(get_pocket_url(&item), "https://app.getpocket.com/read/m0");
}

#[test]
fn test_select_digest_items_caps_per_trend_and_total() {
    let (mut store, uid) = sample_store();
    let items = store.get_saved_items_by_user(uid).unwrap();
    let mk_trend = |name: &str| {
        Trend::from(TrendingSearch {
            title: TrendingSearchTitle {
                query: name.to_string(),
                explore_link: format!("/{name}"),
            },
        })
    };
    let three = || items.iter().map(|it| it.duplicate()).collect::<Vec<_>>();

    let selected = memory_jogger::email::select_digest_items(vec![
        (mk_trend("a"), three()),
        (mk_trend("skip"), Vec::new()),
        (mk_trend("b"), three()),
        (mk_trend("c"), three()),
        (mk_trend("never"), three()),
    ]);

    // Each kept trend holds its first two items; past four total items the
    // walk stops, so the trend after the overflow never appears.
    assert_eq!(selected.len(), 3);
    assert_eq!(selected[0].0.name(), "a");
    assert_eq!(selected[0].1.len(), 2);
    assert_eq!(selected[0].1[0].title(), "Oldest");
    assert_eq!(selected[1].0.name(), "b");
    assert_eq!(selected[2].0.name(), "c");
    assert_eq!(selected[2].1.len(), 2);
}
