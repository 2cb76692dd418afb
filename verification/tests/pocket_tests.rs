//! Tests for the remote item domain: request URLs, normalization, the
//! timestamp parser and the retry rule.

use memory_jogger::error::Error;
use memory_jogger::pocket::{
    build_modify_actions_json, build_pocket_modify_url, build_pocket_retrieve_url, may_retry,
    parse_i64, status_from_remote_code, FetchOutcome, ModifyAction, PocketItem, PocketItemId,
    PocketItemStatus, PocketModifyItemRequest, PocketRetrieveItemRequest, PocketRetrieveItemState,
    RemotePocketItem, MAX_FETCH_ATTEMPTS,
};

fn base_request() -> PocketRetrieveItemRequest {
    PocketRetrieveItemRequest {
        consumer_key: "fake_consumer_key".to_string(),
        user_access_token: "fake_user_access_token".to_string(),
        count: None,
        offset: None,
        state: None,
        search: None,
        since: None,
    }
}

#[test]
fn test_build_pocket_retrieve_url_when_called_minimal_returns_correct_url() {
    let req = base_request();

    let actual_url = build_pocket_retrieve_url(&req);

    let expected_url = "https://getpocket.com/v3/get?consumer_key=fake_consumer_key&access_token=fake_user_access_token";
    let expected_url = url::Url::parse(expected_url).unwrap();
    assert_eq!(url::Url::parse(&actual_url).unwrap(), expected_url);
}

#[test]
fn test_build_pocket_retrieve_url_when_called_sync_params_returns_correct_url() {
    let mut req = base_request();
    req.count = Some(5);
    req.offset = Some(10);
    req.state = Some(PocketRetrieveItemState::All);

    let actual_url = build_pocket_retrieve_url(&req);

    let expected_url = "https://getpocket.com/v3/get?consumer_key=fake_consumer_key&access_token=fake_user_access_token&state=all&count=5&offset=10";
    let expected_url = url::Url::parse(expected_url).unwrap();
    assert_eq!(url::Url::parse(&actual_url).unwrap(), expected_url);
}

#[test]
fn test_build_pocket_retrieve_url_encodes_search_value() {
    let mut req = base_request();
    req.search = Some("rust & verus".to_string());

    let actual_url = build_pocket_retrieve_url(&req);

    assert_eq!(
        actual_url,
        "https://getpocket.com/v3/get?consumer_key=fake_consumer_key&access_token=fake_user_access_token&search=rust+%26+verus"
    );
}

fn raw_item(status: PocketItemStatus) -> RemotePocketItem {
    RemotePocketItem {
        item_id: "64966083".to_string(),
        given_url: Some("http://example.com/given".to_string()),
        resolved_url: Some("https://example.com/resolved".to_string()),
        given_title: Some("Given Title".to_string()),
        resolved_title: Some("Resolved Title".to_string()),
        status,
        excerpt: Some("An excerpt".to_string()),
        time_added: Some("1363453123".to_string()),
    }
}

#[test]
fn test_normalize_prefers_resolved_title_and_url() {
    let item = PocketItem::from_remote(raw_item(PocketItemStatus::Unread)).unwrap();
    match item {
        PocketItem::Unread {
            id,
            title,
            excerpt,
            url,
            time_added,
        } => {
            assert_eq!(id.0, "64966083");
            assert_eq!(title, "Resolved Title");
            assert_eq!(excerpt, "An excerpt");
            assert_eq!(url, "https://example.com/resolved");
            assert_eq!(time_added, 1363453123);
        }
        PocketItem::ArchivedOrDeleted { .. } => panic!("expected a live item"),
    }
}

#[test]
fn test_normalize_title_falls_back_to_given_title() {
    let mut raw = raw_item(PocketItemStatus::Unread);
    raw.resolved_title = Some("".to_string());
    raw.given_title = Some("Foo".to_string());
    let item = PocketItem::from_remote(raw).unwrap();
    match item {
        PocketItem::Unread { title, .. } => assert_eq!(title, "Foo"),
        PocketItem::ArchivedOrDeleted { .. } => panic!("expected a live item"),
    }
}

#[test]
fn test_normalize_title_falls_back_to_url_when_titles_empty() {
    let mut raw = raw_item(PocketItemStatus::Unread);
    raw.resolved_title = Some("".to_string());
    raw.given_title = Some("".to_string());
    raw.resolved_url = Some("".to_string());
    raw.given_url = Some("http://example.com/given".to_string());
    let item = PocketItem::from_remote(raw).unwrap();
    match item {
        PocketItem::Unread { title, url, .. } => {
            assert_eq!(title, "http://example.com/given");
            assert_eq!(url, "http://example.com/given");
        }
        PocketItem::ArchivedOrDeleted { .. } => panic!("expected a live item"),
    }
}

#[test]
fn test_normalize_archived_record_becomes_removal_marker() {
    let item = PocketItem::from_remote(raw_item(PocketItemStatus::Archived)).unwrap();
    match item {
        PocketItem::ArchivedOrDeleted { id, status } => {
            assert_eq!(id.0, "64966083");
            assert_eq!(status, PocketItemStatus::Archived);
        }
        PocketItem::Unread { .. } => panic!("expected a removal marker"),
    }
}

#[test]
fn test_normalize_missing_time_added_fails() {
    let mut raw = raw_item(PocketItemStatus::Unread);
    raw.time_added = None;
    let r = PocketItem::from_remote(raw);
    assert!(matches!(r, Err(Error::Deserialization(_))));
}

#[test]
fn test_normalize_unparsable_time_added_fails() {
    let mut raw = raw_item(PocketItemStatus::Unread);
    raw.time_added = Some("not-a-number".to_string());
    let r = PocketItem::from_remote(raw);
    assert!(matches!(r, Err(Error::Deserialization(_))));
}

#[test]
fn test_parse_i64_accepts_plain_signed_and_extreme_values() {
    assert_eq!(parse_i64("1583723171").unwrap(), 1583723171);
    assert_eq!(parse_i64("-5").unwrap(), -5);
    assert_eq!(parse_i64("+7").unwrap(), 7);
    assert_eq!(parse_i64("0").unwrap(), 0);
    assert_eq!(parse_i64("9223372036854775807").unwrap(), i64::MAX);
    assert_eq!(parse_i64("-9223372036854775808").unwrap(), i64::MIN);
}

#[test]
fn test_parse_i64_rejects_empty_malformed_and_overflowing_values() {
    assert!(parse_i64("").is_err());
    assert!(parse_i64("-").is_err());
    assert!(parse_i64("12a").is_err());
    assert!(parse_i64(" 12").is_err());
    assert!(parse_i64("9223372036854775808").is_err());
    assert!(parse_i64("-9223372036854775809").is_err());
}

#[test]
fn test_status_from_remote_code_maps_all_codes() {
    assert_eq!(status_from_remote_code("0").unwrap(), PocketItemStatus::Unread);
    assert_eq!(status_from_remote_code("1").unwrap(), PocketItemStatus::Archived);
    assert_eq!(status_from_remote_code("2").unwrap(), PocketItemStatus::Deleted);
    assert!(matches!(
        status_from_remote_code("3"),
        Err(Error::Deserialization(_))
    ));
}

#[test]
fn test_may_retry_only_timeouts_within_budget() {
    assert!(may_retry(1, FetchOutcome::TimedOut));
    assert!(may_retry(MAX_FETCH_ATTEMPTS - 1, FetchOutcome::TimedOut));
    assert!(!may_retry(MAX_FETCH_ATTEMPTS, FetchOutcome::TimedOut));
    assert!(!may_retry(1, FetchOutcome::Failed));
    assert!(!may_retry(1, FetchOutcome::Success));
}

#[test]
fn test_build_modify_actions_json_single_action() {
    let actions = vec![ModifyAction::Archive {
        item_id: PocketItemId::new("123".to_string()),
    }];
    assert_eq!(
        build_modify_actions_json(&actions),
        r#"[{"action":"archive","item_id":"123"}]"#
    );
}

#[test]
fn test_build_modify_actions_json_escapes_and_joins() {
    let actions = vec![
        ModifyAction::Delete {
            item_id: PocketItemId::new("a\"b\\c".to_string()),
        },
        ModifyAction::Favorite {
            item_id: PocketItemId::new("x\ny".to_string()),
        },
    ];
    assert_eq!(
        build_modify_actions_json(&actions),
        "[{\"action\":\"delete\",\"item_id\":\"a\\\"b\\\\c\"},{\"action\":\"favorite\",\"item_id\":\"x\\ny\"}]"
    );
}

#[test]
fn test_build_pocket_modify_url_form_encodes_action_list() {
    let req = PocketModifyItemRequest {
        consumer_key: "ck".to_string(),
        user_access_token: "at".to_string(),
        actions: vec![ModifyAction::Archive {
            item_id: PocketItemId::new("123".to_string()),
        }],
    };

    let actual_url = build_pocket_modify_url(&req);

    let expected_url = url::Url::parse_with_params(
        "https://getpocket.com/v3/send",
        &[
            ("consumer_key", "ck"),
            ("access_token", "at"),
            ("actions", r#"[{"action":"archive","item_id":"123"}]"#),
        ],
    )
    .unwrap();
    assert_eq!(url::Url::parse(&actual_url).unwrap(), expected_url);
}
