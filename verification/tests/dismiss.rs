//! The dismissed mentions.
use prtop::dismiss::{contains_mention, dismissals_of, parse_pr_id, parse_store, DismissStore};
use prtop::ids::IdSet;
use prtop::timestamp::Timestamp;
use prtop::types::PrId;

/// 2026-07-18T00:00:00Z
const AT: Timestamp = Timestamp {
    secs: 1_784_332_800,
    nanos: 0,
};

fn make_id(number: u64) -> PrId {
    PrId {
        owner: "org".to_string(),
        repo: "repo".to_string(),
        number,
    }
}

fn empty_store() -> DismissStore {
    DismissStore::load_from("dismissed.json", None).unwrap()
}

// --- load / save ---

#[test]
fn load_missing_file_gives_empty_store() {
    let store = empty_store();
    assert!(store.snapshot().is_empty());
    assert!(!store.is_dirty());
}

#[test]
fn save_and_load_roundtrip() {
    let mut store = empty_store();
    store.dismiss(make_id(1), AT);
    assert!(store.is_dirty());
    let text = store.save().unwrap();
    store.saved();
    assert!(!store.is_dirty());

    let reloaded = DismissStore::load_from("dismissed.json", Some(&text)).unwrap();
    assert_eq!(reloaded.get(&make_id(1)), Some(AT));
    assert_eq!(reloaded.snapshot().len(), 1);
    assert!(!reloaded.is_dirty());
}

#[test]
fn saved_text_is_a_json_object() {
    let mut store = empty_store();
    store.dismiss(make_id(1), AT);
    assert_eq!(
        store.save().unwrap(),
        "{\n  \"org/repo#1\": \"2026-07-18T00:00:00+00:00\"\n}"
    );
}

#[test]
fn odd_names_and_fractions_survive_the_roundtrip() {
    let id = PrId {
        owner: "a\"b\\c\u{1}".to_string(),
        repo: "r/e#p 日本語".to_string(),
        number: u64::MAX,
    };
    let at = Timestamp {
        secs: -62_167_219_200,
        nanos: 123_456_789,
    };
    let mut store = empty_store();
    store.dismiss(id.clone(), at);
    let text = store.save().unwrap();
    let reloaded = DismissStore::load_from("x", Some(&text)).unwrap();
    assert_eq!(reloaded.get(&id), Some(at));
}

#[test]
fn every_time_of_the_calendar_survives_the_roundtrip() {
    let times = [
        // The first and the last point of the calendar.
        (-8_334_601_228_800, 0),
        (8_210_266_876_799, 999_999_999),
        (8_210_266_876_799, 1_999_999_999),
        // The last second before the year 0, and the first one of the year 10000.
        (-62_167_219_201, 1),
        (253_402_300_800, 1_000),
        // A leap second, with and without a fraction.
        (1_483_228_799, 1_000_000_000),
        (1_483_228_799, 1_500_000_000),
        (-1, 1_000_000_001),
    ];
    for (secs, nanos) in times {
        let at = Timestamp { secs, nanos };
        let mut store = empty_store();
        store.dismiss(make_id(1), at);
        let text = store.save().unwrap();
        let reloaded = DismissStore::load_from("x", Some(&text)).unwrap();
        assert_eq!(reloaded.get(&make_id(1)), Some(at), "{text}");
    }
}

#[test]
fn load_corrupt_json_fails_with_path_in_message() {
    let err = DismissStore::load_from("/tmp/corrupt.json", Some("not json")).unwrap_err();
    let msg = err.to_string();
    assert!(msg.contains("/tmp/corrupt.json"), "message: {msg}");
    assert!(msg.contains("Delete the file"), "message: {msg}");
}

#[test]
fn load_invalid_key_fails() {
    let text = r#"{"no-hash-here": "2026-07-18T00:00:00Z"}"#;
    let err = DismissStore::load_from("p", Some(text)).unwrap_err();
    assert_eq!(
        err.to_string(),
        "Config error: Failed to parse p: invalid PR key (missing '#'): \"no-hash-here\". Delete the file to recover (dismissed mentions will reappear)."
    );
}

#[test]
fn load_reads_offsets_and_refuses_other_values() {
    let map = parse_store(r#"{"org/repo#1": "2026-07-18T09:00:00+09:00"}"#).unwrap();
    assert_eq!(map.get(&make_id(1)), Some(&AT));
    assert!(parse_store(r#"{"org/repo#1": 5}"#).is_err());
    assert!(parse_store(r#"["org/repo#1"]"#).is_err());
}

#[test]
fn stored_fields_become_dismissals() {
    let fields = vec![
        ("org/repo#1".to_string(), AT),
        ("a/b/c#+2".to_string(), Timestamp { secs: 1, nanos: 2 }),
    ];
    let map = dismissals_of(fields).unwrap();
    assert_eq!(map.get(&make_id(1)), Some(&AT));
    let other = PrId {
        owner: "a".to_string(),
        repo: "b/c".to_string(),
        number: 2,
    };
    assert_eq!(map.get(&other), Some(&Timestamp { secs: 1, nanos: 2 }));
    assert!(dismissals_of(vec![("x".to_string(), AT)]).is_err());
}

// --- parse_pr_id ---

#[test]
fn parse_pr_id_display_roundtrip() {
    let id = make_id(42);
    assert_eq!(parse_pr_id(&id.to_string()).unwrap(), id);
}

#[test]
fn parse_pr_id_rejects_malformed_keys() {
    assert!(parse_pr_id("org/repo").is_err());
    assert!(parse_pr_id("orgrepo#1").is_err());
    assert!(parse_pr_id("org/repo#abc").is_err());
    assert!(parse_pr_id("/repo#1").is_err());
    assert!(parse_pr_id("org/#1").is_err());
}

#[test]
fn parse_pr_id_says_what_is_wrong() {
    let fault = |key: &str| parse_pr_id(key).unwrap_err();
    assert_eq!(fault("org/repo"), "invalid PR key (missing '#'): \"org/repo\"");
    assert_eq!(fault("o/r#ab\n"), "invalid PR number in key: \"o/r#ab\\n\"");
    assert_eq!(
        fault("o/r#18446744073709551616"),
        "invalid PR number in key: \"o/r#18446744073709551616\""
    );
    assert_eq!(fault("or#1"), "invalid PR key (missing '/'): \"or#1\"");
    assert_eq!(fault("/r#1"), "invalid PR key (empty owner or repo): \"/r#1\"");
}

#[test]
fn parse_pr_id_splits_at_the_last_hash_and_the_first_slash() {
    let id = parse_pr_id("o/r/x#y#7").unwrap();
    assert_eq!(id.owner, "o");
    assert_eq!(id.repo, "r/x#y");
    assert_eq!(id.number, 7);
}

// --- mutation API ---

#[test]
fn undismiss_removes_entry_and_marks_dirty() {
    let mut store = empty_store();
    store.dismiss(make_id(1), AT);
    store.undismiss(&make_id(1));
    assert_eq!(store.get(&make_id(1)), None);
    assert!(store.is_dirty());
}

#[test]
fn undismiss_unknown_id_does_not_mark_dirty() {
    let mut store = empty_store();
    store.undismiss(&make_id(1));
    assert!(!store.is_dirty());
}

#[test]
fn retain_ids_drops_entries_not_in_keep_set() {
    let mut store = empty_store();
    store.dismiss(make_id(1), AT);
    store.dismiss(make_id(2), AT);
    let mut keep = IdSet::new();
    keep.insert(make_id(1));
    store.retain_ids(&keep);
    assert!(store.get(&make_id(1)).is_some());
    assert_eq!(store.get(&make_id(2)), None);
}

#[test]
fn retain_ids_marks_dirty_only_where_something_goes() {
    let mut store = empty_store();
    store.dismiss(make_id(1), AT);
    store.saved();
    let mut keep = IdSet::new();
    keep.insert(make_id(1));
    keep.insert(make_id(2));
    store.retain_ids(&keep);
    assert!(!store.is_dirty());
    assert!(store.dismissed_ids().contains(&make_id(1)));
    store.retain_ids(&IdSet::new());
    assert!(store.is_dirty());
    assert!(store.dismissed_ids().is_empty());
}

// --- contains_mention ---

#[test]
fn mention_simple_hit() {
    assert!(contains_mention("hey @user please look", "user"));
    assert!(contains_mention("@user", "user"));
    assert!(contains_mention("cc: @user.", "user"));
}

#[test]
fn mention_is_ascii_case_insensitive() {
    assert!(contains_mention("(@User)", "user"));
    assert!(contains_mention("@USER!", "user"));
    assert!(contains_mention("@user", "USER"));
}

#[test]
fn mention_longer_login_does_not_hit() {
    assert!(!contains_mention("ping @username2", "username"));
    assert!(!contains_mention("ping @user-name", "user"));
}

#[test]
fn mention_requires_boundary_before_at() {
    assert!(!contains_mention("foo@user", "user"));
    assert!(!contains_mention("a-@user", "user"));
    assert!(!contains_mention("@@user", "user"));
    assert!(contains_mention("(@user)", "user"));
    assert!(contains_mention("日本語で@userに依頼", "user"));
}

#[test]
fn mention_no_hit_cases() {
    assert!(!contains_mention("", "user"));
    assert!(!contains_mention("user without at", "user"));
    assert!(!contains_mention("@", "user"));
    assert!(!contains_mention("@other", "user"));
    assert!(!contains_mention("@user", ""));
}

#[test]
fn mention_later_in_the_text_counts() {
    assert!(contains_mention("@username and @user", "user"));
    assert!(!contains_mention("@use", "user"));
}

#[test]
fn mentions_in_joined_texts_and_in_other_case() {
    let parts = ["@me", "x", "", "a@me", "@ME!", "@mee", "-"];
    for one in parts {
        for other in parts {
            let joined = format!("{one} {other}");
            assert_eq!(
                contains_mention(&joined, "me"),
                contains_mention(one, "me") || contains_mention(other, "me"),
                "{joined}"
            );
            assert_eq!(
                contains_mention(&joined, "me"),
                contains_mention(&joined.to_ascii_uppercase(), "me"),
                "{joined}"
            );
        }
    }
}
