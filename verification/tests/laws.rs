//! What holds of the state as a whole, on examples.
use indexmap::IndexMap;
use prtop::app::{App, LoadingState, Message, Screen};
use prtop::colors::ColorScheme;
use prtop::config::{EventSet, NotifyEvent};
use prtop::dismiss::DismissStore;
use prtop::ids::{IdMap, IdSet};
use prtop::poller::{CiPayload, CiUpdate, PollPayload};
use prtop::pr_map::role_rank;
use prtop::rows::{VisibleRow, ROLE_ORDER};
use prtop::text::{eq_ignore_ascii_case, parse_u64, text_before};
use prtop::timestamp::Timestamp;
use prtop::types::{CiStatus, PrId, PrRole, PrState, PullRequest, RoleSet};
use std::time::{Duration, Instant};

fn id(number: u64) -> PrId {
    PrId {
        owner: "org".to_string(),
        repo: "repo".to_string(),
        number,
    }
}

fn pr(number: u64, role: PrRole, state: PrState, ci_status: Option<CiStatus>) -> PullRequest {
    PullRequest {
        id: id(number),
        title: format!("PR #{number}"),
        url: format!("https://github.com/org/repo/pull/{number}"),
        author_login: "user".to_string(),
        role,
        state,
        created_at: Timestamp::default(),
        updated_at: Timestamp::default(),
        is_draft: false,
        review_decision: None,
        total_comments: 0,
        last_commenter: None,
        ci_status,
    }
}

fn payload(generation: u64, list: Vec<PullRequest>, shas: &[(u64, &str)]) -> PollPayload {
    let mut prs = IndexMap::new();
    for pr in list {
        prs.insert(pr.id.clone(), pr);
    }
    let mut head_shas = IdMap::new();
    for (number, sha) in shas {
        head_shas.insert(id(*number), sha.to_string());
    }
    PollPayload {
        generation,
        prs,
        head_shas,
        polled_at: Timestamp::default(),
    }
}

fn ci(generation: u64, list: &[(u64, &str, Option<CiStatus>)]) -> CiPayload {
    let mut statuses = IdMap::new();
    for (number, sha, status) in list {
        statuses.insert(
            id(*number),
            CiUpdate {
                head_sha: sha.to_string(),
                status: *status,
            },
        );
    }
    CiPayload {
        generation,
        statuses,
    }
}

fn app() -> App {
    App::new(
        "me".to_string(),
        ColorScheme::default(),
        NotifyEvent::all(),
        RoleSet::new(),
    )
}

fn open(number: u64) -> PullRequest {
    pr(number, PrRole::Author, PrState::Open, None)
}

// --- activity and loading ---

#[test]
fn each_input_restarts_the_idle_time() {
    let start = Instant::now();
    let time = |secs| start + Duration::from_secs(secs);
    let mut app = app();
    app.update_at(Message::MoveDown, time(1));
    assert_eq!(app.last_activity, None);
    app.update_at(Message::PollResult(payload(1, vec![open(1)], &[])), time(2));
    assert_eq!(app.last_activity, None);
    app.update_at(Message::MoveDown, time(3));
    assert_eq!(app.last_activity, Some(time(3)));
    app.update_at(Message::MoveUp, time(4));
    assert_eq!(app.last_activity, Some(time(4)));
    app.update_at(Message::PollResult(payload(2, vec![open(1)], &[])), time(5));
    app.update_at(Message::PollError("x".to_string()), time(5));
    app.update_at(Message::CiResult(ci(2, &[])), time(5));
    app.update_at(Message::Deselect, time(5));
    app.update_at(Message::Quit, time(5));
    assert_eq!(app.last_activity, Some(time(4)));
    app.update_at(Message::ActivateSelected, time(6));
    assert_eq!(app.last_activity, Some(time(6)));
    app.update_at(Message::OpenSelected, time(7));
    assert_eq!(app.last_activity, Some(time(7)));
    app.update_at(Message::Refresh, time(8));
    assert_eq!(app.last_activity, Some(time(8)));
    app.update_at(Message::ToggleHelp, time(9));
    assert_eq!(app.last_activity, Some(time(9)));
    app.update_at(Message::MoveDown, time(10));
    assert_eq!(app.screen, Screen::PrList);
    assert_eq!(app.last_activity, Some(time(10)));

    app.update(Message::Refresh);
    assert!(app.last_activity.is_some_and(|at| at >= start));
}

#[test]
fn first_message_of_the_poller_decides_the_loading_state() {
    let mut failed = app();
    failed.update(Message::PollError("GitHub token #2: Auth error: x".to_string()));
    assert!(matches!(failed.loading, LoadingState::Error(_)));
    failed.update(Message::PollResult(payload(1, vec![open(1)], &[])));
    assert!(matches!(failed.loading, LoadingState::Error(_)));
    assert_eq!(failed.poll_error, None);
    assert!(failed.prs.contains_key(&id(1)));

    let mut loaded = app();
    loaded.update(Message::PollResult(payload(1, vec![open(1)], &[])));
    loaded.update(Message::PollError("x".to_string()));
    assert!(matches!(loaded.loading, LoadingState::Loaded));
    assert_eq!(loaded.poll_error, Some("x".to_string()));
}

#[test]
fn selection_stays_among_the_rows() {
    let mut app = app();
    let mention = pr(9, PrRole::Mentioned, PrState::Open, None);
    app.update(Message::PollResult(payload(1, vec![open(1), mention], &[])));
    // Up from nothing is the first row, and up from there the last: the mention.
    app.update(Message::MoveUp);
    app.update(Message::MoveUp);
    assert_eq!(app.list_state.selected(), Some(4));
    app.update(Message::OpenSelected);
    assert_eq!(app.visible_rows.len(), 4);
    assert_eq!(app.list_state.selected(), Some(3));
    app.update(Message::PollResult(payload(2, vec![], &[])));
    assert_eq!(app.list_state.selected(), Some(2));
    assert_eq!(app.visible_rows.len(), 3);
}

#[test]
fn toggling_turns_one_group_and_selects_its_header() {
    let mut app = app();
    app.update(Message::PollResult(payload(1, vec![open(1)], &[])));
    let rows = app.visible_rows.clone();
    for role in ROLE_ORDER {
        app.ui_state_dirty = false;
        app.toggle_role(role);
        assert!(app.role_is_collapsed(role));
        assert_eq!(app.selected_row(), Some(&VisibleRow::Role(role)));
        assert!(app.ui_state_dirty);
        assert_eq!(ROLE_ORDER.iter().filter(|r| app.role_is_collapsed(**r)).count(), 1);
        assert_eq!(app.prs.len(), 1);
        app.toggle_role(role);
        assert!(!app.role_is_collapsed(role));
        assert_eq!(app.visible_rows, rows);
        assert_eq!(app.selected_row(), Some(&VisibleRow::Role(role)));
    }
}

// --- CI status ---

#[test]
fn ci_result_updates_the_column_without_moving_the_selection() {
    let mut app = app();
    app.update(Message::PollResult(payload(
        1,
        vec![open(1), open(2)],
        &[(1, "a"), (2, "b")],
    )));
    app.update(Message::MoveDown);
    app.update(Message::MoveDown);
    app.update(Message::MoveDown);
    let selected = app.list_state.selected();
    let rows = app.visible_rows.clone();
    app.dirty = false;

    app.update(Message::CiResult(ci(
        1,
        &[
            (1, "a", Some(CiStatus::Pending)),
            (2, "other commit", Some(CiStatus::Success)),
            (9, "a", Some(CiStatus::Success)),
        ],
    )));
    assert_eq!(app.prs[&id(1)].ci_status, Some(CiStatus::Pending));
    assert_eq!(app.prs[&id(2)].ci_status, None);
    assert_eq!(app.list_state.selected(), selected);
    assert_eq!(app.visible_rows, rows);
    assert!(app.dirty);
    assert!(app.pending_notifications.is_empty());

    app.update(Message::CiResult(ci(1, &[(1, "a", Some(CiStatus::Failure))])));
    assert_eq!(app.pending_notifications.len(), 1);
    assert_eq!(app.pending_notifications[0].title, "CI failed");
    assert_eq!(app.pending_notifications[0].body, "PR #1 (org/repo#1)");
}

#[test]
fn stale_ci_result_is_ignored() {
    let mut app = app();
    app.update(Message::PollResult(payload(2, vec![open(1)], &[(1, "a")])));
    app.dirty = false;
    app.update(Message::CiResult(ci(1, &[(1, "a", Some(CiStatus::Success))])));
    assert_eq!(app.prs[&id(1)].ci_status, None);
    assert!(!app.dirty);
}

#[test]
fn ci_status_is_kept_for_the_same_commit_only() {
    let mut app = app();
    app.update(Message::PollResult(payload(
        1,
        vec![open(1), open(2), open(3)],
        &[(1, "a"), (2, "b")],
    )));
    app.update(Message::CiResult(ci(
        1,
        &[
            (1, "a", Some(CiStatus::Pending)),
            (2, "b", Some(CiStatus::Success)),
        ],
    )));
    app.update(Message::PollResult(payload(
        2,
        vec![open(1), open(2), open(3)],
        &[(1, "a"), (2, "new")],
    )));
    assert_eq!(app.prs[&id(1)].ci_status, Some(CiStatus::Pending));
    assert_eq!(app.prs[&id(2)].ci_status, None);
    assert_eq!(app.prs[&id(3)].ci_status, None);
    assert!(app.pending_notifications.is_empty());

    app.update(Message::CiResult(ci(2, &[(1, "a", Some(CiStatus::Success))])));
    assert_eq!(app.pending_notifications.len(), 1);
    assert_eq!(app.pending_notifications[0].title, "CI passed");
    app.update(Message::CiResult(ci(2, &[(1, "a", None)])));
    assert_eq!(app.prs[&id(1)].ci_status, None);
}

// --- help ---

#[test]
fn help_is_closed_by_inputs_and_not_by_polls() {
    let mut app = app();
    app.update(Message::PollResult(payload(1, vec![open(1)], &[])));
    app.update(Message::ToggleHelp);
    app.update(Message::PollResult(payload(2, vec![open(1), open(2)], &[])));
    app.update(Message::CiResult(ci(2, &[])));
    app.update(Message::PollError("x".to_string()));
    assert_eq!(app.screen, Screen::Help);
    assert_eq!(app.prs.len(), 2);
    app.update(Message::MoveDown);
    assert_eq!(app.screen, Screen::PrList);
    assert_eq!(app.list_state.selected(), None);
    app.update(Message::ToggleHelp);
    app.update(Message::Quit);
    assert!(app.should_quit);
}

// --- list ---

#[test]
fn navigation_waits_for_the_first_poll() {
    let mut app = app();
    app.update(Message::MoveDown);
    app.update(Message::MoveUp);
    assert_eq!(app.list_state.selected(), None);
    assert!(app.last_activity.is_none());
}

#[test]
fn up_undoes_down() {
    let mut app = app();
    app.update(Message::PollResult(payload(1, vec![open(1), open(2)], &[])));
    app.update(Message::MoveDown);
    for _ in 0..app.visible_rows.len() {
        let before = app.list_state.selected();
        app.update(Message::MoveDown);
        app.update(Message::MoveUp);
        assert_eq!(app.list_state.selected(), before);
        app.update(Message::MoveDown);
    }
    assert_eq!(app.list_state.selected(), Some(0));
}

#[test]
fn toggling_twice_gives_the_rows_back() {
    let mut app = app();
    app.update(Message::PollResult(payload(1, vec![open(1), open(2)], &[])));
    app.update(Message::MoveDown);
    let rows = app.visible_rows.clone();
    app.update(Message::ActivateSelected);
    assert_eq!(app.visible_rows.len(), 3);
    app.update(Message::ActivateSelected);
    assert_eq!(app.visible_rows, rows);
    assert_eq!(app.selected_row(), Some(&VisibleRow::Role(PrRole::Author)));
    assert_eq!(ROLE_ORDER.map(role_rank), [0, 1, 2]);
}

#[test]
fn opening_asks_for_the_browser() {
    let mut app = app();
    let mention = pr(5, PrRole::Mentioned, PrState::Open, None);
    app.update(Message::PollResult(payload(1, vec![open(1), mention], &[])));
    app.update(Message::MoveDown);
    app.update(Message::MoveDown);
    app.update(Message::ActivateSelected);
    assert_eq!(
        app.pending_opens,
        vec!["https://github.com/org/repo/pull/1".to_string()]
    );
    assert_eq!(app.prs.len(), 2);
    app.update(Message::MoveUp);
    app.update(Message::MoveUp);
    app.update(Message::OpenSelected);
    assert_eq!(app.pending_opens.len(), 2);
    assert_eq!(app.pending_dismissals, vec![id(5)]);
    assert_eq!(app.prs.len(), 1);
    app.browser_failed("https://x");
    assert_eq!(
        app.status_message.as_deref(),
        Some("Failed to open browser: https://x")
    );
}

#[test]
fn opened_mentions_go_to_the_store() {
    let mut app = app();
    app.pending_dismissals.push(id(1));
    app.pending_dismissals.push(id(2));
    let mut store = DismissStore::load_from("x", None).unwrap();
    let now = Timestamp { secs: 5, nanos: 0 };
    app.store_dismissals(&mut store, now);
    assert!(app.pending_dismissals.is_empty());
    assert_eq!(store.get(&id(1)), Some(now));
    assert_eq!(store.get(&id(2)), Some(now));
    assert!(store.is_dirty());
}

#[test]
fn no_events_no_notifications() {
    let mut app = App::new(
        "me".to_string(),
        ColorScheme::default(),
        EventSet::new(),
        RoleSet::new(),
    );
    app.update(Message::PollResult(payload(
        1,
        vec![pr(1, PrRole::Author, PrState::Open, Some(CiStatus::Pending))],
        &[(1, "a")],
    )));
    let mut merged = pr(1, PrRole::Author, PrState::Merged, Some(CiStatus::Success));
    merged.updated_at = Timestamp { secs: 9, nanos: 0 };
    merged.total_comments = 4;
    let mention = pr(2, PrRole::Mentioned, PrState::Open, None);
    app.update(Message::PollResult(payload(2, vec![merged, mention], &[(1, "a")])));
    app.update(Message::CiResult(ci(2, &[(1, "a", Some(CiStatus::Failure))])));
    assert!(app.pending_notifications.is_empty());
    assert!(app.new_comment_pr_ids.contains(&id(1)));
    assert!(app.new_pr_ids.contains(&id(2)));
}

#[test]
fn notifications_come_in_the_order_of_their_kinds() {
    let mut app = app();
    app.update(Message::PollResult(payload(
        1,
        vec![pr(1, PrRole::Author, PrState::Open, Some(CiStatus::Pending))],
        &[],
    )));
    let mut merged = pr(1, PrRole::Author, PrState::Merged, Some(CiStatus::Success));
    merged.updated_at = Timestamp { secs: 9, nanos: 0 };
    merged.total_comments = 4;
    let review = pr(2, PrRole::ReviewRequested, PrState::Open, None);
    app.update(Message::PollResult(payload(2, vec![merged, review], &[])));
    let titles: Vec<&str> = app
        .pending_notifications
        .iter()
        .map(|n| n.title.as_str())
        .collect();
    assert_eq!(
        titles,
        vec!["Review requested", "PR merged", "New comment", "CI passed"]
    );
}

#[test]
fn list_is_ordered_by_text_and_not_by_length() {
    let mut app = app();
    let mut list = vec![];
    for (repo, number) in [("b", 2), ("ab", 9), ("b", 10), ("abc", 1)] {
        let mut pr = open(number);
        pr.id.repo = repo.to_string();
        list.push(pr);
    }
    app.update(Message::PollResult(payload(1, list, &[])));
    let shown: Vec<(String, u64)> = app
        .prs
        .keys()
        .map(|id| (id.repo.clone(), id.number))
        .collect();
    assert_eq!(
        shown,
        vec![
            ("b".to_string(), 10),
            ("b".to_string(), 2),
            ("abc".to_string(), 1),
            ("ab".to_string(), 9),
        ]
    );
}

// --- texts and sets ---

#[test]
fn texts_compare_like_strings() {
    for (a, b) in [("a", "b"), ("a", "ab"), ("é", "z"), ("", "a"), ("x", "x")] {
        assert_eq!(text_before(a, b), a < b);
        assert_eq!(text_before(b, a), b < a);
    }
    assert!(eq_ignore_ascii_case("AbC-é", "aBc-é"));
    assert!(!eq_ignore_ascii_case("É", "é"));
    assert!(!eq_ignore_ascii_case("ab", "abc"));
}

#[test]
fn numbers_are_read_like_the_standard_library_does() {
    for text in [
        "0", "42", "+7", "18446744073709551615", "18446744073709551616", "", "+", "-1", "1a",
        " 1", "007", "++1",
    ] {
        assert_eq!(parse_u64(text), text.parse::<u64>().ok(), "{text}");
    }
}

#[test]
fn sets_and_maps_of_identities() {
    let mut set = IdSet::new();
    assert!(set.insert(id(1)));
    assert!(!set.insert(id(1)));
    assert!(set.insert(id(2)));
    assert_eq!(set.len(), 2);
    assert!(set.remove(&id(1)));
    assert!(!set.remove(&id(1)));
    assert!(!set.contains(&id(1)) && set.contains(&id(2)));
    assert_eq!(set.clone().to_vec(), vec![id(2)]);

    let mut map = IdMap::new();
    map.insert(id(1), 5);
    map.insert(id(2), 6);
    map.insert(id(1), 7);
    assert_eq!(map.len(), 2);
    assert_eq!(map.get(&id(1)), Some(&7));
    assert!(map.contains_key(&id(2)));
    assert!(map.retain_in(&set));
    assert!(!map.retain_in(&set));
    assert_eq!(map.get(&id(1)), None);
    assert_eq!(map.copied().keys().to_vec(), vec![id(2)]);
    assert!(map.remove(&id(2)));
    assert!(map.is_empty());
}
