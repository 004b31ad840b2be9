//! What keys mean and what the screen shows.
use indexmap::IndexMap;
use prtop::app::{App, LoadingState, Message};
use prtop::colors::{Color, ColorScheme};
use prtop::config::NotifyEvent;
use prtop::ids::IdMap;
use prtop::poller::PollPayload;
use prtop::timestamp::Timestamp;
use prtop::tui::event::{gives_up_selection, key_to_message, Key};
use prtop::tui::ui::{
    col_widths, list_widths, pad, pr_list_area, render_col_header, render_footer, render_header, render_help,
    render_list, truncate, ListBody, TextSpan,
};
use prtop::types::{CiStatus, PrId, PrRole, PrState, PullRequest, RoleSet};

fn pr(owner: &str, repo: &str, number: u64, title: &str) -> (PrId, PullRequest) {
    let id = PrId {
        owner: owner.to_string(),
        repo: repo.to_string(),
        number,
    };
    let pr = PullRequest {
        id: id.clone(),
        title: title.to_string(),
        url: String::new(),
        author_login: String::new(),
        role: PrRole::Author,
        state: PrState::Open,
        created_at: Timestamp::default(),
        updated_at: Timestamp::default(),
        is_draft: false,
        review_decision: None,
        total_comments: 0,
        last_commenter: None,
        ci_status: None,
    };
    (id, pr)
}

fn app_with(list: Vec<(PrId, PullRequest)>) -> App {
    let mut app = App::new(
        "me".to_string(),
        ColorScheme::default(),
        NotifyEvent::all(),
        RoleSet::new(),
    );
    let prs: IndexMap<PrId, PullRequest> = list.into_iter().collect();
    app.update(Message::PollResult(PollPayload {
        generation: 1,
        prs,
        head_shas: IdMap::new(),
        polled_at: Timestamp::default(),
    }));
    app
}

fn text(line: &[TextSpan]) -> String {
    line.iter().map(|span| span.text.as_str()).collect()
}

#[test]
fn keys_have_their_messages() {
    let key = |key: Key| key_to_message(key, false);
    assert!(matches!(key(Key::Char('q')), Some(Message::Quit)));
    assert!(matches!(key_to_message(Key::Char('c'), true), Some(Message::Quit)));
    assert!(key(Key::Char('c')).is_none());
    assert!(matches!(key(Key::Char('k')), Some(Message::MoveUp)));
    assert!(matches!(key(Key::Up), Some(Message::MoveUp)));
    assert!(matches!(key(Key::Char('j')), Some(Message::MoveDown)));
    assert!(matches!(key(Key::Down), Some(Message::MoveDown)));
    assert!(matches!(key(Key::Enter), Some(Message::ActivateSelected)));
    assert!(matches!(key(Key::Char('o')), Some(Message::OpenSelected)));
    assert!(matches!(key(Key::Char('?')), Some(Message::ToggleHelp)));
    assert!(matches!(key(Key::Char('r')), Some(Message::Refresh)));
    assert!(key(Key::Char('x')).is_none());
    assert!(key(Key::Other).is_none());
}

#[test]
fn selection_is_given_up_after_five_seconds() {
    assert!(gives_up_selection(Some(5_000_000_001), true));
    assert!(!gives_up_selection(Some(5_000_000_000), true));
    assert!(!gives_up_selection(Some(5_000_000_001), false));
    assert!(!gives_up_selection(None, true));
}

#[test]
fn texts_are_truncated_and_padded() {
    assert_eq!(truncate("abc", 0), "");
    assert_eq!(truncate("abc", 3), "abc");
    assert_eq!(truncate("abcd", 3), "ab…");
    assert_eq!(truncate("日本語", 2), "日…");
    assert_eq!(truncate("abcd", 1), "…");
    assert_eq!(pad("ab", 4), "ab  ");
    assert_eq!(pad("abcd", 2), "abcd");
    assert_eq!(pad("…", 2), "… ");
}

#[test]
fn columns_are_as_wide_as_needed_where_there_is_room() {
    let none = IndexMap::new();
    assert_eq!(col_widths(100, &none), (6, 6, 7, 15, 20));
    let prs: IndexMap<PrId, PullRequest> =
        vec![pr("org", "repo", 1, "title"), pr("o", "r", 2, "a longer title")]
            .into_iter()
            .collect();
    assert_eq!(col_widths(100, &prs), (6, 6, 7, 8, 14));
    // 27 fixed columns leave 22, which hold both.
    assert_eq!(col_widths(49, &prs), (6, 6, 7, 8, 14));
    // 21 do not: the repository gets at least ten.
    assert_eq!(col_widths(48, &prs), (6, 6, 7, 10, 11));
    assert_eq!(col_widths(0, &prs), (6, 6, 7, 10, 0));
}

#[test]
fn ci_column_takes_its_width_from_the_others() {
    let prs: IndexMap<PrId, PullRequest> =
        vec![pr("org", "repo", 1, "title"), pr("o", "r", 2, "a longer title")]
            .into_iter()
            .collect();
    assert_eq!(list_widths(53, &prs), (6, 6, 7, 8, 14));
    assert_eq!(list_widths(52, &prs), (6, 6, 7, 10, 11));
    assert_eq!(list_widths(3, &prs), (6, 6, 7, 10, 0));
}

#[test]
fn repositories_are_measured_in_bytes() {
    let prs: IndexMap<PrId, PullRequest> = vec![pr("é", "r", 1, "é")].into_iter().collect();
    assert_eq!(col_widths(100, &prs), (6, 6, 7, 4, 1));
}

#[test]
fn area_grows_with_the_rows() {
    let app = app_with(vec![pr("org", "repo", 1, "a"), pr("org", "repo", 2, "b")]);
    assert_eq!(app.visible_rows.len(), 5);
    assert_eq!(pr_list_area(&app, 24), 9);
    assert_eq!(pr_list_area(&app, 7), 7);
    assert_eq!(pr_list_area(&app, 3), 3);
    assert_eq!(pr_list_area(&app, 0), 0);
    let empty = app_with(vec![]);
    assert_eq!(pr_list_area(&empty, 24), 5);
}

#[test]
fn notes_in_place_of_the_list() {
    let widths = (6, 6, 7, 15, 20);
    let note = |app: &App| match render_list(app, widths) {
        ListBody::Note(span) => (span.text, span.color),
        ListBody::Rows(_) => panic!("expected a note"),
    };
    let mut app = App::new(
        "me".to_string(),
        ColorScheme::default(),
        NotifyEvent::all(),
        RoleSet::new(),
    );
    assert_eq!(note(&app), ("  Loading...".to_string(), Some(Color::Yellow)));
    app.loading = LoadingState::Loading;
    assert_eq!(note(&app), ("  Loading...".to_string(), Some(Color::Yellow)));
    app.update(Message::PollError("no net".to_string()));
    assert_eq!(note(&app), ("  Error: no net".to_string(), Some(Color::Red)));
    assert_eq!(
        note(&app_with(vec![])),
        ("  No PRs found".to_string(), Some(Color::DarkGray))
    );
}

#[test]
fn rows_show_groups_and_pull_requests() {
    let (id, mut first) = pr("org", "repo", 12, "A title");
    first.ci_status = Some(CiStatus::Success);
    first.is_draft = true;
    let (other, mut second) = pr("org", "repo", 3, "B");
    second.role = PrRole::Mentioned;
    let mut app = app_with(vec![(id.clone(), first), (other.clone(), second)]);
    app.new_comment_pr_ids.insert(other);
    app.collapsed_roles.insert(PrRole::ReviewRequested);
    let lines = match render_list(&app, (6, 6, 7, 8, 10)) {
        ListBody::Rows(lines) => lines,
        ListBody::Note(_) => panic!("expected rows"),
    };
    let shown: Vec<String> = lines.iter().map(|line| text(line)).collect();
    assert_eq!(
        shown,
        vec![
            "▾ AUTHOR".to_string(),
            "AUTHOR  OPEN    ✓   #12    A title     org/repo".to_string(),
            "▹ REVIEW".to_string(),
            "▾ MENTION".to_string(),
            "MENTION  OPEN    -   #3     B           org/repo".to_string(),
        ]
    );
    assert_eq!(lines[1][7].color, Some(Color::DarkGray));
    assert_eq!(lines[4][7].color, Some(Color::LightYellow));
    assert!(lines[0][0].bold);
}

#[test]
fn header_and_footer() {
    let mut app = app_with(vec![pr("org", "repo", 1, "a")]);
    assert_eq!(text(&render_header(&app, None)), " GitHub PR Live  Last poll: ---");
    assert_eq!(text(&render_footer(&app)), " 1 PRs │ ?: help  ");
    app.update(Message::PollError("boom".to_string()));
    assert_eq!(
        text(&render_header(&app, Some("12:34:56"))),
        " GitHub PR Live  Last poll: 12:34:56 [!]"
    );
    assert_eq!(text(&render_footer(&app)), " 1 PRs │ ?: help  Error: boom");
    app.update(Message::Refresh);
    assert_eq!(text(&render_footer(&app)), " 1 PRs │ ?: help  Refreshing...");
    assert_eq!(
        text(&render_col_header(&app.colors, (6, 6, 7, 8, 10))),
        "  ROLE    STATUS  CI  #      TITLE       REPO    "
    );
}

#[test]
fn help_names_the_keys() {
    let lines = render_help();
    assert_eq!(lines.len(), 12);
    assert_eq!(lines[1].text, " GitHub PR Live - Help");
    assert_eq!(lines[3].text, "  q / Ctrl+C    Quit");
    assert_eq!(lines[6].text, "  Enter         Toggle selected role / open PR");
    assert_eq!(lines[11].text, "  Press any key to return");
}
