//! The poller and what it makes of search results.
use indexmap::IndexMap;
use prtop::ci::{ci_jobs, ci_payload, CiAnswer};
use prtop::dismiss::DismissStore;
use prtop::error::AppError;
use prtop::github::types::{
    ActorNode, CommentNode, CommentReply, CommentsConnection, CommentsReply, PrNode, RepoNode,
    RepoOwnerNode, TotalCount,
};
use prtop::ids::{IdMap, IdSet};
use prtop::merge::{
    merge_and_convert, merge_caches, node_id, node_to_pr, parse_state, pr_of_node, RawPoll,
};
use prtop::poller::{
    planned_searches, raw_poll, recheck_failure, save_failure, Poller, SearchOutcomes,
    MAX_CONCURRENT_CI,
};
use prtop::recheck::{
    apply_dismissals, begin_dismissals, comments_by_pr, drop_dismissed, mentioned_again,
    recheck_candidates, undismiss_mentioned, RecentComment,
};
use prtop::timestamp::Timestamp;
use prtop::types::{CiStatus, PrId, PrRole, PrState, PullRequest, ReviewDecision};

fn make_node(owner: &str, repo: &str, number: u64) -> PrNode {
    PrNode {
        number,
        title: format!("PR #{number}"),
        url: format!("https://github.com/{owner}/{repo}/pull/{number}"),
        state: "OPEN".to_string(),
        is_draft: false,
        created_at: "2024-01-01T00:00:00Z".to_string(),
        updated_at: "2024-01-01T00:00:00Z".to_string(),
        review_decision: None,
        head_ref_oid: String::new(),
        author: Some(ActorNode {
            login: "user".to_string(),
        }),
        repository: RepoNode {
            name: repo.to_string(),
            owner: RepoOwnerNode {
                login: owner.to_string(),
            },
        },
        comments: CommentsConnection {
            total_count: 0,
            nodes: vec![],
        },
        review_threads: TotalCount { total_count: 0 },
    }
}

fn make_id(number: u64) -> PrId {
    PrId {
        owner: "org".into(),
        repo: "repo".into(),
        number,
    }
}

#[test]
fn merge_author_only() {
    let author = vec![make_node("org", "repo", 1)];
    let (result, _) = merge_and_convert(&author, &[], &[]);
    assert_eq!(result.len(), 1);
    let pr = result.values().next().unwrap();
    assert_eq!(pr.role, PrRole::Author);
}

#[test]
fn merge_review_only() {
    let review = vec![make_node("org", "repo", 1)];
    let (result, _) = merge_and_convert(&[], &review, &[]);
    assert_eq!(result.len(), 1);
    let pr = result.values().next().unwrap();
    assert_eq!(pr.role, PrRole::ReviewRequested);
}

#[test]
fn merge_mentioned_only() {
    let mentioned = vec![make_node("org", "repo", 1)];
    let (result, _) = merge_and_convert(&[], &[], &mentioned);
    assert_eq!(result.len(), 1);
    let pr = result.values().next().unwrap();
    assert_eq!(pr.role, PrRole::Mentioned);
}

#[test]
fn merge_author_wins_over_review_and_mentioned() {
    let author = vec![make_node("org", "repo", 1)];
    let review = vec![make_node("org", "repo", 1)];
    let mentioned = vec![make_node("org", "repo", 1)];
    let (result, _) = merge_and_convert(&author, &review, &mentioned);
    assert_eq!(result.len(), 1);
    let pr = result.values().next().unwrap();
    assert_eq!(pr.role, PrRole::Author);
}

#[test]
fn merge_review_wins_over_mentioned() {
    let review = vec![make_node("org", "repo", 1)];
    let mentioned = vec![make_node("org", "repo", 1)];
    let (result, _) = merge_and_convert(&[], &review, &mentioned);
    assert_eq!(result.len(), 1);
    let pr = result.values().next().unwrap();
    assert_eq!(pr.role, PrRole::ReviewRequested);
}

#[test]
fn merge_distinct_prs() {
    let author = vec![make_node("org", "repo", 1)];
    let review = vec![make_node("org", "repo", 2)];
    let mentioned = vec![make_node("org", "repo", 3)];
    let (result, _) = merge_and_convert(&author, &review, &mentioned);
    assert_eq!(result.len(), 3);
}

#[test]
fn merge_of_one_token_takes_the_last_author_and_the_first_reviewer() {
    let node = |number: u64, sha: &str| PrNode {
        head_ref_oid: sha.to_string(),
        ..make_node("org", "repo", number)
    };
    let (_, shas) = merge_and_convert(
        &[node(1, "a"), node(1, "b")],
        &[node(2, "c"), node(2, "d"), node(1, "e")],
        &[],
    );
    assert_eq!(shas.get(&make_id(1)).unwrap(), "b");
    assert_eq!(shas.get(&make_id(2)).unwrap(), "c");
}

#[test]
fn merge_caches_unions_clients_and_applies_role_priority() {
    let mut first = RawPoll::default();
    first.mentioned.push(make_node("org", "repo", 1));
    let mut second = RawPoll::default();
    second.author.push(make_node("org", "repo", 1));
    second.review.push(make_node("org", "repo", 2));

    let merged = merge_caches(&vec![(0, &first), (1, &second)]);
    let prs = &merged.prs;
    let owners = &merged.owners;
    let mentions = &merged.mention_ids;
    assert_eq!(prs.len(), 2);
    assert_eq!(
        prs[&PrId {
            owner: "org".into(),
            repo: "repo".into(),
            number: 1
        }]
            .role,
        PrRole::Author
    );
    assert_eq!(
        owners.get(&PrId {
            owner: "org".into(),
            repo: "repo".into(),
            number: 1
        }),
        Some(&1)
    );
    assert!(mentions.contains(&PrId {
        owner: "org".into(),
        repo: "repo".into(),
        number: 1
    }));
}

#[test]
fn merge_caches_retains_previous_success_when_other_cache_is_absent() {
    let mut cached = RawPoll::default();
    cached.author.push(make_node("org", "repo", 7));
    let prs = merge_caches(&vec![(0, &cached)]).prs;
    assert!(prs.contains_key(&PrId {
        owner: "org".into(),
        repo: "repo".into(),
        number: 7
    }));
}

#[test]
fn merge_caches_takes_the_later_update_and_the_first_of_equals() {
    let node = |secs: &str, sha: &str| PrNode {
        updated_at: format!("2024-01-01T00:00:{secs}Z"),
        head_ref_oid: sha.to_string(),
        ..make_node("org", "repo", 1)
    };
    let mut one = RawPoll::default();
    one.review.push(node("05", "old"));
    let mut two = RawPoll::default();
    two.review.push(node("09", "new"));
    let mut three = RawPoll::default();
    three.review.push(node("09", "late"));
    three.mentioned.push(node("30", "mention"));

    let merged = merge_caches(&vec![(0, &one), (1, &two), (2, &three)]);
    assert_eq!(merged.prs.len(), 1);
    assert_eq!(merged.shas.get(&make_id(1)).unwrap(), "new");
    assert_eq!(merged.owners.get(&make_id(1)), Some(&1));
    assert_eq!(merged.prs[0].role, PrRole::ReviewRequested);
}

// --- parse_state ---

#[test]
fn parse_state_known_values() {
    assert_eq!(parse_state("OPEN"), PrState::Open);
    assert_eq!(parse_state("CLOSED"), PrState::Closed);
    assert_eq!(parse_state("MERGED"), PrState::Merged);
}

#[test]
fn parse_state_unknown_defaults_to_open() {
    assert_eq!(parse_state("WHATEVER"), PrState::Open);
    assert_eq!(parse_state(""), PrState::Open);
}

// --- node_to_pr boundary cases ---

#[test]
fn node_to_pr_author_none_gives_empty_string() {
    let mut node = make_node("org", "repo", 1);
    node.author = None;
    let (pr, _) = node_to_pr(&node, PrRole::Author);
    assert_eq!(pr.author_login, "");
}

#[test]
fn node_to_pr_invalid_timestamp_defaults_to_epoch() {
    let mut node = make_node("org", "repo", 1);
    node.created_at = "not-a-timestamp".to_string();
    node.updated_at = "also-invalid".to_string();
    let (pr, _) = node_to_pr(&node, PrRole::Author);
    assert_eq!(pr.created_at, Timestamp::default());
    assert_eq!(pr.updated_at, Timestamp::default());
}

#[test]
fn node_to_pr_reads_times() {
    let mut node = make_node("org", "repo", 1);
    node.created_at = "2024-01-01T00:00:00Z".to_string();
    node.updated_at = "2024-01-01T09:00:00.5+09:00".to_string();
    let (pr, _) = node_to_pr(&node, PrRole::Author);
    assert_eq!(pr.created_at, Timestamp { secs: 1_704_067_200, nanos: 0 });
    assert_eq!(
        pr.updated_at,
        Timestamp { secs: 1_704_067_200, nanos: 500_000_000 }
    );
}

#[test]
fn node_to_pr_unknown_review_decision() {
    let mut node = make_node("org", "repo", 1);
    node.review_decision = Some("FUTURE_DECISION".to_string());
    let (pr, _) = node_to_pr(&node, PrRole::Author);
    assert_eq!(
        pr.review_decision,
        Some(ReviewDecision::Unknown("FUTURE_DECISION".to_string()))
    );
}

// --- node_to_pr last_commenter extraction ---

#[test]
fn node_to_pr_extracts_last_commenter() {
    let mut node = make_node("org", "repo", 1);
    node.comments = CommentsConnection {
        total_count: 5,
        nodes: vec![CommentNode {
            author: Some(ActorNode {
                login: "reviewer1".to_string(),
            }),
        }],
    };
    let (pr, _) = node_to_pr(&node, PrRole::Author);
    assert_eq!(pr.last_commenter.as_deref(), Some("reviewer1"));
    assert_eq!(pr.total_comments, 5); // review_threads(0) + comments(5)
}

#[test]
fn node_to_pr_empty_comments_gives_none() {
    let node = make_node("org", "repo", 1);
    let (pr, _) = node_to_pr(&node, PrRole::Author);
    assert_eq!(pr.last_commenter, None);
}

#[test]
fn node_to_pr_comment_author_none_gives_none() {
    let mut node = make_node("org", "repo", 1);
    node.comments = CommentsConnection {
        total_count: 2,
        nodes: vec![CommentNode { author: None }],
    };
    let (pr, _) = node_to_pr(&node, PrRole::Author);
    assert_eq!(pr.last_commenter, None);
}

#[test]
fn node_to_pr_propagates_head_sha() {
    let mut node = make_node("org", "repo", 1);
    node.head_ref_oid = "deadbeef".to_string();
    let (_, sha) = node_to_pr(&node, PrRole::Author);
    assert_eq!(sha, "deadbeef");
}

#[test]
fn pr_of_node_counts_comments_and_threads() {
    let mut node = make_node("org", "repo", 1);
    node.comments.total_count = 3;
    node.review_threads.total_count = 4;
    node.state = "MERGED".to_string();
    node.is_draft = true;
    let at = Timestamp { secs: 7, nanos: 8 };
    let pr = pr_of_node(&node, PrRole::Mentioned, Some(at), None);
    assert_eq!(pr.id, node_id(&node));
    assert_eq!(pr.id, make_id(1));
    assert_eq!(pr.total_comments, 7);
    assert_eq!(pr.state, PrState::Merged);
    assert_eq!(pr.role, PrRole::Mentioned);
    assert_eq!(pr.created_at, at);
    assert_eq!(pr.updated_at, Timestamp::default());
    assert!(pr.is_draft);
    assert_eq!(pr.ci_status, None);
}

#[test]
fn uncountable_results_are_told() {
    let mut raw = RawPoll::default();
    raw.review.push(make_node("org", "repo", 1));
    assert!(raw.is_valid());
    raw.review[0].comments.total_count = u64::MAX;
    assert!(raw.is_valid());
    raw.review[0].review_threads.total_count = 1;
    assert!(!raw.is_valid());
}

// --- the searches of a poll ---

#[test]
fn searches_of_a_poll() {
    let plan = planned_searches("u");
    let shown: Vec<(String, u64)> = plan.into_iter().map(|s| (s.query, s.max_pages)).collect();
    assert_eq!(
        shown,
        vec![
            ("is:pr is:open author:u".to_string(), 4),
            ("is:pr -is:open author:u".to_string(), 1),
            ("is:pr is:open review-requested:u".to_string(), 4),
            ("is:pr -is:open review-requested:u".to_string(), 1),
            ("is:pr is:open mentions:u".to_string(), 4),
            ("is:pr -is:open mentions:u".to_string(), 1),
        ]
    );
}

fn outcomes() -> SearchOutcomes {
    SearchOutcomes {
        author_open: Ok(vec![make_node("org", "repo", 1)]),
        author_closed: Ok(vec![make_node("org", "repo", 2)]),
        review_open: Ok(vec![]),
        review_closed: Ok(vec![make_node("org", "repo", 3)]),
        mentions_open: Ok(vec![make_node("org", "repo", 4)]),
        mentions_closed: Ok(vec![]),
    }
}

#[test]
fn results_of_open_and_closed_are_joined() {
    let raw = raw_poll(outcomes()).unwrap();
    let numbers = |nodes: &Vec<PrNode>| nodes.iter().map(|n| n.number).collect::<Vec<_>>();
    assert_eq!(numbers(&raw.author), vec![1, 2]);
    assert_eq!(numbers(&raw.review), vec![3]);
    assert_eq!(numbers(&raw.mentioned), vec![4]);
}

#[test]
fn first_error_of_the_searches_counts() {
    let failed = SearchOutcomes {
        author_closed: Err(AppError::GraphQl("second".to_string())),
        review_open: Err(AppError::Auth("third".to_string())),
        ..outcomes()
    };
    assert!(matches!(raw_poll(failed), Err(AppError::GraphQl(what)) if what == "second"));
    let failed = SearchOutcomes {
        mentions_closed: Err(AppError::Transient("last".to_string())),
        ..outcomes()
    };
    assert!(matches!(raw_poll(failed), Err(AppError::Transient(_))));
}

// --- tokens ---

const SECOND: u128 = 1_000_000_000;

fn found(number: u64) -> RawPoll {
    let mut raw = RawPoll::default();
    raw.author.push(make_node("org", "repo", number));
    raw
}

#[test]
fn polling_loop_retains_failed_token_cache_on_refresh() {
    let mut poller = Poller::new(2, 3600, 0);
    assert_eq!(poller.due(0), vec![0, 1]);
    assert_eq!(poller.record(0, Ok(found(42)), 0), None);
    assert_eq!(poller.record(1, Ok(found(7)), 0), None);
    let initial = poller.merged().unwrap();
    assert!(initial.prs.contains_key(&make_id(42)));
    assert!(initial.prs.contains_key(&make_id(7)));

    poller.refresh(10);
    assert_eq!(poller.due(10), vec![0, 1]);
    assert_eq!(poller.record(0, Ok(found(43)), 10), None);
    let error = poller
        .record(1, Err(AppError::Auth("401".to_string())), 10)
        .unwrap();
    assert!(
        error.contains("GitHub token #2"),
        "unexpected error: {error}"
    );
    let refreshed = poller.merged().unwrap();
    assert!(refreshed.prs.contains_key(&make_id(43)));
    assert!(refreshed.prs.contains_key(&make_id(7)));
    assert!(!refreshed.prs.contains_key(&make_id(42)));
}

#[test]
fn polling_loop_stops_on_auth_error() {
    let mut poller = Poller::new(1, 60, 0);
    let error_msg = poller
        .record(0, Err(AppError::Auth("401 Unauthorized: ".to_string())), 5)
        .unwrap();
    assert!(
        error_msg.contains("Auth error"),
        "unexpected message: {error_msg}"
    );
    assert_eq!(error_msg, "GitHub token #1: Auth error: 401 Unauthorized: ");
    assert!(poller.due(u64::MAX).is_empty());
    poller.refresh(7);
    assert!(poller.due(u64::MAX).is_empty());
    assert_eq!(poller.next_wake(9), 9 + 60 * SECOND);
    assert!(poller.merged().is_none());
}

#[test]
fn polling_loop_refresh_triggers_early_poll() {
    let mut poller = Poller::new(1, 3600, 0);
    poller.record(0, Ok(found(1)), 3);
    assert!(poller.due(100).is_empty());
    assert_eq!(poller.next_wake(100), 3 + 3600 * SECOND);
    poller.refresh(100);
    assert_eq!(poller.due(100), vec![0]);
    let merge = poller.merged().unwrap();
    let first = poller.snapshot(merge.prs, merge.shas, Timestamp::default());
    assert_eq!(first.generation, 1);
    let second = poller.snapshot(IndexMap::new(), IdMap::new(), Timestamp::default());
    assert_eq!(second.generation, 2);
}

#[test]
fn generation_wraps_around() {
    let mut poller = Poller::new(0, 60, 0);
    poller.generation = u64::MAX;
    let payload = poller.snapshot(IndexMap::new(), IdMap::new(), Timestamp::default());
    assert_eq!(payload.generation, 0);
}

#[test]
fn rate_limit_is_waited_for() {
    let mut poller = Poller::new(1, 60, 0);
    let error = poller.record(
        0,
        Err(AppError::RateLimited {
            retry_after_secs: 90,
        }),
        0,
    );
    assert_eq!(
        error.as_deref(),
        Some("GitHub token #1: Rate limited. Retry after 90s")
    );
    poller.refresh(5);
    assert!(poller.due(89_999_999_999).is_empty());
    assert_eq!(poller.due(90_000_000_000), vec![0]);
}

#[test]
fn backoff_doubles_up_to_a_minute() {
    let mut poller = Poller::new(1, 60, 0);
    let mut waits = vec![];
    for _ in 0..7 {
        let text = poller
            .record(0, Err(AppError::Transient("x".to_string())), 0)
            .unwrap();
        let secs = poller.tokens[0].backoff_secs;
        assert_eq!(
            text,
            format!("GitHub token #1: Transient HTTP error: x (retry in {secs}s)")
        );
        assert_eq!(poller.next_wake(0), secs as u128 * SECOND);
        waits.push(secs);
    }
    assert_eq!(waits, vec![2, 4, 8, 16, 32, 60, 60]);
    poller.record(0, Ok(RawPoll::default()), 0);
    assert_eq!(poller.tokens[0].backoff_secs, 0);
    assert!(!poller.tokens[0].retrying);
}

#[test]
fn messages_about_dismissals() {
    let e = AppError::GraphQl("x".to_string());
    assert_eq!(
        recheck_failure(1, &e),
        "GitHub token #2: Mention re-check failed: GraphQL error: x"
    );
    assert_eq!(
        save_failure(&AppError::Io("full".to_string())),
        "Failed to save dismissals: IO error: full"
    );
}

// --- CI ---

#[test]
fn ci_enrichment_ignores_absent_prs_without_requests() {
    let mut shas = IdMap::new();
    let mut owners = IdMap::new();
    owners.insert(make_id(99), 0);
    shas.insert(make_id(99), "absent-sha".to_string());
    assert!(ci_jobs(&shas, &owners, &IdSet::new(), 1).is_empty());
}

#[test]
fn ci_status_empty_sha_returns_none() {
    let mut shas = IdMap::new();
    let mut owners = IdMap::new();
    let mut retained = IdSet::new();
    owners.insert(make_id(1), 0);
    retained.insert(make_id(1));
    shas.insert(make_id(1), String::new());
    assert!(ci_jobs(&shas, &owners, &retained, 1).is_empty());
}

#[test]
fn ci_enrichment_completes_more_than_window_with_correct_tokens() {
    let mut shas = IdMap::new();
    let mut owners = IdMap::new();
    let mut retained = IdSet::new();
    for number in 0..(MAX_CONCURRENT_CI as u64 + 1) {
        let id = PrId {
            owner: if number % 2 == 0 {
                "org-a".into()
            } else {
                "org-b".into()
            },
            repo: "repo".into(),
            number,
        };
        owners.insert(id.clone(), (number % 2) as usize);
        retained.insert(id.clone());
        shas.insert(id, format!("sha-{number}"));
    }
    let jobs = ci_jobs(&shas, &owners, &retained, 2);
    assert_eq!(jobs.len(), MAX_CONCURRENT_CI + 1);
    for job in &jobs {
        assert_eq!(job.token, (job.id.number % 2) as usize);
        assert_eq!(job.sha, format!("sha-{}", job.id.number));
    }
    let answers: Vec<CiAnswer> = jobs
        .into_iter()
        .map(|job| CiAnswer {
            id: job.id,
            sha: job.sha,
            status: Some(CiStatus::Success),
        })
        .collect();
    let payload = ci_payload(3, &answers);
    assert_eq!(payload.generation, 3);
    assert_eq!(payload.statuses.len(), MAX_CONCURRENT_CI + 1);
    for answer in &answers {
        let update = payload.statuses.get(&answer.id).unwrap();
        assert_eq!(update.status, Some(CiStatus::Success));
        assert_eq!(update.head_sha, answer.sha);
    }
    // A token that is gone is not asked.
    assert_eq!(ci_jobs(&shas, &owners, &retained, 1).len(), 9);
}

#[test]
fn rounds_are_numbered_and_their_ci_results_belong_to_them() {
    let mut poller = Poller::new(2, 60, 0);
    assert!(poller.merged().is_none());
    let mut first = make_node("org", "repo", 1);
    first.head_ref_oid = "one".to_string();
    let mut second = make_node("org", "repo", 2);
    second.head_ref_oid = "two".to_string();
    let raw = RawPoll {
        author: vec![first, second, make_node("org", "repo", 3)],
        review: vec![],
        mentioned: vec![],
    };
    assert!(poller.record(1, Ok(raw), 0).is_none());
    for number in 1..4 {
        let mut merge = poller.merged().unwrap();
        merge.prs.shift_remove(&make_id(2));
        let (snapshot, jobs) = poller.round(merge, at(7));
        assert_eq!(snapshot.generation, number);
        assert_eq!(snapshot.prs.len(), 2);
        assert_eq!(snapshot.polled_at, at(7));
        // The second is not in the snapshot, and the third has no head commit.
        assert_eq!(jobs.len(), 1);
        assert_eq!(jobs[0].id, make_id(1));
        assert_eq!(jobs[0].token, 1);
        let answers: Vec<CiAnswer> = jobs
            .into_iter()
            .map(|job| CiAnswer {
                id: job.id,
                sha: job.sha,
                status: None,
            })
            .collect();
        let ci = ci_payload(snapshot.generation, &answers);
        assert_eq!(ci.generation, number);
        assert_eq!(ci.statuses.len(), 1);
        assert_eq!(
            &ci.statuses.get(&make_id(1)).unwrap().head_sha,
            snapshot.head_shas.get(&make_id(1)).unwrap()
        );
    }
}

// --- dismissed mentions ---

#[test]
fn dismissals_begin_with_what_is_still_found() {
    let mut store = DismissStore::load_from("p", None).unwrap();
    store.dismiss(make_id(1), at(10));
    store.dismiss(make_id(2), at(20));
    store.saved();
    let mut found = IdSet::new();
    found.insert(make_id(2));
    found.insert(make_id(3));
    let left = begin_dismissals(&mut store, &found);
    assert_eq!(left.len(), 1);
    assert_eq!(left.get(&make_id(2)), Some(&at(20)));
    assert_eq!(store.get(&make_id(1)), None);
    assert_eq!(store.get(&make_id(2)), Some(at(20)));
    assert!(store.is_dirty());
    store.saved();
    begin_dismissals(&mut store, &found);
    assert!(!store.is_dirty());
}

fn at(secs: i64) -> Timestamp {
    Timestamp { secs, nanos: 0 }
}

fn comment(secs: i64, author: Option<&str>, body: &str) -> RecentComment {
    RecentComment {
        body_text: body.to_string(),
        created_at: at(secs),
        author_login: author.map(String::from),
    }
}

#[test]
fn mention_counts_when_new_and_by_somebody_else() {
    let again = |c: RecentComment| mentioned_again(&vec![c], at(100), "me");
    assert!(again(comment(101, Some("you"), "@me look")));
    assert!(again(comment(101, None, "@me look")));
    assert!(!again(comment(100, Some("you"), "@me look")));
    assert!(!again(comment(101, Some("ME"), "@me look")));
    assert!(!again(comment(101, Some("you"), "nothing")));
    assert!(!mentioned_again(&vec![], at(0), "me"));
}

fn mention(number: u64, updated: i64) -> PullRequest {
    let node = make_node("org", "repo", number);
    let mut pr = pr_of_node(&node, PrRole::Mentioned, None, None);
    pr.updated_at = at(updated);
    pr
}

#[test]
fn dismissed_mention_stays_out_until_it_comes_up_again() {
    let mut store = DismissStore::load_from("x", None).unwrap();
    store.dismiss(make_id(1), at(100));
    store.dismiss(make_id(2), at(100));
    store.dismiss(make_id(3), at(100));
    store.saved();
    let mut prs = IndexMap::new();
    prs.insert(make_id(1), mention(1, 200));
    prs.insert(make_id(2), mention(2, 200));
    prs.insert(make_id(3), mention(3, 50));
    prs.insert(make_id(4), mention(4, 200));
    let mut reviewed = mention(5, 200);
    reviewed.role = PrRole::ReviewRequested;
    prs.insert(make_id(5), reviewed);
    let mut owners = IdMap::new();
    for number in 1..=5 {
        owners.insert(make_id(number), 0);
    }

    let candidates = recheck_candidates(&prs, &store.snapshot(), &owners, 0);
    assert_eq!(candidates, vec![(make_id(1), at(100)), (make_id(2), at(100))]);
    assert!(recheck_candidates(&prs, &store.snapshot(), &owners, 1).is_empty());

    let mut comments = IdMap::new();
    comments.insert(make_id(1), vec![comment(150, Some("you"), "ping @me")]);
    comments.insert(make_id(2), vec![comment(150, Some("me"), "ping @me")]);
    undismiss_mentioned(&mut store, &candidates, &comments, "me");
    assert_eq!(store.get(&make_id(1)), None);
    assert_eq!(store.get(&make_id(2)), Some(at(100)));
    assert!(store.is_dirty());

    drop_dismissed(&mut prs, &store.dismissed_ids());
    let left: Vec<u64> = prs.keys().map(|id| id.number).collect();
    assert_eq!(left, vec![1, 4, 5]);
}

#[test]
fn answers_decide_which_dismissed_mentions_come_back() {
    let mut store = DismissStore::load_from("x", None).unwrap();
    let mut prs = IndexMap::new();
    let mut owners = IdMap::new();
    for number in 1..=4 {
        store.dismiss(make_id(number), at(100));
        prs.insert(make_id(number), mention(number, 200));
        owners.insert(make_id(number), (number % 2) as usize);
    }
    store.saved();
    let mut comments = IdMap::new();
    for number in 1..=3 {
        comments.insert(make_id(number), vec![comment(150, Some("you"), "@me")]);
    }
    let dismissed = store.snapshot();
    // The question through token 0 failed; token 1 found the odd ones.
    let answers = vec![None, Some(comments)];
    apply_dismissals(&mut store, "me", &mut prs, &dismissed, &owners, &answers);
    let left: Vec<u64> = prs.keys().map(|id| id.number).collect();
    assert_eq!(left, vec![1, 3]);
    assert_eq!(store.get(&make_id(1)), None);
    assert_eq!(store.get(&make_id(2)), Some(at(100)));
    assert!(store.is_dirty());
}

#[test]
fn comments_are_found_by_their_alias() {
    let ids = vec![make_id(5), make_id(6), make_id(7)];
    let reply = |alias: &str, body: &str, created_at: &str| CommentsReply {
        alias: alias.to_string(),
        comments: vec![CommentReply {
            body_text: body.to_string(),
            created_at: created_at.to_string(),
            author_login: None,
        }],
    };
    let replies = vec![
        reply("pr2", "third", "2024-01-01T00:00:00Z"),
        reply("pr0", "first", "never"),
        reply("pr9", "nobody", "2024-01-01T00:00:00Z"),
    ];
    let comments = comments_by_pr(&ids, &replies);
    assert_eq!(comments.len(), 2);
    assert_eq!(comments.get(&make_id(5)).unwrap()[0].body_text, "first");
    assert_eq!(
        comments.get(&make_id(5)).unwrap()[0].created_at,
        Timestamp::default()
    );
    assert_eq!(
        comments.get(&make_id(7)).unwrap()[0].created_at,
        at(1_704_067_200)
    );
    assert!(comments.get(&make_id(6)).is_none());
}
