//! What changed between two collections.
use indexmap::IndexMap;
use prtop::diff::diff_pr_sets;
use prtop::timestamp::Timestamp;
use prtop::types::{PrId, PrRole, PrState, PullRequest};

const NOW: Timestamp = Timestamp { secs: 1_704_067_200, nanos: 0 };

fn make_pr(owner: &str, repo: &str, number: u64) -> (PrId, PullRequest) {
    let id = PrId {
        owner: owner.to_string(),
        repo: repo.to_string(),
        number,
    };
    let pr = PullRequest {
        id: id.clone(),
        title: format!("PR #{number}"),
        url: format!("https://github.com/{owner}/{repo}/pull/{number}"),
        author_login: "user".to_string(),
        role: PrRole::Author,
        state: PrState::Open,
        created_at: NOW,
        updated_at: NOW,
        is_draft: false,
        review_decision: None,
        total_comments: 0,
        last_commenter: None,
        ci_status: None,
    };
    (id, pr)
}

#[test]
fn empty_to_empty() {
    let prev = IndexMap::new();
    let curr = IndexMap::new();
    let diff = diff_pr_sets(&prev, &curr);
    assert!(diff.added.is_empty());
    assert!(diff.removed.is_empty());
    assert!(diff.updated.is_empty());
}

#[test]
fn detects_added() {
    let prev = IndexMap::new();
    let mut curr = IndexMap::new();
    let (id, pr) = make_pr("org", "repo", 1);
    curr.insert(id.clone(), pr);

    let diff = diff_pr_sets(&prev, &curr);
    assert_eq!(diff.added, vec![id]);
    assert!(diff.removed.is_empty());
}

#[test]
fn detects_removed() {
    let mut prev = IndexMap::new();
    let (id, pr) = make_pr("org", "repo", 1);
    prev.insert(id.clone(), pr);
    let curr = IndexMap::new();

    let diff = diff_pr_sets(&prev, &curr);
    assert!(diff.added.is_empty());
    assert_eq!(diff.removed, vec![id]);
}

#[test]
fn detects_updated() {
    let mut prev = IndexMap::new();
    let (id, pr) = make_pr("org", "repo", 1);
    prev.insert(id.clone(), pr);

    let mut curr = IndexMap::new();
    let (id2, mut pr2) = make_pr("org", "repo", 1);
    pr2.updated_at = Timestamp { secs: NOW.secs + 10, nanos: 0 };
    curr.insert(id2, pr2);

    let diff = diff_pr_sets(&prev, &curr);
    assert!(diff.added.is_empty());
    assert!(diff.removed.is_empty());
    assert_eq!(diff.updated, vec![id]);
}

#[test]
fn no_change_when_same() {
    let mut prev = IndexMap::new();
    let (id, pr) = make_pr("org", "repo", 1);
    let updated_at = pr.updated_at;
    prev.insert(id.clone(), pr);

    let mut curr = IndexMap::new();
    let (id2, mut pr2) = make_pr("org", "repo", 1);
    pr2.updated_at = updated_at;
    curr.insert(id2, pr2);

    let diff = diff_pr_sets(&prev, &curr);
    assert!(diff.added.is_empty());
    assert!(diff.removed.is_empty());
    assert!(diff.updated.is_empty());
}
fn make_pr_at(owner: &str, repo: &str, number: u64, updated_secs: i64) -> (PrId, PullRequest) {
    let (id, mut pr) = make_pr(owner, repo, number);
    pr.updated_at = Timestamp { secs: NOW.secs + updated_secs, nanos: 0 };
    (id, pr)
}

#[test]
fn mixed_add_remove_update() {
    let mut prev = IndexMap::new();
    let (id1, pr1) = make_pr_at("org", "repo", 1, 0);
    let (id2, pr2) = make_pr_at("org", "repo", 2, 0);
    prev.insert(id1.clone(), pr1);
    prev.insert(id2.clone(), pr2);

    let mut curr = IndexMap::new();
    // PR #1 updated
    let (id1b, pr1b) = make_pr_at("org", "repo", 1, 100);
    // PR #2 removed (not in curr)
    // PR #3 added
    let (id3, pr3) = make_pr_at("org", "repo", 3, 0);
    curr.insert(id1b, pr1b);
    curr.insert(id3.clone(), pr3);

    let diff = diff_pr_sets(&prev, &curr);
    assert_eq!(diff.added, vec![id3]);
    assert_eq!(diff.removed, vec![id2]);
    assert_eq!(diff.updated, vec![id1]);
}

#[test]
fn changes_come_in_the_order_of_the_collections() {
    let mut prev = IndexMap::new();
    let mut curr = IndexMap::new();
    for number in [5, 3, 4] {
        let (id, pr) = make_pr_at("org", "gone", number, 0);
        prev.insert(id, pr);
        let (id, pr) = make_pr_at("org", "new", number, 0);
        curr.insert(id, pr);
    }
    let diff = diff_pr_sets(&prev, &curr);
    let numbers = |ids: &Vec<PrId>| ids.iter().map(|id| id.number).collect::<Vec<_>>();
    assert_eq!(numbers(&diff.added), vec![5, 3, 4]);
    assert_eq!(numbers(&diff.removed), vec![5, 3, 4]);
    let same = diff_pr_sets(&curr, &curr);
    assert!(same.added.is_empty() && same.removed.is_empty() && same.updated.is_empty());
}
