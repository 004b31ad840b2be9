//! The talk with GitHub.
use prtop::error::AppError;
use prtop::github::client::{
    check_refusal, check_runs_url, ci_reply, ci_urls, combined_status_url, compute_ci_status, graphql_url,
    is_success, page_of, CiReply, Search, GITHUB_API_BASE, MAX_PAGES,
};
use prtop::github::query::{
    author_closed_search_query, author_search_query, mentions_closed_search_query,
    mentions_search_query, recent_comments_query, review_requested_closed_search_query,
    review_requested_search_query, SEARCH_PRS_QUERY,
};
use prtop::github::types::{
    CheckRun, CheckRunsResponse, CombinedStatusResponse, CommitStatus, GraphQlError,
    GraphQlResponse, PageInfo, ResponseData, SearchResult,
};
use prtop::types::{CiStatus, PrId};

fn page(has_next_page: bool, end_cursor: Option<&str>) -> GraphQlResponse {
    GraphQlResponse {
        data: Some(ResponseData {
            search: SearchResult {
                issue_count: 0,
                page_info: PageInfo {
                    has_next_page,
                    end_cursor: end_cursor.map(String::from),
                },
                nodes: vec![],
            },
        }),
        errors: None,
    }
}

#[test]
fn returns_empty_nodes_on_empty_response() {
    let mut search = Search::new("author:user", MAX_PAGES);
    let request = search.next_request().unwrap();
    assert_eq!(request.query, "author:user");
    assert_eq!(request.first, 50);
    assert_eq!(request.after, None);
    search.take_page(page(false, None)).unwrap();
    assert!(search.next_request().is_none());
    assert!(search.nodes.is_empty());
}

#[test]
fn returns_auth_error_on_401_without_rate_limit() {
    let e = check_refusal(401, "401 Unauthorized", None, None, "bad token");
    assert!(matches!(e, Some(AppError::Auth(what)) if what == "401 Unauthorized: bad token"));
}

#[test]
fn returns_auth_error_on_403_without_rate_limit() {
    let e = check_refusal(403, "403 Forbidden", None, Some("12"), "");
    assert!(matches!(e, Some(AppError::Auth(what)) if what == "403 Forbidden: "));
}

#[test]
fn returns_rate_limited_on_401_with_rate_remaining_zero() {
    let e = check_refusal(401, "401 Unauthorized", None, Some("0"), "");
    assert!(matches!(
        e,
        Some(AppError::RateLimited {
            retry_after_secs: 60
        })
    ));
}

#[test]
fn returns_rate_limited_with_retry_after_header() {
    let e = check_refusal(403, "403 Forbidden", Some("30"), None, "");
    assert!(matches!(
        e,
        Some(AppError::RateLimited {
            retry_after_secs: 30
        })
    ));
}

#[test]
fn other_refusals_and_success() {
    let e = check_refusal(500, "500 Internal Server Error", Some("30"), Some("0"), "oops");
    assert_eq!(
        e.unwrap().to_string(),
        "GraphQL error: 500 Internal Server Error: oops"
    );
    assert!(check_refusal(200, "200 OK", Some("30"), Some("0"), "").is_none());
    assert!(is_success(299) && !is_success(300) && !is_success(199));
    // A header that is no number counts as missing.
    let e = check_refusal(403, "403 Forbidden", Some("soon"), Some("x"), "");
    assert!(matches!(e, Some(AppError::Auth(_))));
}

#[test]
fn returns_graphql_error_on_errors_in_body() {
    let response = GraphQlResponse {
        data: None,
        errors: Some(vec![
            GraphQlError {
                message: "Something went wrong".to_string(),
            },
            GraphQlError {
                message: "twice".to_string(),
            },
        ]),
    };
    assert_eq!(
        page_of(response).unwrap_err().to_string(),
        "GraphQL error: Something went wrong; twice"
    );
}

#[test]
fn returns_graphql_error_when_no_data() {
    let response = GraphQlResponse {
        data: None,
        errors: None,
    };
    let mut search = Search::new("q", MAX_PAGES);
    let e = search.take_page(response).unwrap_err();
    assert_eq!(e.to_string(), "GraphQL error: No data in response");
    assert!(search.next_request().is_none());
}

#[test]
fn stops_at_max_pages() {
    let mut search = Search::new("author:user", MAX_PAGES);
    let mut requests = 0;
    while let Some(request) = search.next_request() {
        if requests > 0 {
            assert_eq!(request.after.as_deref(), Some("cursor123"));
        }
        requests += 1;
        search.take_page(page(true, Some("cursor123"))).unwrap();
    }
    assert_eq!(requests, MAX_PAGES);
    assert_eq!(MAX_PAGES, 4);
}

#[test]
fn texts_of_errors() {
    assert_eq!(
        AppError::Transient("timeout".to_string()).to_string(),
        "Transient HTTP error: timeout"
    );
    assert_eq!(
        AppError::RateLimited {
            retry_after_secs: 90
        }
        .to_string(),
        "GitHub rate limited, retry after 90s"
    );
    assert_eq!(
        AppError::Auth("x".to_string()).to_string(),
        "Authentication error: x"
    );
    assert_eq!(AppError::Io("x".to_string()).to_string(), "IO error: x");
}

#[test]
fn addresses() {
    assert_eq!(
        graphql_url(GITHUB_API_BASE),
        "https://api.github.com/graphql"
    );
    assert_eq!(
        combined_status_url(GITHUB_API_BASE, "o", "r", "abc"),
        "https://api.github.com/repos/o/r/commits/abc/status"
    );
    assert_eq!(
        check_runs_url("http://x", "o", "r", "abc"),
        "http://x/repos/o/r/commits/abc/check-runs"
    );
}

#[test]
fn search_queries() {
    assert_eq!(author_search_query("u"), "is:pr is:open author:u");
    assert_eq!(author_closed_search_query("u"), "is:pr -is:open author:u");
    assert_eq!(
        review_requested_search_query("u"),
        "is:pr is:open review-requested:u"
    );
    assert_eq!(
        review_requested_closed_search_query("u"),
        "is:pr -is:open review-requested:u"
    );
    assert_eq!(mentions_search_query("u"), "is:pr is:open mentions:u");
    assert_eq!(mentions_closed_search_query("u"), "is:pr -is:open mentions:u");
    assert!(SEARCH_PRS_QUERY.contains("headRefOid"));
    assert!(SEARCH_PRS_QUERY.starts_with("\nquery($query: String!, $first: Int!, $after: String) {"));
}

#[test]
fn recent_comments_question() {
    let id = |repo: &str, number: u64| PrId {
        owner: "org".to_string(),
        repo: repo.to_string(),
        number,
    };
    assert_eq!(recent_comments_query(&[]), "query { }");
    assert_eq!(
        recent_comments_query(&[id("a", 1), id("b", 12)]),
        "query { pr0: repository(owner: \"org\", name: \"a\") { pullRequest(number: 1) { comments(last: 20) { nodes { bodyText createdAt author { login } } } } } pr1: repository(owner: \"org\", name: \"b\") { pullRequest(number: 12) { comments(last: 20) { nodes { bodyText createdAt author { login } } } } } }"
    );
}

// --- the checks of a commit ---

fn combined(state: &str, statuses: usize) -> CombinedStatusResponse {
    CombinedStatusResponse {
        state: state.to_string(),
        statuses: (0..statuses)
            .map(|_| CommitStatus {
                state: Some(state.to_string()),
            })
            .collect(),
    }
}

fn runs(total_count: u64, list: &[(&str, Option<&str>)]) -> CheckRunsResponse {
    CheckRunsResponse {
        total_count,
        check_runs: list
            .iter()
            .map(|(status, conclusion)| CheckRun {
                status: status.to_string(),
                conclusion: conclusion.map(String::from),
            })
            .collect(),
    }
}

#[test]
fn ci_status_no_statuses_or_check_runs_returns_none() {
    let result = compute_ci_status(Some(&combined("pending", 0)), Some(&runs(0, &[])));
    assert_eq!(result, None);
}

#[test]
fn ci_status_pending_check_run_returns_pending() {
    let result = compute_ci_status(
        Some(&combined("success", 0)),
        Some(&runs(
            2,
            &[("in_progress", None), ("completed", Some("success"))],
        )),
    );
    assert_eq!(result, Some(CiStatus::Pending));
}

#[test]
fn ci_status_all_completed_success_returns_success() {
    let result = compute_ci_status(
        Some(&combined("success", 0)),
        Some(&runs(1, &[("completed", Some("success"))])),
    );
    assert_eq!(result, Some(CiStatus::Success));
}

#[test]
fn ci_status_failed_check_run_returns_failure() {
    let result = compute_ci_status(
        Some(&combined("success", 0)),
        Some(&runs(1, &[("completed", Some("failure"))])),
    );
    assert_eq!(result, Some(CiStatus::Failure));
    for conclusion in ["cancelled", "timed_out"] {
        let result = compute_ci_status(None, Some(&runs(1, &[("completed", Some(conclusion))])));
        assert_eq!(result, Some(CiStatus::Failure));
    }
}

#[test]
fn ci_status_combined_failure_returns_failure() {
    let result = compute_ci_status(Some(&combined("failure", 1)), Some(&runs(0, &[])));
    assert_eq!(result, Some(CiStatus::Failure));
    let result = compute_ci_status(Some(&combined("error", 1)), None);
    assert_eq!(result, Some(CiStatus::Failure));
}

#[test]
fn ci_status_403_on_check_runs_falls_back_to_combined_only() {
    assert!(matches!(ci_reply(403, "403 Forbidden", ""), CiReply::Absent));
    let result = compute_ci_status(Some(&combined("success", 1)), None);
    assert_eq!(result, Some(CiStatus::Success));
}

#[test]
fn ci_status_404_on_both_returns_none() {
    assert!(matches!(ci_reply(404, "404 Not Found", ""), CiReply::Absent));
    assert_eq!(compute_ci_status(None, None), None);
}

#[test]
fn ci_status_pending_goes_before_failure() {
    let result = compute_ci_status(
        Some(&combined("pending", 1)),
        Some(&runs(1, &[("completed", Some("failure"))])),
    );
    assert_eq!(result, Some(CiStatus::Pending));
}

#[test]
fn ci_replies_by_status() {
    assert!(matches!(ci_reply(200, "200 OK", ""), CiReply::Present));
    assert!(matches!(
        ci_reply(502, "502 Bad Gateway", "x"),
        CiReply::Failed(AppError::GraphQl(what)) if what == "502 Bad Gateway: x"
    ));
}

#[test]
fn nothing_is_asked_without_a_commit() {
    assert_eq!(ci_urls("http://x", "o", "r", ""), None);
    assert_eq!(
        ci_urls("http://x", "o", "r", "abc"),
        Some((
            "http://x/repos/o/r/commits/abc/status".to_string(),
            "http://x/repos/o/r/commits/abc/check-runs".to_string()
        ))
    );
}
