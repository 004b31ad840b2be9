//! The rules of the talk with GitHub: how to page through a search, what a refusal means, and what
//! the checks of a commit amount to.
use crate::error::{AppError, ErrorView};
use crate::github::types::{
    CheckRun, CheckRunsResponse, CombinedStatusResponse, GraphQlError, GraphQlResponse, PrNode,
    SearchResult,
};
use crate::text::{number_in, parse_u64, same_text};
use crate::types::CiStatus;
use vstd::prelude::*;
use vstd::string::*;

verus! {

/// Where the interface of GitHub is.
pub const GITHUB_API_BASE: &'static str = "https://api.github.com";

/// How many results a page of a search holds.
pub const PAGE_SIZE: u64 = 50;

/// How many pages of a search are read at most.
pub const MAX_PAGES: u64 = 4;

// ---------------------------------------------------------------------------
// Refusals

pub open spec fn is_success_status(status: u16) -> bool {
    200 <= status <= 299
}

/// Whether an HTTP status says that the request succeeded.
pub fn is_success(status: u16) -> (r: bool)
    ensures
        r == is_success_status(status),
{
    200 <= status && status <= 299
}

/// The number in a header.
pub open spec fn header_number(header: Option<&str>) -> Option<u64> {
    match header {
        Some(text) => number_in(text@),
        None => None,
    }
}

fn read_header(header: Option<&str>) -> (r: Option<u64>)
    ensures
        r == header_number(header),
{
    match header {
        Some(text) => parse_u64(text),
        None => None,
    }
}

/// The status line and the body of an answer.
pub open spec fn refusal_text(status_line: Seq<char>, body: Seq<char>) -> Seq<char> {
    status_line + ": "@ + body
}

/// What an answer to a search refuses. On 401 and 403 the headers tell a rate limit from a token
/// that is not accepted.
pub open spec fn refusal(
    status: u16,
    status_line: Seq<char>,
    retry_after: Option<u64>,
    rate_remaining: Option<u64>,
    body: Seq<char>,
) -> Option<ErrorView> {
    if status == 401 || status == 403 {
        if rate_remaining == Some(0u64) || retry_after is Some {
            Some(
                ErrorView::RateLimited(
                    match retry_after {
                        Some(secs) => secs,
                        None => 60,
                    },
                ),
            )
        } else {
            Some(ErrorView::Auth(refusal_text(status_line, body)))
        }
    } else if !is_success_status(status) {
        Some(ErrorView::GraphQl(refusal_text(status_line, body)))
    } else {
        None
    }
}

fn refusal_message(status_line: &str, body: &str) -> (r: String)
    ensures
        r@ == refusal_text(status_line@, body@),
{
    let mut out = status_line.to_owned();
    out.append(": ");
    out.append(body);
    out
}

/// What an answer to a search refuses, given its status, the headers `retry-after` and
/// `x-ratelimit-remaining`, and its body.
pub fn check_refusal(
    status: u16,
    status_line: &str,
    retry_after: Option<&str>,
    rate_remaining: Option<&str>,
    body: &str,
) -> (r: Option<AppError>)
    ensures
        (match r {
            Some(e) => Some(e@),
            None => None,
        }) == refusal(
            status,
            status_line@,
            header_number(retry_after),
            header_number(rate_remaining),
            body@,
        ),
{
    if status == 401 || status == 403 {
        let retry = read_header(retry_after);
        let remaining = read_header(rate_remaining);
        let exhausted = match remaining {
            Some(count) => count == 0,
            None => false,
        };
        match retry {
            Some(secs) => Some(AppError::RateLimited { retry_after_secs: secs }),
            None => if exhausted {
                Some(AppError::RateLimited { retry_after_secs: 60 })
            } else {
                Some(AppError::Auth(refusal_message(status_line, body)))
            },
        }
    } else if !is_success(status) {
        Some(AppError::GraphQl(refusal_message(status_line, body)))
    } else {
        None
    }
}

// ---------------------------------------------------------------------------
// Searches

/// The messages of the errors, with `; ` between them.
pub open spec fn joined_messages(errors: Seq<GraphQlError>) -> Seq<char>
    decreases errors.len(),
{
    if errors.len() == 0 {
        Seq::empty()
    } else if errors.len() == 1 {
        errors[0].message@
    } else {
        joined_messages(errors.drop_last()) + "; "@ + errors.last().message@
    }
}

fn join_messages(errors: &Vec<GraphQlError>) -> (r: String)
    ensures
        r@ == joined_messages(errors@),
{
    let mut out = String::new();
    assert(out@ =~= joined_messages(errors@.take(0)));
    for i in 0..errors.len()
        invariant
            out@ == joined_messages(errors@.take(i as int)),
    {
        let ghost before = out@;
        if i > 0 {
            out.append("; ");
        }
        out.append(errors[i].message.as_str());
        proof {
            assert(errors@.take(i + 1).drop_last() =~= errors@.take(i as int));
            if i == 0 {
                assert(before =~= Seq::empty());
                assert(out@ =~= errors@[0].message@);
            }
        }
        assert(out@ =~= joined_messages(errors@.take(i + 1)));
    }
    assert(errors@.take(errors@.len() as int) =~= errors@);
    out
}

/// What keeps a GraphQL answer from being a page of results.
pub open spec fn page_fault(response: GraphQlResponse) -> Option<ErrorView> {
    match response.errors {
        Some(errors) => Some(ErrorView::GraphQl(joined_messages(errors@))),
        None => if response.data is None {
            Some(ErrorView::GraphQl("No data in response"@))
        } else {
            None
        },
    }
}

/// The page of results in a GraphQL answer.
pub fn page_of(response: GraphQlResponse) -> (r: Result<SearchResult, AppError>)
    ensures
        r is Ok <==> page_fault(response) is None,
        r matches Ok(page) ==> page == response.data->0.search,
        r matches Err(e) ==> page_fault(response) == Some(e@),
{
    let GraphQlResponse { data, errors } = response;
    if let Some(errors) = errors {
        return Err(AppError::GraphQl(join_messages(&errors)));
    }
    match data {
        Some(data) => Ok(data.search),
        None => Err(AppError::GraphQl("No data in response".to_owned())),
    }
}

/// A search that is under way.
#[derive(Debug)]
pub struct Search {
    pub query: String,
    /// How many pages may still be read.
    pub pages_left: u64,
    /// Where the next page starts.
    pub cursor: Option<String>,
    /// What the pages that were read hold.
    pub nodes: Vec<PrNode>,
}

/// The request for a page.
#[derive(Debug)]
pub struct PageRequest {
    pub query: String,
    pub first: u64,
    pub after: Option<String>,
}

impl Search {
    /// A search of which at most `max_pages` pages are to be read.
    pub fn new(query: &str, max_pages: u64) -> (r: Search)
        ensures
            r.query@ == query@,
            r.pages_left == max_pages,
            r.cursor is None,
            r.nodes@.len() == 0,
    {
        Search {
            query: query.to_owned(),
            pages_left: max_pages,
            cursor: None,
            nodes: Vec::new(),
        }
    }

    /// The request for the next page, where one is to be read.
    pub fn next_request(&self) -> (r: Option<PageRequest>)
        ensures
            r is Some <==> self.pages_left > 0,
            r matches Some(request) ==> request.query == self.query && request.first == PAGE_SIZE
                && request.after == self.cursor,
    {
        if self.pages_left == 0 {
            None
        } else {
            Some(
                PageRequest {
                    query: self.query.clone(),
                    first: PAGE_SIZE,
                    after: self.cursor.clone(),
                },
            )
        }
    }

    /// Takes up the answer to the request for the next page. The search ends with an error, with the
    /// last page, or with the last one that may be read.
    pub fn take_page(&mut self, response: GraphQlResponse) -> (r: Result<(), AppError>)
        requires
            old(self).pages_left > 0,
        ensures
            r is Ok <==> page_fault(response) is None,
            r matches Err(e) ==> page_fault(response) == Some(e@) && final(self).pages_left == 0
                && final(self).nodes@ == old(self).nodes@ && final(self).cursor == old(
                self,
            ).cursor,
            r is Ok ==> {
                let page = response.data->0.search;
                &&& final(self).nodes@ == old(self).nodes@ + page.nodes@
                &&& final(self).pages_left == if page.page_info.has_next_page {
                    old(self).pages_left - 1
                } else {
                    0
                }
                &&& final(self).cursor == if page.page_info.has_next_page {
                    page.page_info.end_cursor
                } else {
                    old(self).cursor
                }
            },
            final(self).query == old(self).query,
            final(self).pages_left < old(self).pages_left,
    {
        match page_of(response) {
            Err(e) => {
                self.pages_left = 0;
                Err(e)
            },
            Ok(page) => {
                let SearchResult { issue_count: _, page_info, mut nodes } = page;
                self.nodes.append(&mut nodes);
                if page_info.has_next_page {
                    self.cursor = page_info.end_cursor;
                    self.pages_left = self.pages_left - 1;
                } else {
                    self.pages_left = 0;
                }
                Ok(())
            },
        }
    }
}

// ---------------------------------------------------------------------------
// The checks of a commit

/// Where GraphQL questions go.
pub fn graphql_url(api_base: &str) -> (r: String)
    ensures
        r@ == api_base@ + "/graphql"@,
{
    api_base.to_owned().concat("/graphql")
}

/// The part of an address that names a commit.
pub open spec fn commit_path(
    api_base: Seq<char>,
    owner: Seq<char>,
    repo: Seq<char>,
    sha: Seq<char>,
) -> Seq<char> {
    api_base + "/repos/"@ + owner + "/"@ + repo + "/commits/"@ + sha
}

fn commit_url(api_base: &str, owner: &str, repo: &str, sha: &str) -> (r: String)
    ensures
        r@ == commit_path(api_base@, owner@, repo@, sha@),
{
    let mut out = api_base.to_owned();
    out.append("/repos/");
    out.append(owner);
    out.append("/");
    out.append(repo);
    out.append("/commits/");
    out.append(sha);
    out
}

/// Where the combined status of a commit is.
pub fn combined_status_url(api_base: &str, owner: &str, repo: &str, sha: &str) -> (r: String)
    ensures
        r@ == commit_path(api_base@, owner@, repo@, sha@) + "/status"@,
{
    commit_url(api_base, owner, repo, sha).concat("/status")
}

/// Where the check runs of a commit are.
pub fn check_runs_url(api_base: &str, owner: &str, repo: &str, sha: &str) -> (r: String)
    ensures
        r@ == commit_path(api_base@, owner@, repo@, sha@) + "/check-runs"@,
{
    commit_url(api_base, owner, repo, sha).concat("/check-runs")
}

/// Where the statuses and the check runs of a commit are. Without a commit there is nothing to ask
/// for.
pub fn ci_urls(api_base: &str, owner: &str, repo: &str, sha: &str) -> (r: Option<(String, String)>)
    ensures
        r is None <==> sha@.len() == 0,
        r matches Some(urls) ==> urls.0@ == commit_path(api_base@, owner@, repo@, sha@)
            + "/status"@ && urls.1@ == commit_path(api_base@, owner@, repo@, sha@)
            + "/check-runs"@,
{
    if sha.unicode_len() == 0 {
        None
    } else {
        Some(
            (
                combined_status_url(api_base, owner, repo, sha),
                check_runs_url(api_base, owner, repo, sha),
            ),
        )
    }
}

/// What the answer to a question about a commit is.
#[derive(Debug)]
pub enum CiReply {
    /// The token may not see it, or it is not there.
    Absent,
    /// The body holds it.
    Present,
    Failed(AppError),
}

/// What the answer to a question about a commit is, by its status.
pub fn ci_reply(status: u16, status_line: &str, body: &str) -> (r: CiReply)
    ensures
        r is Absent <==> status == 404 || status == 403,
        r is Present <==> is_success_status(status),
        r matches CiReply::Failed(e) ==> e@ == ErrorView::GraphQl(
            refusal_text(status_line@, body@),
        ),
{
    if status == 404 || status == 403 {
        CiReply::Absent
    } else if is_success(status) {
        CiReply::Present
    } else {
        CiReply::Failed(AppError::GraphQl(refusal_message(status_line, body)))
    }
}

pub open spec fn has_statuses(combined: Option<&CombinedStatusResponse>) -> bool {
    combined matches Some(c) && c.statuses@.len() > 0
}

pub open spec fn has_check_runs(check_runs: Option<&CheckRunsResponse>) -> bool {
    check_runs matches Some(runs) && runs.total_count > 0
}

pub open spec fn is_running(run: CheckRun) -> bool {
    run.status@ != "completed"@
}

pub open spec fn has_failed(run: CheckRun) -> bool {
    run.conclusion matches Some(conclusion) && (conclusion@ == "failure"@ || conclusion@
        == "cancelled"@ || conclusion@ == "timed_out"@)
}

pub open spec fn some_running(check_runs: Option<&CheckRunsResponse>) -> bool {
    check_runs matches Some(runs) && exists|i: int|
        0 <= i < runs.check_runs@.len() && is_running(#[trigger] runs.check_runs@[i])
}

pub open spec fn some_failed(check_runs: Option<&CheckRunsResponse>) -> bool {
    check_runs matches Some(runs) && exists|i: int|
        0 <= i < runs.check_runs@.len() && has_failed(#[trigger] runs.check_runs@[i])
}

/// What the statuses and check runs of a commit amount to: nothing where there are none; pending
/// while one of them is; then a failure where there is one, and else a success.
pub open spec fn ci_status_of(
    combined: Option<&CombinedStatusResponse>,
    check_runs: Option<&CheckRunsResponse>,
) -> Option<CiStatus> {
    if !has_statuses(combined) && !has_check_runs(check_runs) {
        None
    } else if some_running(check_runs) || (has_statuses(combined) && combined->0.state@
        == "pending"@) {
        Some(CiStatus::Pending)
    } else if some_failed(check_runs) || (combined matches Some(c) && (c.state@ == "failure"@
        || c.state@ == "error"@)) {
        Some(CiStatus::Failure)
    } else {
        Some(CiStatus::Success)
    }
}

/// What the statuses and check runs of a commit amount to.
pub fn compute_ci_status(
    combined: Option<&CombinedStatusResponse>,
    check_runs: Option<&CheckRunsResponse>,
) -> (r: Option<CiStatus>)
    ensures
        r == ci_status_of(combined, check_runs),
{
    let combined_present = match combined {
        Some(c) => c.statuses.len() > 0,
        None => false,
    };
    let check_runs_present = match check_runs {
        Some(runs) => runs.total_count > 0,
        None => false,
    };
    if !combined_present && !check_runs_present {
        return None;
    }
    if let Some(runs) = check_runs {
        for i in 0..runs.check_runs.len()
            invariant
                combined_present == has_statuses(combined),
                check_runs_present == has_check_runs(check_runs),
                combined_present || check_runs_present,
                check_runs == Some(runs),
                forall|j: int| 0 <= j < i ==> !is_running(#[trigger] runs.check_runs@[j]),
        {
            if !same_text(runs.check_runs[i].status.as_str(), "completed") {
                assert(is_running(runs.check_runs@[i as int]));
                return Some(CiStatus::Pending);
            }
        }
    }
    if let Some(c) = combined {
        if combined_present && same_text(c.state.as_str(), "pending") {
            return Some(CiStatus::Pending);
        }
    }
    if let Some(runs) = check_runs {
        for i in 0..runs.check_runs.len()
            invariant
                has_statuses(combined) || has_check_runs(check_runs),
                !some_running(check_runs),
                !(has_statuses(combined) && combined->0.state@ == "pending"@),
                check_runs == Some(runs),
                forall|j: int| 0 <= j < i ==> !has_failed(#[trigger] runs.check_runs@[j]),
        {
            if let Some(conclusion) = &runs.check_runs[i].conclusion {
                if same_text(conclusion.as_str(), "failure") || same_text(
                    conclusion.as_str(),
                    "cancelled",
                ) || same_text(conclusion.as_str(), "timed_out") {
                    assert(has_failed(runs.check_runs@[i as int]));
                    assert(check_runs->0.check_runs@[i as int] == runs.check_runs@[i as int]);
                    assert(some_failed(check_runs));
                    return Some(CiStatus::Failure);
                }
            }
        }
    }
    if let Some(c) = combined {
        if same_text(c.state.as_str(), "failure") || same_text(c.state.as_str(), "error") {
            return Some(CiStatus::Failure);
        }
    }
    Some(CiStatus::Success)
}

// ---------------------------------------------------------------------------
// What holds of the answers

/// While a check run is not completed, the status is pending, whatever else there is.
pub proof fn a_running_check_is_pending(
    combined: Option<&CombinedStatusResponse>,
    runs: &CheckRunsResponse,
    i: int,
)
    requires
        0 <= i < runs.check_runs@.len(),
        runs.check_runs@[i].status@ != "completed"@,
        runs.total_count > 0 || (combined is Some && combined->0.statuses@.len() > 0),
    ensures
        ci_status_of(combined, Some(runs)) == Some(CiStatus::Pending),
{
    let check_runs = Some(runs);
    assert(is_running(check_runs->0.check_runs@[i]));
    assert(some_running(check_runs));
}

/// A combined status that is pending makes the status pending, where there are statuses.
pub proof fn a_pending_status_is_pending(
    combined: &CombinedStatusResponse,
    check_runs: Option<&CheckRunsResponse>,
)
    requires
        combined.statuses@.len() > 0,
        combined.state@ == "pending"@,
    ensures
        ci_status_of(Some(combined), check_runs) == Some(CiStatus::Pending),
{
}

/// Where every check run is completed and the combined status is not pending, or has no statuses, a
/// check run that concluded with a failure, a cancellation or a timeout makes the status a failure,
/// whatever the combined status says.
pub proof fn a_failed_check_is_a_failure(
    combined: Option<&CombinedStatusResponse>,
    runs: &CheckRunsResponse,
    i: int,
)
    requires
        runs.total_count > 0 || (combined is Some && combined->0.statuses@.len() > 0),
        forall|j: int|
            0 <= j < runs.check_runs@.len() ==> (#[trigger] runs.check_runs@[j]).status@
                == "completed"@,
        combined is Some ==> combined->0.statuses@.len() == 0 || combined->0.state@ != "pending"@,
        0 <= i < runs.check_runs@.len(),
        runs.check_runs@[i].conclusion is Some,
        runs.check_runs@[i].conclusion->0@ == "failure"@ || runs.check_runs@[i].conclusion->0@
            == "cancelled"@ || runs.check_runs@[i].conclusion->0@ == "timed_out"@,
    ensures
        ci_status_of(combined, Some(runs)) == Some(CiStatus::Failure),
{
    assert(has_failed(runs.check_runs@[i]));
}

/// Where nothing is pending, a combined status of failure or error makes the status a failure,
/// whatever the check runs concluded with.
pub proof fn a_failed_status_is_a_failure(
    combined: &CombinedStatusResponse,
    check_runs: Option<&CheckRunsResponse>,
)
    requires
        combined.statuses@.len() > 0 || (check_runs is Some && check_runs->0.total_count > 0),
        check_runs is Some ==> forall|j: int|
            0 <= j < check_runs->0.check_runs@.len() ==> (
            #[trigger] check_runs->0.check_runs@[j]).status@ == "completed"@,
        combined.state@ == "failure"@ || combined.state@ == "error"@,
    ensures
        ci_status_of(Some(combined), check_runs) == Some(CiStatus::Failure),
{
    reveal_strlit("pending");
    reveal_strlit("failure");
    reveal_strlit("error");
    assert("pending"@[0] == 'p' && "failure"@[0] == 'f' && "error"@[0] == 'e');
}

/// The status is a success only where there are checks, every check run is completed, none of them
/// concluded with a failure, a cancellation or a timeout, and the combined status is neither a
/// failure nor an error, nor pending with statuses. And wherever that is so, it is one.
pub proof fn a_success_needs_every_check(
    combined: Option<&CombinedStatusResponse>,
    check_runs: Option<&CheckRunsResponse>,
)
    ensures
        ci_status_of(combined, check_runs) == Some(CiStatus::Success) <==> {
            &&& (combined is Some && combined->0.statuses@.len() > 0) || (check_runs is Some
                && check_runs->0.total_count > 0)
            &&& check_runs is Some ==> forall|j: int|
                0 <= j < check_runs->0.check_runs@.len() ==> {
                    let run = #[trigger] check_runs->0.check_runs@[j];
                    &&& run.status@ == "completed"@
                    &&& run.conclusion is None || (run.conclusion->0@ != "failure"@
                        && run.conclusion->0@ != "cancelled"@ && run.conclusion->0@
                        != "timed_out"@)
                }
            &&& combined is Some ==> combined->0.state@ != "failure"@ && combined->0.state@
                != "error"@ && (combined->0.state@ != "pending"@ || combined->0.statuses@.len()
                == 0)
        },
{
    if check_runs is Some {
        let runs = check_runs->0.check_runs@;
        if some_running(check_runs) {
            let j = choose|j: int| 0 <= j < runs.len() && is_running(#[trigger] runs[j]);
            assert(runs[j].status@ != "completed"@);
        }
        if some_failed(check_runs) {
            let j = choose|j: int| 0 <= j < runs.len() && has_failed(#[trigger] runs[j]);
            assert(runs[j].conclusion is Some);
        }
        assert forall|j: int| 0 <= j < runs.len() && !some_running(check_runs) && !some_failed(
            check_runs,
        ) implies ({
            let run = #[trigger] runs[j];
            &&& run.status@ == "completed"@
            &&& run.conclusion is None || (run.conclusion->0@ != "failure"@ && run.conclusion->0@
                != "cancelled"@ && run.conclusion->0@ != "timed_out"@)
        }) by {
            assert(!is_running(runs[j]));
            assert(!has_failed(runs[j]));
        }
    }
}

/// There is no status exactly where there are neither statuses nor check runs, and it is never one
/// that only GraphQL knows.
pub proof fn without_checks_there_is_no_status(
    combined: Option<&CombinedStatusResponse>,
    check_runs: Option<&CheckRunsResponse>,
)
    ensures
        ci_status_of(combined, check_runs) is None <==> (combined is None
            || combined->0.statuses@.len() == 0) && (check_runs is None || check_runs->0.total_count
            == 0),
        ci_status_of(combined, check_runs) matches Some(status) ==> status == CiStatus::Pending
            || status == CiStatus::Success || status == CiStatus::Failure,
{
}

/// The statuses from 200 to 299 refuse nothing. 401 and 403 are a rate limit where the headers say
/// when to retry, or that nothing remains, and else a token that is not accepted. A rate limit lasts
/// as long as the header says, or a minute. Any other status is an error of its own.
pub proof fn refusals_go_by_status_and_headers(
    status: u16,
    line: Seq<char>,
    retry_after: Option<u64>,
    remaining: Option<u64>,
    body: Seq<char>,
)
    ensures
        ({
            let what = refusal(status, line, retry_after, remaining, body);
            &&& 200 <= status < 300 <==> what is None
            &&& status == 401 || status == 403 ==> {
                &&& retry_after is Some ==> what == Some(ErrorView::RateLimited(retry_after->0))
                &&& retry_after is None && remaining == Some(0u64) ==> what == Some(
                    ErrorView::RateLimited(60),
                )
                &&& retry_after is None && remaining != Some(0u64) ==> what == Some(
                    ErrorView::Auth(line + seq![':', ' '] + body),
                )
            }
            &&& !(200 <= status < 300) && status != 401 && status != 403 ==> what == Some(
                ErrorView::GraphQl(line + seq![':', ' '] + body),
            )
            &&& is_success_status(status) <==> 200 <= status < 300
        }),
{
    reveal_strlit(": ");
    assert(": "@ =~= seq![':', ' ']);
}

/// A header is read as a number.
pub proof fn headers_are_numbers(header: Option<&str>)
    ensures
        header is None ==> header_number(header) is None,
        header is Some ==> header_number(header) == number_in(header->0@),
{
}

/// Errors keep a GraphQL answer from being a page, even beside data; their messages stand one behind
/// the other. So does the lack of data.
pub proof fn errors_go_before_data(response: GraphQlResponse)
    ensures
        response.errors is Some ==> page_fault(response) == Some(
            ErrorView::GraphQl(joined_messages(response.errors->0@)),
        ),
        response.errors is None && response.data is None ==> page_fault(response) == Some(
            ErrorView::GraphQl("No data in response"@),
        ),
        response.errors is None && response.data is Some ==> page_fault(response) is None,
{
}

/// Messages are joined with a semicolon and a space between them, and nothing around them.
pub proof fn messages_are_joined(one: Seq<GraphQlError>, other: Seq<GraphQlError>)
    ensures
        one.len() > 0 && other.len() > 0 ==> joined_messages(one + other) == joined_messages(one)
            + seq![';', ' '] + joined_messages(other),
        one.len() == 1 ==> joined_messages(one) == one[0].message@,
        one.len() == 0 ==> joined_messages(one) == Seq::<char>::empty(),
    decreases other.len(),
{
    reveal_strlit("; ");
    assert("; "@ =~= seq![';', ' ']);
    if one.len() > 0 && other.len() > 0 {
        let both = one + other;
        assert(both.drop_last() =~= one + other.drop_last());
        assert(both.last() == other.last());
        if other.len() == 1 {
            assert(one + other.drop_last() =~= one);
            assert(joined_messages(both) =~= joined_messages(one) + seq![';', ' ']
                + joined_messages(other));
        } else {
            messages_are_joined(one, other.drop_last());
            assert(joined_messages(both) =~= joined_messages(one) + seq![';', ' ']
                + joined_messages(other));
        }
    }
}

/// The address of a commit names the owner, the repository and the commit, in this order.
pub proof fn addresses_name_the_commit(
    api_base: Seq<char>,
    owner: Seq<char>,
    repo: Seq<char>,
    sha: Seq<char>,
)
    ensures
        commit_path(api_base, owner, repo, sha) == api_base + "/repos/"@ + owner + seq!['/'] + repo
            + "/commits/"@ + sha,
{
    reveal_strlit("/");
    assert("/"@ =~= seq!['/']);
}

} // verus!
