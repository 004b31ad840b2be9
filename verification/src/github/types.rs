//! The answers of GitHub.
use vstd::prelude::*;

verus! {

/// The answer to a GraphQL search.
#[derive(Debug)]
pub struct GraphQlResponse {
    pub data: Option<ResponseData>,
    pub errors: Option<Vec<GraphQlError>>,
}

#[derive(Debug)]
pub struct GraphQlError {
    pub message: String,
}

#[derive(Debug)]
pub struct ResponseData {
    pub search: SearchResult,
}

/// A page of the results of a search.
#[derive(Debug)]
pub struct SearchResult {
    pub issue_count: u64,
    pub page_info: PageInfo,
    pub nodes: Vec<PrNode>,
}

#[derive(Debug)]
pub struct PageInfo {
    pub has_next_page: bool,
    pub end_cursor: Option<String>,
}

#[derive(Debug)]
pub struct TotalCount {
    pub total_count: u64,
}

/// A pull request in the results of a search.
#[derive(Debug)]
pub struct PrNode {
    pub number: u64,
    pub title: String,
    pub url: String,
    pub state: String,
    pub is_draft: bool,
    pub created_at: String,
    pub updated_at: String,
    pub review_decision: Option<String>,
    pub head_ref_oid: String,
    pub author: Option<ActorNode>,
    pub repository: RepoNode,
    pub comments: CommentsConnection,
    pub review_threads: TotalCount,
}

#[derive(Debug)]
pub struct ActorNode {
    pub login: String,
}

#[derive(Debug)]
pub struct RepoNode {
    pub name: String,
    pub owner: RepoOwnerNode,
}

#[derive(Debug)]
pub struct RepoOwnerNode {
    pub login: String,
}

/// The number of comments, and the last of them.
#[derive(Debug)]
pub struct CommentsConnection {
    pub total_count: u64,
    pub nodes: Vec<CommentNode>,
}

#[derive(Debug)]
pub struct CommentNode {
    pub author: Option<ActorNode>,
}

/// The combined status of a commit.
#[derive(Debug)]
pub struct CombinedStatusResponse {
    pub state: String,
    pub statuses: Vec<CommitStatus>,
}

/// One of the statuses of a commit.
#[derive(Debug)]
pub struct CommitStatus {
    pub state: Option<String>,
}

/// The check runs of a commit.
#[derive(Debug)]
pub struct CheckRunsResponse {
    pub total_count: u64,
    pub check_runs: Vec<CheckRun>,
}

#[derive(Debug)]
pub struct CheckRun {
    pub status: String,
    pub conclusion: Option<String>,
}

/// A recent comment as GitHub gives it.
#[derive(Debug)]
pub struct CommentReply {
    pub body_text: String,
    pub created_at: String,
    pub author_login: Option<String>,
}

/// The recent comments of one pull request, under the alias that the question gave it.
#[derive(Debug)]
pub struct CommentsReply {
    pub alias: String,
    pub comments: Vec<CommentReply>,
}

} // verus!
