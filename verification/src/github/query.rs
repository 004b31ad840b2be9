//! The questions that are put to GitHub.
use crate::text::{decimal, push_decimal};
use crate::types::{PrId, PrIdView};
use vstd::prelude::*;
use vstd::string::*;

verus! {

/// The GraphQL question for a page of the results of a search.
pub const SEARCH_PRS_QUERY: &'static str = r#"
query($query: String!, $first: Int!, $after: String) {
  search(query: $query, type: ISSUE, first: $first, after: $after) {
    issueCount
    pageInfo {
      hasNextPage
      endCursor
    }
    nodes {
      ... on PullRequest {
        number
        title
        url
        state
        isDraft
        createdAt
        updatedAt
        reviewDecision
        headRefOid
        author {
          login
        }
        repository {
          name
          owner {
            login
          }
        }
        comments(last: 1) {
          totalCount
          nodes {
            author {
              login
            }
          }
        }
        reviewThreads {
          totalCount
        }
      }
    }
  }
}
"#;

/// The open pull requests of the user.
pub fn author_search_query(username: &str) -> (r: String)
    ensures
        r@ == "is:pr is:open author:"@ + username@,
{
    "is:pr is:open author:".to_owned().concat(username)
}

/// The closed and merged pull requests of the user.
pub fn author_closed_search_query(username: &str) -> (r: String)
    ensures
        r@ == "is:pr -is:open author:"@ + username@,
{
    "is:pr -is:open author:".to_owned().concat(username)
}

/// The open pull requests that the user is asked to review.
pub fn review_requested_search_query(username: &str) -> (r: String)
    ensures
        r@ == "is:pr is:open review-requested:"@ + username@,
{
    "is:pr is:open review-requested:".to_owned().concat(username)
}

/// The closed and merged pull requests that the user was asked to review.
pub fn review_requested_closed_search_query(username: &str) -> (r: String)
    ensures
        r@ == "is:pr -is:open review-requested:"@ + username@,
{
    "is:pr -is:open review-requested:".to_owned().concat(username)
}

/// The open pull requests that mention the user.
pub fn mentions_search_query(username: &str) -> (r: String)
    ensures
        r@ == "is:pr is:open mentions:"@ + username@,
{
    "is:pr is:open mentions:".to_owned().concat(username)
}

/// The closed and merged pull requests that mention the user.
pub fn mentions_closed_search_query(username: &str) -> (r: String)
    ensures
        r@ == "is:pr -is:open mentions:"@ + username@,
{
    "is:pr -is:open mentions:".to_owned().concat(username)
}

/// The name under which the question for recent comments asks of the pull request at `i`.
pub open spec fn alias_text(i: int) -> Seq<char> {
    "pr"@ + decimal(i as nat)
}

/// The name under which the question for recent comments asks of the pull request at `i`.
pub fn alias(i: usize) -> (r: String)
    ensures
        r@ == alias_text(i as int),
{
    let mut out = "pr".to_owned();
    push_decimal(&mut out, i as u64);
    out
}

/// The part of the question for recent comments that asks of the pull request at `i`.
pub open spec fn comments_part(i: int, id: PrIdView) -> Seq<char> {
    " "@ + alias_text(i) + ": repository(owner: \""@ + id.owner + "\", name: \""@ + id.repo
        + "\") { pullRequest(number: "@ + decimal(id.number as nat)
        + ") { comments(last: 20) { nodes { bodyText createdAt author { login } } } } }"@
}

/// The parts for the pull requests, in order.
pub open spec fn comments_parts(ids: Seq<PrId>) -> Seq<char>
    decreases ids.len(),
{
    if ids.len() == 0 {
        Seq::empty()
    } else {
        comments_parts(ids.drop_last()) + comments_part(ids.len() - 1, ids.last()@)
    }
}

fn push_comments_part(out: &mut String, i: usize, id: &PrId)
    ensures
        final(out)@ == old(out)@ + comments_part(i as int, id@),
{
    out.append(" ");
    out.append(alias(i).as_str());
    out.append(": repository(owner: \"");
    out.append(id.owner.as_str());
    out.append("\", name: \"");
    out.append(id.repo.as_str());
    out.append("\") { pullRequest(number: ");
    push_decimal(out, id.number);
    out.append(") { comments(last: 20) { nodes { bodyText createdAt author { login } } } } }");
    assert(out@ =~= old(out)@ + comments_part(i as int, id@));
}

/// The GraphQL question for the recent comments of several pull requests. Each of them has an alias
/// of its own, so the names in the answer depend on the question.
pub fn recent_comments_query(prs: &[PrId]) -> (r: String)
    ensures
        r@ == "query {"@ + comments_parts(prs@) + " }"@,
{
    let mut out = "query {".to_owned();
    assert(out@ =~= "query {"@ + comments_parts(prs@.take(0)));
    for i in 0..prs.len()
        invariant
            out@ == "query {"@ + comments_parts(prs@.take(i as int)),
    {
        push_comments_part(&mut out, i, &prs[i]);
        assert(prs@.take(i + 1).drop_last() =~= prs@.take(i as int));
        assert(out@ =~= "query {"@ + comments_parts(prs@.take(i + 1)));
    }
    assert(prs@.take(prs@.len() as int) =~= prs@);
    out.append(" }");
    out
}

/// Each pull request is asked of under the name `pr` and its place, behind those before it, with its
/// owner, its repository and its number.
pub proof fn questions_name_each_pull_request(ids: Seq<PrId>, id: PrId)
    ensures
        comments_parts(Seq::empty()) == Seq::<char>::empty(),
        comments_parts(ids.push(id)) == comments_parts(ids) + " pr"@ + decimal(ids.len())
            + ": repository(owner: \""@ + id.owner@ + "\", name: \""@ + id.repo@
            + "\") { pullRequest(number: "@ + decimal(id.number as nat)
            + ") { comments(last: 20) { nodes { bodyText createdAt author { login } } } } }"@,
{
    reveal_strlit(" pr");
    reveal_strlit(" ");
    reveal_strlit("pr");
    assert(" "@ + "pr"@ =~= " pr"@);
    assert(ids.push(id).drop_last() =~= ids);
    assert(comments_parts(ids.push(id)) =~= comments_parts(ids) + " pr"@ + decimal(ids.len())
        + ": repository(owner: \""@ + id.owner@ + "\", name: \""@ + id.repo@
        + "\") { pullRequest(number: "@ + decimal(id.number as nat)
        + ") { comments(last: 20) { nodes { bodyText createdAt author { login } } } } }"@);
}

} // verus!
