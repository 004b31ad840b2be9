//! The poller: which token is polled when, what becomes of an answer, and what a poll brings.
use crate::ci::{are_jobs, ci_jobs, CiJob};
use crate::error::{error_text, AppError, ErrorView};
use crate::github::client::MAX_PAGES;
use crate::github::query::{
    author_closed_search_query, author_search_query, mentions_closed_search_query,
    mentions_search_query, review_requested_closed_search_query, review_requested_search_query,
};
use crate::github::types::PrNode;
use crate::ids::IdMap;
use crate::merge::{
    candidate_ids, candidates, is_merge, merge_caches, role_candidates, CacheMerge, RawPoll,
};
use crate::pr_map::{key_set, keys_of_prs, pr_entries};
use crate::text::{decimal, push_decimal};
use crate::timestamp::Timestamp;
use crate::types::{CiStatus, PrId, PrRole, PullRequest};
use indexmap::IndexMap;
use vstd::prelude::*;
use vstd::string::*;

verus! {

/// What the poller sends.
pub enum PollEvent {
    Snapshot(PollPayload),
    Ci(CiPayload),
}

/// The pull requests that a poll found, before their CI status is known.
pub struct PollPayload {
    pub generation: u64,
    pub prs: IndexMap<PrId, PullRequest>,
    pub head_shas: IdMap<String>,
    pub polled_at: Timestamp,
}

/// The CI status of the pull requests of a snapshot.
pub struct CiPayload {
    pub generation: u64,
    pub statuses: IdMap<CiUpdate>,
}

/// The CI status of a commit.
#[derive(Debug)]
pub struct CiUpdate {
    pub head_sha: String,
    pub status: Option<CiStatus>,
}

/// How many questions about commits are open at a time.
pub const MAX_CONCURRENT_CI: usize = 16;

// ---------------------------------------------------------------------------
// The searches of a poll

/// A search and how many of its pages are read at most.
#[derive(Debug)]
pub struct PlannedSearch {
    pub query: String,
    pub max_pages: u64,
}

/// The searches of a poll: for each role one for open pull requests and one for the others.
pub fn planned_searches(username: &str) -> (r: Vec<PlannedSearch>)
    ensures
        r@.len() == 6,
        r@[0].query@ == "is:pr is:open author:"@ + username@ && r@[0].max_pages == MAX_PAGES,
        r@[1].query@ == "is:pr -is:open author:"@ + username@ && r@[1].max_pages == 1,
        r@[2].query@ == "is:pr is:open review-requested:"@ + username@ && r@[2].max_pages
            == MAX_PAGES,
        r@[3].query@ == "is:pr -is:open review-requested:"@ + username@ && r@[3].max_pages == 1,
        r@[4].query@ == "is:pr is:open mentions:"@ + username@ && r@[4].max_pages == MAX_PAGES,
        r@[5].query@ == "is:pr -is:open mentions:"@ + username@ && r@[5].max_pages == 1,
{
    vec![
        PlannedSearch { query: author_search_query(username), max_pages: MAX_PAGES },
        PlannedSearch { query: author_closed_search_query(username), max_pages: 1 },
        PlannedSearch { query: review_requested_search_query(username), max_pages: MAX_PAGES },
        PlannedSearch { query: review_requested_closed_search_query(username), max_pages: 1 },
        PlannedSearch { query: mentions_search_query(username), max_pages: MAX_PAGES },
        PlannedSearch { query: mentions_closed_search_query(username), max_pages: 1 },
    ]
}

/// The outcomes of the searches of a poll.
pub struct SearchOutcomes {
    pub author_open: Result<Vec<PrNode>, AppError>,
    pub author_closed: Result<Vec<PrNode>, AppError>,
    pub review_open: Result<Vec<PrNode>, AppError>,
    pub review_closed: Result<Vec<PrNode>, AppError>,
    pub mentions_open: Result<Vec<PrNode>, AppError>,
    pub mentions_closed: Result<Vec<PrNode>, AppError>,
}

impl SearchOutcomes {
    /// The first error, in the order of the searches.
    pub open spec fn error(self) -> Option<AppError> {
        match (
            self.author_open,
            self.author_closed,
            self.review_open,
            self.review_closed,
            self.mentions_open,
            self.mentions_closed,
        ) {
            (Err(e), _, _, _, _, _) => Some(e),
            (_, Err(e), _, _, _, _) => Some(e),
            (_, _, Err(e), _, _, _) => Some(e),
            (_, _, _, Err(e), _, _) => Some(e),
            (_, _, _, _, Err(e), _) => Some(e),
            (_, _, _, _, _, Err(e)) => Some(e),
            _ => None,
        }
    }
}

fn joined(open: Result<Vec<PrNode>, AppError>, closed: Result<Vec<PrNode>, AppError>) -> (r: Result<
    Vec<PrNode>,
    AppError,
>)
    ensures
        match r {
            Ok(nodes) => open is Ok && closed is Ok && nodes@ == open->Ok_0@ + closed->Ok_0@,
            Err(e) => if open is Err {
                e == open->Err_0
            } else {
                closed is Err && e == closed->Err_0
            },
        },
{
    match open {
        Err(e) => Err(e),
        Ok(mut nodes) => match closed {
            Err(e) => Err(e),
            Ok(mut more) => {
                nodes.append(&mut more);
                Ok(nodes)
            },
        },
    }
}

/// What the searches of a poll found, or the first error.
pub fn raw_poll(outcomes: SearchOutcomes) -> (r: Result<RawPoll, AppError>)
    ensures
        match r {
            Ok(raw) => {
                &&& outcomes.error() is None
                &&& raw.author@ == outcomes.author_open->Ok_0@ + outcomes.author_closed->Ok_0@
                &&& raw.review@ == outcomes.review_open->Ok_0@ + outcomes.review_closed->Ok_0@
                &&& raw.mentioned@ == outcomes.mentions_open->Ok_0@
                    + outcomes.mentions_closed->Ok_0@
            },
            Err(e) => outcomes.error() == Some(e),
        },
{
    let SearchOutcomes {
        author_open,
        author_closed,
        review_open,
        review_closed,
        mentions_open,
        mentions_closed,
    } = outcomes;
    let author = match joined(author_open, author_closed) {
        Ok(nodes) => nodes,
        Err(e) => {
            return Err(e);
        },
    };
    let review = match joined(review_open, review_closed) {
        Ok(nodes) => nodes,
        Err(e) => {
            return Err(e);
        },
    };
    let mentioned = match joined(mentions_open, mentions_closed) {
        Ok(nodes) => nodes,
        Err(e) => {
            return Err(e);
        },
    };
    Ok(RawPoll { author, review, mentioned })
}

// ---------------------------------------------------------------------------
// When a token is polled

/// What is known of a token. Times are in nanoseconds on the clock of the poller.
#[derive(Debug)]
pub struct TokenState {
    /// What the last poll that succeeded found.
    pub cache: Option<RawPoll>,
    pub next_poll: u128,
    pub backoff_secs: u64,
    /// Whether the next poll is a try after an error, which a refresh does not bring forward.
    pub retrying: bool,
    /// Whether GitHub refused the token, which is then not used again.
    pub disabled: bool,
}

impl TokenState {
    pub open spec fn wf(&self) -> bool {
        self.backoff_secs <= 60 && (self.cache matches Some(raw) ==> raw.wf())
    }

    pub open spec fn due_at(&self, now: u64) -> bool {
        !self.disabled && self.next_poll <= now
    }
}

/// The time `secs` seconds after `now`.
pub open spec fn after_secs(now: u64, secs: u64) -> u128 {
    (now + secs * 1_000_000_000) as u128
}

fn later(now: u64, secs: u64) -> (r: u128)
    ensures
        r == after_secs(now, secs),
        r == now + secs * 1_000_000_000,
{
    now as u128 + secs as u128 * 1_000_000_000u128
}

/// The seconds to wait after one more failure: two at first, then twice as many as before, up to a
/// minute.
pub open spec fn next_backoff(secs: u64) -> u64 {
    if secs == 0 {
        2
    } else if 2 * secs > 60 {
        60
    } else {
        (2 * secs) as u64
    }
}

/// What is known of a token after a poll.
pub open spec fn after_poll(
    state: TokenState,
    outcome: Result<RawPoll, AppError>,
    now: u64,
    interval_secs: u64,
) -> TokenState {
    match outcome {
        Ok(raw) => TokenState {
            cache: Some(raw),
            backoff_secs: 0,
            retrying: false,
            next_poll: after_secs(now, interval_secs),
            ..state
        },
        Err(AppError::Auth(_)) => TokenState { disabled: true, retrying: false, ..state },
        Err(AppError::RateLimited { retry_after_secs }) => TokenState {
            retrying: true,
            next_poll: after_secs(now, retry_after_secs),
            ..state
        },
        Err(_) => TokenState {
            retrying: true,
            backoff_secs: next_backoff(state.backoff_secs),
            next_poll: after_secs(now, next_backoff(state.backoff_secs)),
            ..state
        },
    }
}

/// How a message about the token at `i` begins: tokens are counted from one.
pub open spec fn token_text(i: int) -> Seq<char> {
    "GitHub token #"@ + decimal((i + 1) as nat) + ": "@
}

/// What is said of a failed poll.
pub open spec fn failure_text(i: int, e: ErrorView, backoff_secs: u64) -> Seq<char> {
    token_text(i) + match e {
        ErrorView::Auth(what) => "Auth error: "@ + what,
        ErrorView::RateLimited(secs) => "Rate limited. Retry after "@ + decimal(secs as nat) + "s"@,
        _ => error_text(e) + " (retry in "@ + decimal(next_backoff(backoff_secs) as nat) + "s)"@,
    }
}

fn push_token(out: &mut String, i: usize)
    requires
        i < usize::MAX,
    ensures
        final(out)@ == old(out)@ + token_text(i as int),
{
    out.append("GitHub token #");
    push_decimal(out, (i + 1) as u64);
    out.append(": ");
    assert(out@ =~= old(out)@ + token_text(i as int));
}

/// What is said where the recent comments cannot be had.
pub fn recheck_failure(i: usize, e: &AppError) -> (r: String)
    requires
        i < usize::MAX,
    ensures
        r@ == token_text(i as int) + "Mention re-check failed: "@ + error_text(e@),
{
    let mut out = String::new();
    push_token(&mut out, i);
    out.append("Mention re-check failed: ");
    out.append(e.to_string().as_str());
    assert(out@ =~= token_text(i as int) + "Mention re-check failed: "@ + error_text(e@));
    out
}

/// What is said where the dismissals cannot be saved.
pub fn save_failure(e: &AppError) -> (r: String)
    ensures
        r@ == "Failed to save dismissals: "@ + error_text(e@),
{
    "Failed to save dismissals: ".to_owned().concat(e.to_string().as_str())
}

/// The tokens, the interval between polls, and the number of the last snapshot.
#[derive(Debug)]
pub struct Poller {
    pub tokens: Vec<TokenState>,
    pub interval_secs: u64,
    pub generation: u64,
}

/// What the tokens have found, with their numbers.
pub open spec fn cached<'a>(tokens: Seq<TokenState>) -> Seq<(usize, &'a RawPoll)>
    decreases tokens.len(),
{
    if tokens.len() == 0 {
        Seq::empty()
    } else {
        let before = cached(tokens.drop_last());
        match tokens.last().cache {
            Some(raw) => before.push(((tokens.len() - 1) as usize, &raw)),
            None => before,
        }
    }
}

/// The number of the snapshot after the one of the given number.
pub open spec fn next_generation(generation: u64) -> u64 {
    if generation == u64::MAX {
        0
    } else {
        (generation + 1) as u64
    }
}

/// Whether the numbers are those of the tokens that are due, in order.
pub open spec fn is_due_list(due: Seq<usize>, tokens: Seq<TokenState>, now: u64) -> bool {
    &&& forall|i: int, j: int|
        #![trigger due[i], due[j]]
        0 <= i < j < due.len() ==> due[i] < due[j]
    &&& forall|i: usize| #[trigger]
        due.contains(i) <==> i < tokens.len() && tokens[i as int].due_at(now)
}

/// Whether `wake` is when the next token is due, or after the interval where no token is left.
pub open spec fn is_wake(
    wake: u128,
    tokens: Seq<TokenState>,
    now: u64,
    interval_secs: u64,
) -> bool {
    &&& some_enabled(tokens) ==> {
        &&& exists|i: int|
            0 <= i < tokens.len() && !tokens[i].disabled && (#[trigger] tokens[i]).next_poll == wake
        &&& forall|i: int|
            0 <= i < tokens.len() && !(#[trigger] tokens[i]).disabled ==> wake
                <= tokens[i].next_poll
    }
    &&& !some_enabled(tokens) ==> wake == after_secs(now, interval_secs)
}

/// Whether `after` is what a refresh makes of the tokens: those that are neither refused nor waiting
/// after an error are due.
pub open spec fn are_refreshed(
    before: Seq<TokenState>,
    after: Seq<TokenState>,
    now: u64,
) -> bool {
    &&& after.len() == before.len()
    &&& forall|i: int|
        0 <= i < after.len() ==> #[trigger] after[i] == if before[i].disabled || before[i].retrying {
            before[i]
        } else {
            TokenState { next_poll: now as u128, ..before[i] }
        }
}

/// Whether a merge is that of what the tokens have found.
pub open spec fn is_merge_of(merge: CacheMerge, tokens: Seq<TokenState>) -> bool {
    &&& merge.shas.wf()
    &&& merge.owners.wf()
    &&& merge.mention_ids.wf()
    &&& is_merge(candidates(cached(tokens)), pr_entries(merge.prs), merge.shas@, merge.owners@)
    &&& merge.mention_ids@ == candidate_ids(role_candidates(cached(tokens), PrRole::Mentioned))
}

/// What is said of the outcome of a poll of the token at `i`.
pub open spec fn said_of(
    state: TokenState,
    i: int,
    outcome: Result<RawPoll, AppError>,
) -> Option<Seq<char>> {
    match outcome {
        Ok(_) => None,
        Err(e) => Some(failure_text(i, e@, state.backoff_secs)),
    }
}

pub open spec fn some_enabled(tokens: Seq<TokenState>) -> bool {
    exists|i: int| 0 <= i < tokens.len() && !(#[trigger] tokens[i]).disabled
}

impl Poller {
    pub open spec fn wf(&self) -> bool {
        forall|i: int| 0 <= i < self.tokens@.len() ==> (#[trigger] self.tokens@[i]).wf()
    }

    /// A poller of `count` tokens, all of which are due.
    pub fn new(count: usize, interval_secs: u64, now: u64) -> (r: Poller)
        ensures
            r.wf(),
            r.interval_secs == interval_secs,
            r.generation == 0,
            r.tokens@.len() == count,
            forall|i: int|
                0 <= i < count ==> #[trigger] r.tokens@[i] == (TokenState {
                    cache: None,
                    next_poll: now as u128,
                    backoff_secs: 0,
                    retrying: false,
                    disabled: false,
                }),
    {
        let mut tokens: Vec<TokenState> = Vec::new();
        for i in 0..count
            invariant
                tokens@.len() == i,
                forall|j: int|
                    0 <= j < i ==> #[trigger] tokens@[j] == (TokenState {
                        cache: None,
                        next_poll: now as u128,
                        backoff_secs: 0,
                        retrying: false,
                        disabled: false,
                    }),
        {
            tokens.push(
                TokenState {
                    cache: None,
                    next_poll: now as u128,
                    backoff_secs: 0,
                    retrying: false,
                    disabled: false,
                },
            );
        }
        Poller { tokens, interval_secs, generation: 0 }
    }

    /// The tokens that are due, in order.
    pub fn due(&self, now: u64) -> (r: Vec<usize>)
        ensures
            is_due_list(r@, self.tokens@, now),
    {
        let mut out: Vec<usize> = Vec::new();
        for i in 0..self.tokens.len()
            invariant
                forall|a: int, b: int|
                    #![trigger out@[a], out@[b]]
                    0 <= a < b < out@.len() ==> out@[a] < out@[b],
                forall|a: int| 0 <= a < out@.len() ==> (#[trigger] out@[a]) < i,
                forall|j: usize| #[trigger]
                    out@.contains(j) <==> j < i && self.tokens@[j as int].due_at(now),
        {
            let ghost before = out@;
            let state = &self.tokens[i];
            if !state.disabled && state.next_poll <= now as u128 {
                out.push(i);
            }
            assert forall|j: usize| #[trigger]
                out@.contains(j) <==> j < i + 1 && self.tokens@[j as int].due_at(now) by {
                if before.contains(j) {
                    let k = choose|k: int| 0 <= k < before.len() && before[k] == j;
                    assert(out@[k] == j);
                }
                if out@.contains(j) && j != i {
                    let k = choose|k: int| 0 <= k < out@.len() && out@[k] == j;
                    assert(before[k] == j);
                }
                if j == i && self.tokens@[j as int].due_at(now) {
                    assert(out@[before.len() as int] == j);
                }
            }
        }
        out
    }

    /// Takes up the outcome of a poll of the token at `i`, and gives what is to be said of a failure.
    /// A failure leaves what the token found before, and the other tokens, as they are.
    pub fn record(&mut self, i: usize, outcome: Result<RawPoll, AppError>, now: u64) -> (r: Option<
        String,
    >)
        requires
            old(self).wf(),
            i < old(self).tokens@.len(),
            outcome matches Ok(raw) ==> raw.wf(),
        ensures
            final(self).wf(),
            final(self).tokens@ == old(self).tokens@.update(
                i as int,
                after_poll(old(self).tokens@[i as int], outcome, now, old(self).interval_secs),
            ),
            final(self).interval_secs == old(self).interval_secs,
            final(self).generation == old(self).generation,
            (match r {
                Some(text) => Some(text@),
                None => None,
            }) == said_of(old(self).tokens@[i as int], i as int, outcome),
    {
        let interval = self.interval_secs;
        assert(i < self.tokens.len());
        let mut state = TokenState {
            cache: None,
            next_poll: 0,
            backoff_secs: 0,
            retrying: false,
            disabled: false,
        };
        std::mem::swap(&mut state, &mut self.tokens[i]);
        let ghost before = state;
        let mut out = String::new();
        let failed = match outcome {
            Ok(raw) => {
                state.cache = Some(raw);
                state.backoff_secs = 0;
                state.retrying = false;
                state.next_poll = later(now, interval);
                false
            },
            Err(AppError::Auth(what)) => {
                state.disabled = true;
                state.retrying = false;
                push_token(&mut out, i);
                out.append("Auth error: ");
                out.append(what.as_str());
                true
            },
            Err(AppError::RateLimited { retry_after_secs }) => {
                state.retrying = true;
                state.next_poll = later(now, retry_after_secs);
                push_token(&mut out, i);
                out.append("Rate limited. Retry after ");
                push_decimal(&mut out, retry_after_secs);
                out.append("s");
                true
            },
            Err(e) => {
                state.retrying = true;
                state.backoff_secs = if state.backoff_secs == 0 {
                    2
                } else if 2 * state.backoff_secs > 60 {
                    60
                } else {
                    2 * state.backoff_secs
                };
                state.next_poll = later(now, state.backoff_secs);
                push_token(&mut out, i);
                out.append(e.to_string().as_str());
                out.append(" (retry in ");
                push_decimal(&mut out, state.backoff_secs);
                out.append("s)");
                true
            },
        };
        assert(state == after_poll(before, outcome, now, interval));
        assert(failed ==> out@ =~= failure_text(i as int, outcome->Err_0@, before.backoff_secs));
        self.tokens[i] = state;
        assert(self.tokens@ =~= old(self).tokens@.update(i as int, state));
        if failed {
            Some(out)
        } else {
            None
        }
    }

    /// What the tokens have found so far, taken together. There is nothing before the first poll
    /// that succeeds.
    pub fn merged(&self) -> (r: Option<CacheMerge>)
        requires
            self.wf(),
        ensures
            r is Some <==> cached(self.tokens@).len() > 0,
            r matches Some(merge) ==> is_merge_of(merge, self.tokens@),
    {
        let mut caches: Vec<(usize, &RawPoll)> = Vec::new();
        for i in 0..self.tokens.len()
            invariant
                self.wf(),
                caches@ == cached(self.tokens@.take(i as int)),
                forall|c: int| 0 <= c < caches@.len() ==> (#[trigger] caches@[c]).1.wf(),
        {
            assert(self.tokens@.take(i + 1).drop_last() =~= self.tokens@.take(i as int));
            assert(self.tokens@[i as int].wf());
            if let Some(raw) = &self.tokens[i].cache {
                caches.push((i, raw));
            }
        }
        assert(self.tokens@.take(self.tokens@.len() as int) =~= self.tokens@);
        if caches.len() == 0 {
            None
        } else {
            Some(merge_caches(&caches))
        }
    }

    /// The next snapshot of the given pull requests.
    pub fn snapshot(
        &mut self,
        prs: IndexMap<PrId, PullRequest>,
        head_shas: IdMap<String>,
        polled_at: Timestamp,
    ) -> (r: PollPayload)
        requires
            old(self).wf(),
        ensures
            final(self).wf(),
            final(self).tokens == old(self).tokens,
            final(self).interval_secs == old(self).interval_secs,
            final(self).generation == next_generation(old(self).generation),
            r.generation == final(self).generation,
            r.prs == prs,
            r.head_shas == head_shas,
            r.polled_at == polled_at,
    {
        self.generation = if self.generation == u64::MAX {
            0
        } else {
            self.generation + 1
        };
        PollPayload { generation: self.generation, prs, head_shas, polled_at }
    }

    /// What a round brings: the next snapshot, and the questions about the head commits of its pull
    /// requests.
    pub fn round(&mut self, merge: CacheMerge, polled_at: Timestamp) -> (r: (
        PollPayload,
        Vec<CiJob>,
    ))
        requires
            old(self).wf(),
            merge.shas.wf(),
            merge.owners.wf(),
        ensures
            final(self).wf(),
            final(self).tokens == old(self).tokens,
            final(self).interval_secs == old(self).interval_secs,
            final(self).generation == next_generation(old(self).generation),
            r.0.generation == final(self).generation,
            r.0.prs == merge.prs,
            r.0.head_shas == merge.shas,
            r.0.polled_at == polled_at,
            are_jobs(
                r.1@,
                merge.shas@,
                merge.owners@,
                key_set(pr_entries(merge.prs)),
                old(self).tokens.len(),
            ),
    {
        let retained = keys_of_prs(&merge.prs);
        let jobs = ci_jobs(&merge.shas, &merge.owners, &retained, self.tokens.len());
        (self.snapshot(merge.prs, merge.shas, polled_at), jobs)
    }

    /// When to look again: when the next token is due, or after the interval where no token is left.
    pub fn next_wake(&self, now: u64) -> (r: u128)
        ensures
            is_wake(r, self.tokens@, now, self.interval_secs),
    {
        let mut next: Option<u128> = None;
        for i in 0..self.tokens.len()
            invariant
                next is None ==> forall|j: int|
                    0 <= j < i ==> (#[trigger] self.tokens@[j]).disabled,
                next matches Some(at) ==> {
                    &&& exists|j: int|
                        0 <= j < i && !self.tokens@[j].disabled && (
                        #[trigger] self.tokens@[j]).next_poll == at
                    &&& forall|j: int|
                        0 <= j < i && !(#[trigger] self.tokens@[j]).disabled ==> at
                            <= self.tokens@[j].next_poll
                },
        {
            let state = &self.tokens[i];
            if !state.disabled {
                let earlier = match next {
                    Some(at) => state.next_poll < at,
                    None => true,
                };
                if earlier {
                    next = Some(state.next_poll);
                }
            }
        }
        match next {
            Some(at) => at,
            None => later(now, self.interval_secs),
        }
    }

    /// Makes the tokens due that are neither refused nor waiting after an error.
    pub fn refresh(&mut self, now: u64)
        requires
            old(self).wf(),
        ensures
            final(self).wf(),
            final(self).interval_secs == old(self).interval_secs,
            final(self).generation == old(self).generation,
            are_refreshed(old(self).tokens@, final(self).tokens@, now),
    {
        let count = self.tokens.len();
        for i in 0..count
            invariant
                self.wf(),
                old(self).wf(),
                count == self.tokens@.len(),
                self.interval_secs == old(self).interval_secs,
                self.generation == old(self).generation,
                self.tokens@.len() == old(self).tokens@.len(),
                forall|j: int|
                    0 <= j < i ==> #[trigger] self.tokens@[j] == if old(self).tokens@[j].disabled
                        || old(self).tokens@[j].retrying {
                        old(self).tokens@[j]
                    } else {
                        TokenState { next_poll: now as u128, ..old(self).tokens@[j] }
                    },
                forall|j: int|
                    i <= j < self.tokens@.len() ==> #[trigger] self.tokens@[j] == old(
                        self,
                    ).tokens@[j],
        {
            if !self.tokens[i].disabled && !self.tokens[i].retrying {
                self.tokens[i].next_poll = now as u128;
            }
        }
    }
}

// ---------------------------------------------------------------------------
// What holds of the tokens

/// The seconds to wait after `failures` failures in a row.
pub open spec fn backoff_after(failures: nat) -> u64
    decreases failures,
{
    if failures == 0 {
        0
    } else {
        next_backoff(backoff_after((failures - 1) as nat))
    }
}

/// The wait doubles with every failure in a row, and is a minute from the sixth on.
pub proof fn backoff_doubles_up_to_a_minute(failures: nat)
    ensures
        failures >= 1 ==> 2 <= backoff_after(failures) <= 60,
        1 <= failures < 5 ==> backoff_after(failures + 1) == 2 * backoff_after(failures),
        failures >= 6 ==> backoff_after(failures) == 60,
        backoff_after(failures) <= backoff_after(failures + 1),
    decreases failures,
{
    reveal_with_fuel(backoff_after, 7);
    if failures > 0 {
        backoff_doubles_up_to_a_minute((failures - 1) as nat);
    }
}

/// A failed poll keeps what the token found before, and only a refused token is given up.
pub proof fn failure_keeps_the_last_success(
    state: TokenState,
    e: AppError,
    now: u64,
    interval_secs: u64,
)
    ensures
        after_poll(state, Err(e), now, interval_secs).cache == state.cache,
        after_poll(state, Err(e), now, interval_secs).disabled == (state.disabled || e is Auth),
{
}

/// A token that was refused is never due again, whatever is recorded of it.
pub proof fn refused_token_stays_out(
    state: TokenState,
    outcome: Result<RawPoll, AppError>,
    now: u64,
    interval_secs: u64,
    at: u64,
)
    requires
        state.disabled,
    ensures
        !state.due_at(at),
        after_poll(state, outcome, now, interval_secs).disabled,
{
}

/// What a token found last is among what is merged, also while its polls fail.
pub proof fn last_success_is_merged(tokens: Seq<TokenState>, i: int)
    requires
        0 <= i < tokens.len(),
        tokens.len() <= usize::MAX,
        tokens[i].cache is Some,
    ensures
        exists|k: int|
            0 <= k < cached(tokens).len() && (#[trigger] cached(tokens)[k]).0 == i && *cached(
                tokens,
            )[k].1 == tokens[i].cache->0,
    decreases tokens.len(),
{
    let rest = tokens.drop_last();
    if i < tokens.len() - 1 {
        assert(rest[i] == tokens[i]);
        last_success_is_merged(rest, i);
        let k = choose|k: int|
            0 <= k < cached(rest).len() && (#[trigger] cached(rest)[k]).0 == i && *cached(
                rest,
            )[k].1 == rest[i].cache->0;
        assert(cached(tokens)[k] == cached(rest)[k]);
    } else {
        let k = cached(rest).len() as int;
        assert(cached(tokens)[k].0 == i);
    }
}

/// A poll that succeeds is kept, clears what was held against the token, and is followed by the next
/// one after the interval.
pub proof fn success_is_kept_for_the_interval(
    state: TokenState,
    raw: RawPoll,
    now: u64,
    interval_secs: u64,
)
    ensures
        ({
            let after = after_poll(state, Ok(raw), now, interval_secs);
            &&& after.cache == Some(raw)
            &&& after.next_poll == now + interval_secs * 1_000_000_000
            &&& after.backoff_secs == 0
            &&& !after.retrying
            &&& after.disabled == state.disabled
        }),
{
}

/// A token that is refused is not used again. A rate limit is waited for as long as GitHub says.
/// After any other error the token is tried again after two seconds, or after twice the seconds of
/// the last wait, but at most a minute.
pub proof fn errors_are_waited_for(state: TokenState, e: AppError, now: u64, interval_secs: u64)
    requires
        state.backoff_secs <= 60,
    ensures
        ({
            let after = after_poll(state, Err(e), now, interval_secs);
            let wait: int = if state.backoff_secs == 0 {
                2
            } else if state.backoff_secs > 30 {
                60
            } else {
                2 * state.backoff_secs
            };
            &&& after.cache == state.cache
            &&& match e {
                AppError::Auth(_) => after.disabled && !after.retrying && after.next_poll
                    == state.next_poll && after.backoff_secs == state.backoff_secs,
                AppError::RateLimited { retry_after_secs } => after.disabled == state.disabled
                    && after.retrying && after.next_poll == now + retry_after_secs * 1_000_000_000
                    && after.backoff_secs == state.backoff_secs,
                _ => after.disabled == state.disabled && after.retrying && after.backoff_secs
                    == wait && after.next_poll == now + wait * 1_000_000_000,
            }
        }),
{
}

/// What is said of a failure names the token, counted from one, and says what happened; of any other
/// error than a refused token and a rate limit also how long the wait is.
pub proof fn failures_name_their_token(
    state: TokenState,
    i: int,
    outcome: Result<RawPoll, AppError>,
)
    requires
        i >= 0,
        state.backoff_secs <= 60,
    ensures
        ({
            let name = "GitHub token #"@ + decimal((i + 1) as nat) + seq![':', ' '];
            let wait: nat = if state.backoff_secs == 0 {
                2
            } else if state.backoff_secs > 30 {
                60
            } else {
                (2 * state.backoff_secs) as nat
            };
            match outcome {
                Ok(_) => said_of(state, i, outcome) is None,
                Err(AppError::Auth(what)) => said_of(state, i, outcome) == Some(
                    name + ("Auth error: "@ + what@),
                ),
                Err(AppError::RateLimited { retry_after_secs }) => said_of(state, i, outcome)
                    == Some(
                    name + ("Rate limited. Retry after "@ + decimal(retry_after_secs as nat)
                        + seq!['s']),
                ),
                Err(e) => said_of(state, i, outcome) == Some(
                    name + (error_text(e@) + " (retry in "@ + decimal(wait) + seq!['s', ')']),
                ),
            }
        }),
{
    reveal_strlit(": ");
    reveal_strlit("s");
    reveal_strlit("s)");
    assert(": "@ =~= seq![':', ' ']);
    assert("s"@ =~= seq!['s']);
    assert("s)"@ =~= seq!['s', ')']);
}

/// A token is due exactly where it is not refused and its time has come; the tokens that are due
/// come in order, each of them once.
pub proof fn due_tokens_are_those_whose_time_has_come(
    due: Seq<usize>,
    tokens: Seq<TokenState>,
    now: u64,
    i: usize,
)
    requires
        is_due_list(due, tokens, now),
    ensures
        due.contains(i) <==> i < tokens.len() && !tokens[i as int].disabled
            && tokens[i as int].next_poll <= now,
        forall|a: int, b: int|
            #![trigger due[a], due[b]]
            0 <= a < b < due.len() ==> due[a] < due[b],
{
}

/// The loop looks again when the first of the tokens that are not refused is due, and after the
/// interval where all are refused.
pub proof fn the_next_look_is_at_the_first_token(
    wake: u128,
    tokens: Seq<TokenState>,
    now: u64,
    interval_secs: u64,
)
    requires
        is_wake(wake, tokens, now, interval_secs),
    ensures
        forall|i: int|
            0 <= i < tokens.len() && !(#[trigger] tokens[i]).disabled ==> wake
                <= tokens[i].next_poll,
        (exists|i: int|
            0 <= i < tokens.len() && !(#[trigger] tokens[i]).disabled && tokens[i].next_poll
                == wake) || ((forall|i: int|
            0 <= i < tokens.len() ==> (#[trigger] tokens[i]).disabled) && wake == now
            + interval_secs * 1_000_000_000),
{
    if some_enabled(tokens) {
        let i = choose|i: int|
            0 <= i < tokens.len() && !tokens[i].disabled && (#[trigger] tokens[i]).next_poll
                == wake;
        assert(tokens[i].next_poll == wake);
    } else {
        assert forall|i: int| 0 <= i < tokens.len() implies (#[trigger] tokens[i]).disabled by {}
    }
}

/// A refresh makes a token due that is neither refused nor waiting after an error, and changes
/// nothing else.
pub proof fn a_refresh_makes_ready_tokens_due(
    before: Seq<TokenState>,
    after: Seq<TokenState>,
    now: u64,
    i: int,
)
    requires
        are_refreshed(before, after, now),
        0 <= i < before.len(),
    ensures
        after.len() == before.len(),
        before[i].disabled || before[i].retrying ==> after[i] == before[i],
        !before[i].disabled && !before[i].retrying ==> after[i].next_poll == now && after[i].cache
            == before[i].cache && after[i].backoff_secs == before[i].backoff_secs
            && !after[i].disabled && !after[i].retrying,
{
}

/// What is merged are the last successes of the tokens, in their order: a token that comes last adds
/// its own, under its number, where it has one.
pub proof fn successes_are_merged_in_order(tokens: Seq<TokenState>, state: TokenState)
    requires
        tokens.len() < usize::MAX,
    ensures
        cached(Seq::empty()).len() == 0,
        state.cache is None ==> cached(tokens.push(state)) == cached(tokens),
        state.cache is Some ==> cached(tokens.push(state)) == cached(tokens).push(
            (tokens.len() as usize, &state.cache->0),
        ),
{
    assert(tokens.push(state).drop_last() =~= tokens);
}

/// What is merged are the results of the tokens taken together, and what is found as a mention is
/// what they found as mentions.
pub proof fn a_merge_is_of_every_token(merge: CacheMerge, tokens: Seq<TokenState>)
    requires
        is_merge_of(merge, tokens),
    ensures
        is_merge(
            role_candidates(cached(tokens), PrRole::Author) + role_candidates(
                cached(tokens),
                PrRole::ReviewRequested,
            ) + role_candidates(cached(tokens), PrRole::Mentioned),
            pr_entries(merge.prs),
            merge.shas@,
            merge.owners@,
        ),
        merge.mention_ids@ == candidate_ids(role_candidates(cached(tokens), PrRole::Mentioned)),
{
}

/// The first failure counts, in the order of the searches, and there is none where all succeed.
pub proof fn the_first_failed_search_counts(outcomes: SearchOutcomes)
    ensures
        outcomes.error() is None <==> outcomes.author_open is Ok && outcomes.author_closed is Ok
            && outcomes.review_open is Ok && outcomes.review_closed is Ok
            && outcomes.mentions_open is Ok && outcomes.mentions_closed is Ok,
        outcomes.author_open is Err ==> outcomes.error() == Some(outcomes.author_open->Err_0),
        outcomes.author_open is Ok && outcomes.author_closed is Err ==> outcomes.error() == Some(
            outcomes.author_closed->Err_0,
        ),
        outcomes.author_open is Ok && outcomes.author_closed is Ok && outcomes.review_open is Err
            ==> outcomes.error() == Some(outcomes.review_open->Err_0),
        outcomes.author_open is Ok && outcomes.author_closed is Ok && outcomes.review_open is Ok
            && outcomes.review_closed is Err ==> outcomes.error() == Some(
            outcomes.review_closed->Err_0,
        ),
        outcomes.author_open is Ok && outcomes.author_closed is Ok && outcomes.review_open is Ok
            && outcomes.review_closed is Ok && outcomes.mentions_open is Err ==> outcomes.error()
            == Some(outcomes.mentions_open->Err_0),
        outcomes.author_open is Ok && outcomes.author_closed is Ok && outcomes.review_open is Ok
            && outcomes.review_closed is Ok && outcomes.mentions_open is Ok
            && outcomes.mentions_closed is Err ==> outcomes.error() == Some(
            outcomes.mentions_closed->Err_0,
        ),
{
}

/// The number of a snapshot is one more than that of the one before, until numbers start anew.
pub proof fn numbers_go_up_by_one(generation: u64)
    ensures
        generation < u64::MAX ==> next_generation(generation) == generation + 1,
        generation == u64::MAX ==> next_generation(generation) == 0,
{
}

} // verus!
