//! From the results of searches to pull requests: one pull request may be found by several searches
//! and through several tokens, and becomes one entry.
use crate::github::types::PrNode;
use crate::ids::{
    has_key, is_key_at, keys_of, lemma_key_at, unique_keys, value_of, IdMap, IdSet,
};
use crate::pr_map::{find_pr, no_prs, pr_entries, put_pr, rank};
use crate::text::same_text;
use crate::timestamp::{parse_utc, rfc3339_value, Timestamp};
use crate::types::{
    decision_named, decisions_have_their_names, PrId, PrIdView, PrRole, PrState, PullRequest, ReviewDecision,
};
use indexmap::IndexMap;
use vstd::prelude::*;
use vstd::string::*;

verus! {

// ---------------------------------------------------------------------------
// One result

/// The state that a name of the GraphQL interface stands for. An unknown name stands for an open
/// pull request.
pub open spec fn state_named(name: Seq<char>) -> PrState {
    if name == "CLOSED"@ {
        PrState::Closed
    } else if name == "MERGED"@ {
        PrState::Merged
    } else {
        PrState::Open
    }
}

/// The state of the given name.
pub fn parse_state(s: &str) -> (r: PrState)
    ensures
        r == state_named(s@),
{
    if same_text(s, "CLOSED") {
        PrState::Closed
    } else if same_text(s, "MERGED") {
        PrState::Merged
    } else {
        PrState::Open
    }
}

/// The identity of a search result.
pub open spec fn id_in_node(node: PrNode) -> PrIdView {
    PrIdView {
        owner: node.repository.owner.login@,
        repo: node.repository.name@,
        number: node.number,
    }
}

/// The identity of a search result.
pub fn node_id(node: &PrNode) -> (r: PrId)
    ensures
        r@ == id_in_node(*node),
{
    PrId {
        owner: node.repository.owner.login.clone(),
        repo: node.repository.name.clone(),
        number: node.number,
    }
}

/// Whether the comments and review threads of a search result can be counted in 64 bits.
pub open spec fn is_countable(node: PrNode) -> bool {
    node.comments.total_count + node.review_threads.total_count <= u64::MAX
}

/// A point in time, or the start of the count where there is none.
pub open spec fn time_or_epoch(at: Option<Timestamp>) -> Timestamp {
    match at {
        Some(at) => at,
        None => Timestamp { secs: 0, nanos: 0 },
    }
}

/// The time of the last update of a search result.
pub open spec fn updated_in_node(node: PrNode) -> Timestamp {
    time_or_epoch(rfc3339_value(node.updated_at@))
}

/// The author of the last comment on a search result.
pub open spec fn last_commenter_in_node(node: PrNode) -> Option<Seq<char>> {
    if node.comments.nodes@.len() > 0 {
        match node.comments.nodes@[0].author {
            Some(author) => Some(author.login@),
            None => None,
        }
    } else {
        None
    }
}

/// Whether `pr` is what a search result says, with the given role and times. Its CI status is not
/// known yet.
pub open spec fn is_pr_at(
    pr: PullRequest,
    node: PrNode,
    role: PrRole,
    created_at: Option<Timestamp>,
    updated_at: Option<Timestamp>,
) -> bool {
    &&& pr.id@ == id_in_node(node)
    &&& pr.title == node.title
    &&& pr.url == node.url
    &&& pr.author_login@ == (match node.author {
        Some(author) => author.login@,
        None => Seq::empty(),
    })
    &&& pr.role == role
    &&& pr.state == state_named(node.state@)
    &&& pr.created_at == time_or_epoch(created_at)
    &&& pr.updated_at == time_or_epoch(updated_at)
    &&& pr.is_draft == node.is_draft
    &&& pr.review_decision is Some <==> node.review_decision is Some
    &&& pr.review_decision is Some ==> pr.review_decision->0@ == decision_named(
        node.review_decision->0@,
    )
    &&& pr.total_comments == node.comments.total_count + node.review_threads.total_count
    &&& pr.last_commenter is Some <==> last_commenter_in_node(node) is Some
    &&& pr.last_commenter is Some ==> pr.last_commenter->0@ == last_commenter_in_node(node)->0
    &&& pr.ci_status is None
}

/// Whether `pr` is what a search result says, with the given role.
pub open spec fn is_node_pr(pr: PullRequest, node: PrNode, role: PrRole) -> bool {
    is_pr_at(
        pr,
        node,
        role,
        rfc3339_value(node.created_at@),
        rfc3339_value(node.updated_at@),
    )
}

/// The pull request of a search result whose times have been read.
pub fn pr_of_node(
    node: &PrNode,
    role: PrRole,
    created_at: Option<Timestamp>,
    updated_at: Option<Timestamp>,
) -> (r: PullRequest)
    requires
        is_countable(*node),
    ensures
        is_pr_at(r, *node, role, created_at, updated_at),
{
    let author_login = match &node.author {
        Some(author) => author.login.clone(),
        None => String::new(),
    };
    let last_commenter = if node.comments.nodes.len() > 0 {
        match &node.comments.nodes[0].author {
            Some(author) => Some(author.login.clone()),
            None => None,
        }
    } else {
        None
    };
    let decision = match &node.review_decision {
        Some(name) => Some(name.as_str()),
        None => None,
    };
    PullRequest {
        id: node_id(node),
        title: node.title.clone(),
        url: node.url.clone(),
        author_login,
        role,
        state: parse_state(node.state.as_str()),
        created_at: match created_at {
            Some(at) => at,
            None => Timestamp::default(),
        },
        updated_at: match updated_at {
            Some(at) => at,
            None => Timestamp::default(),
        },
        is_draft: node.is_draft,
        review_decision: ReviewDecision::from_str_opt(decision),
        total_comments: node.comments.total_count + node.review_threads.total_count,
        last_commenter,
        ci_status: None,
    }
}

/// The pull request of a search result, and its head commit.
pub fn node_to_pr(node: &PrNode, role: PrRole) -> (r: (PullRequest, String))
    requires
        is_countable(*node),
    ensures
        is_node_pr(r.0, *node, role),
        r.1 == node.head_ref_oid,
{
    let created_at = parse_utc(node.created_at.as_str());
    let updated_at = parse_utc(node.updated_at.as_str());
    (pr_of_node(node, role, created_at, updated_at), node.head_ref_oid.clone())
}

// ---------------------------------------------------------------------------
// Many results

/// The results of the searches through one token.
#[derive(Debug)]
pub struct RawPoll {
    pub author: Vec<PrNode>,
    pub review: Vec<PrNode>,
    pub mentioned: Vec<PrNode>,
}

impl Default for RawPoll {
    fn default() -> (r: RawPoll)
        ensures
            r.author@.len() == 0,
            r.review@.len() == 0,
            r.mentioned@.len() == 0,
    {
        RawPoll { author: Vec::new(), review: Vec::new(), mentioned: Vec::new() }
    }
}

pub open spec fn all_countable(nodes: Seq<PrNode>) -> bool {
    forall|i: int| 0 <= i < nodes.len() ==> is_countable(#[trigger] nodes[i])
}

fn check_countable(nodes: &Vec<PrNode>) -> (r: bool)
    ensures
        r == all_countable(nodes@),
{
    for i in 0..nodes.len()
        invariant
            forall|j: int| 0 <= j < i ==> is_countable(#[trigger] nodes@[j]),
    {
        let node = &nodes[i];
        if node.comments.total_count.checked_add(node.review_threads.total_count).is_none() {
            assert(!is_countable(nodes@[i as int]));
            return false;
        }
    }
    true
}

impl RawPoll {
    /// Whether the comments of every result can be counted in 64 bits.
    pub open spec fn wf(&self) -> bool {
        all_countable(self.author@) && all_countable(self.review@) && all_countable(
            self.mentioned@,
        )
    }

    /// Whether the comments of every result can be counted in 64 bits.
    pub fn is_valid(&self) -> (r: bool)
        ensures
            r == self.wf(),
    {
        check_countable(&self.author) && check_countable(&self.review) && check_countable(
            &self.mentioned,
        )
    }

    fn nodes_for(&self, role: PrRole) -> (r: &Vec<PrNode>)
        ensures
            r@ == self.nodes(role),
    {
        match role {
            PrRole::Author => &self.author,
            PrRole::ReviewRequested => &self.review,
            PrRole::Mentioned => &self.mentioned,
        }
    }

    /// The results for a role.
    pub open spec fn nodes(&self, role: PrRole) -> Seq<PrNode> {
        match role {
            PrRole::Author => self.author@,
            PrRole::ReviewRequested => self.review@,
            PrRole::Mentioned => self.mentioned@,
        }
    }
}

/// A search result with its role and the number of the token that found it.
pub struct Candidate {
    pub role: PrRole,
    pub token: usize,
    pub node: PrNode,
}

impl Candidate {
    pub open spec fn id(self) -> PrIdView {
        id_in_node(self.node)
    }
}

/// Results as candidates.
pub open spec fn as_candidates(nodes: Seq<PrNode>, role: PrRole, token: usize) -> Seq<Candidate> {
    nodes.map_values(|node: PrNode| Candidate { role, token, node })
}

/// The candidates of one role, token by token.
pub open spec fn role_candidates(caches: Seq<(usize, &RawPoll)>, role: PrRole) -> Seq<Candidate> {
    caches.flat_map(|cache: (usize, &RawPoll)| as_candidates(cache.1.nodes(role), role, cache.0))
}

/// The candidates, role by role, and token by token for each of them.
pub open spec fn candidates(caches: Seq<(usize, &RawPoll)>) -> Seq<Candidate> {
    role_candidates(caches, PrRole::Author) + role_candidates(caches, PrRole::ReviewRequested)
        + role_candidates(caches, PrRole::Mentioned)
}

/// The identities of the candidates, each of them once, in the order in which they first occur.
pub open spec fn distinct_ids(from: Seq<Candidate>) -> Seq<PrIdView>
    decreases from.len(),
{
    if from.len() == 0 {
        Seq::empty()
    } else {
        let ids = distinct_ids(from.drop_last());
        if ids.contains(from.last().id()) {
            ids
        } else {
            ids.push(from.last().id())
        }
    }
}

/// Whether the candidate at `k` goes before the one at `j`, both of one pull request: the role
/// decides, then the later update, then the order.
pub open spec fn goes_before(from: Seq<Candidate>, k: int, j: int) -> bool {
    let one = from[k];
    let other = from[j];
    rank(one.role) < rank(other.role) || (rank(one.role) == rank(other.role) && (updated_in_node(
        one.node,
    ).after(updated_in_node(other.node)) || (updated_in_node(one.node) == updated_in_node(
        other.node,
    ) && k < j)))
}

/// Whether the candidate at `k` is the one that counts for its pull request.
pub open spec fn wins(from: Seq<Candidate>, k: int) -> bool {
    &&& 0 <= k < from.len()
    &&& forall|j: int|
        #![trigger from[j]]
        0 <= j < from.len() && j != k && from[j].id() == from[k].id() ==> goes_before(from, k, j)
}

/// Whether a candidate that counts for `id` says `pr`, the head commit `sha` and the token.
pub open spec fn is_won(
    from: Seq<Candidate>,
    id: PrIdView,
    pr: PullRequest,
    sha: String,
    token: usize,
) -> bool {
    exists|k: int|
        #![trigger from[k]]
        wins(from, k) && from[k].id() == id && is_node_pr(pr, from[k].node, from[k].role) && sha
            == from[k].node.head_ref_oid && token == from[k].token
}

/// What the results of several tokens amount to.
#[derive(Debug)]
pub struct CacheMerge {
    pub prs: IndexMap<PrId, PullRequest>,
    /// The head commits.
    pub shas: IdMap<String>,
    /// The token through which each was found.
    pub owners: IdMap<usize>,
    /// What the search for mentions found.
    pub mention_ids: IdSet,
}

/// Whether the maps say what the candidates amount to: one entry for each pull request, in the order
/// of first occurrence, with what the candidate that counts says.
pub open spec fn is_merge(
    from: Seq<Candidate>,
    prs: Seq<(PrId, PullRequest)>,
    shas: Map<PrIdView, String>,
    owners: Map<PrIdView, usize>,
) -> bool {
    &&& keys_of(prs) == distinct_ids(from)
    &&& unique_keys(prs)
    &&& forall|i: int|
        #![trigger prs[i]]
        0 <= i < prs.len() ==> shas.contains_key(prs[i].0@) && owners.contains_key(prs[i].0@)
            && is_won(from, prs[i].0@, prs[i].1, shas[prs[i].0@], owners[prs[i].0@])
    &&& forall|id: PrIdView| #[trigger] shas.contains_key(id) ==> has_key(prs, id)
    &&& forall|id: PrIdView| #[trigger] owners.contains_key(id) ==> has_key(prs, id)
}

proof fn lemma_keys_has<V>(entries: Seq<(PrId, V)>, id: PrIdView)
    ensures
        has_key(entries, id) <==> keys_of(entries).contains(id),
{
    if has_key(entries, id) {
        let i = choose|i: int| is_key_at(entries, id, i);
        assert(keys_of(entries)[i] == id);
    }
    if keys_of(entries).contains(id) {
        let i = choose|i: int| 0 <= i < keys_of(entries).len() && keys_of(entries)[i] == id;
        assert(is_key_at(entries, id, i));
    }
}

/// A result that came before still counts, or not, as it did: one more candidate changes nothing
/// for other pull requests.
proof fn lemma_won_with_other(
    from: Seq<Candidate>,
    more: Candidate,
    id: PrIdView,
    pr: PullRequest,
    sha: String,
    token: usize,
)
    requires
        is_won(from, id, pr, sha, token),
        more.id() != id,
    ensures
        is_won(from.push(more), id, pr, sha, token),
{
    let k = choose|k: int|
        #![trigger from[k]]
        wins(from, k) && from[k].id() == id && is_node_pr(pr, from[k].node, from[k].role) && sha
            == from[k].node.head_ref_oid && token == from[k].token;
    let all = from.push(more);
    assert(all[k] == from[k]);
    assert forall|j: int|
        #![trigger all[j]]
        0 <= j < all.len() && j != k && all[j].id() == all[k].id() implies goes_before(all, k, j) by {
        assert(j < from.len());
        assert(all[j] == from[j]);
        assert(goes_before(from, k, j));
    }
    assert(wins(all, k));
}

/// A further candidate of the same pull request that does not go before changes nothing.
proof fn lemma_won_with_lesser(
    from: Seq<Candidate>,
    more: Candidate,
    pr: PullRequest,
    sha: String,
    token: usize,
)
    requires
        is_won(from, more.id(), pr, sha, token),
        rank(pr.role) < rank(more.role) || (pr.role == more.role && !updated_in_node(
            more.node,
        ).after(pr.updated_at)),
    ensures
        is_won(from.push(more), more.id(), pr, sha, token),
{
    let id = more.id();
    let k = choose|k: int|
        #![trigger from[k]]
        wins(from, k) && from[k].id() == id && is_node_pr(pr, from[k].node, from[k].role) && sha
            == from[k].node.head_ref_oid && token == from[k].token;
    let all = from.push(more);
    assert(all[k] == from[k]);
    assert forall|j: int|
        #![trigger all[j]]
        0 <= j < all.len() && j != k && all[j].id() == all[k].id() implies goes_before(all, k, j) by {
        if j < from.len() {
            assert(all[j] == from[j]);
            assert(goes_before(from, k, j));
        }
    }
    assert(wins(all, k));
}

/// A further candidate that goes before the one that counted so far counts from then on.
proof fn lemma_won_by_last(
    from: Seq<Candidate>,
    more: Candidate,
    old_pr: PullRequest,
    old_sha: String,
    old_token: usize,
    pr: PullRequest,
)
    requires
        is_won(from, more.id(), old_pr, old_sha, old_token),
        old_pr.role == more.role,
        updated_in_node(more.node).after(old_pr.updated_at),
        is_node_pr(pr, more.node, more.role),
    ensures
        is_won(from.push(more), more.id(), pr, more.node.head_ref_oid, more.token),
{
    let id = more.id();
    let k = choose|k: int|
        #![trigger from[k]]
        wins(from, k) && from[k].id() == id && is_node_pr(old_pr, from[k].node, from[k].role)
            && old_sha == from[k].node.head_ref_oid && old_token == from[k].token;
    let all = from.push(more);
    let last = from.len() as int;
    assert(all[last] == more);
    assert forall|j: int|
        #![trigger all[j]]
        0 <= j < all.len() && j != last && all[j].id() == all[last].id() implies goes_before(
        all,
        last,
        j,
    ) by {
        assert(all[j] == from[j]);
        if j != k {
            assert(goes_before(from, k, j));
        }
    }
    assert(wins(all, last));
}

proof fn lemma_won_by_first(from: Seq<Candidate>, more: Candidate, pr: PullRequest)
    requires
        !distinct_ids(from).contains(more.id()),
        is_node_pr(pr, more.node, more.role),
    ensures
        is_won(from.push(more), more.id(), pr, more.node.head_ref_oid, more.token),
{
    let all = from.push(more);
    let last = from.len() as int;
    assert(all[last] == more);
    assert forall|j: int|
        #![trigger all[j]]
        0 <= j < all.len() && j != last && all[j].id() == all[last].id() implies goes_before(
        all,
        last,
        j,
    ) by {
        assert(all[j] == from[j]);
        lemma_distinct_ids(from, j);
    }
    assert(wins(all, last));
}

proof fn lemma_distinct_ids(from: Seq<Candidate>, j: int)
    requires
        0 <= j < from.len(),
    ensures
        distinct_ids(from).contains(from[j].id()),
    decreases from.len(),
{
    let rest = from.drop_last();
    let ids = distinct_ids(rest);
    if j < from.len() - 1 {
        lemma_distinct_ids(rest, j);
        let i = choose|i: int| 0 <= i < ids.len() && ids[i] == from[j].id();
        assert(distinct_ids(from)[i] == from[j].id());
    } else if !ids.contains(from.last().id()) {
        assert(distinct_ids(from)[ids.len() as int] == from[j].id());
    }
}

/// Takes up one more search result.
fn merge_node(
    prs: &mut IndexMap<PrId, PullRequest>,
    shas: &mut IdMap<String>,
    owners: &mut IdMap<usize>,
    node: &PrNode,
    role: PrRole,
    token: usize,
    Ghost(from): Ghost<Seq<Candidate>>,
)
    requires
        is_countable(*node),
        old(shas).wf(),
        old(owners).wf(),
        is_merge(from, pr_entries(*old(prs)), old(shas)@, old(owners)@),
        forall|j: int|
            0 <= j < from.len() ==> rank((#[trigger] from[j]).role) <= rank(role),
    ensures
        final(shas).wf(),
        final(owners).wf(),
        is_merge(
            from.push(Candidate { role, token, node: *node }),
            pr_entries(*final(prs)),
            final(shas)@,
            final(owners)@,
        ),
{
    let ghost more = Candidate { role, token, node: *node };
    let ghost all = from.push(more);
    let ghost before = pr_entries(*prs);
    let ghost shas0 = shas@;
    let ghost owners0 = owners@;
    let ghost id = more.id();
    assert(all.drop_last() =~= from);
    let (pr, sha) = node_to_pr(node, role);
    proof {
        lemma_keys_has(before, id);
    }
    let keeps = match find_pr(prs, &pr.id) {
        Some(existing) => existing.role != role || !pr.updated_at.is_after(&existing.updated_at),
        None => false,
    };
    if keeps {
        proof {
            assert forall|i: int|
                #![trigger before[i]]
                0 <= i < before.len() implies shas0.contains_key(before[i].0@)
                && owners0.contains_key(before[i].0@) && is_won(
                all,
                before[i].0@,
                before[i].1,
                shas0[before[i].0@],
                owners0[before[i].0@],
            ) by {
                let key = before[i].0@;
                if key == id {
                    lemma_key_at(before, id, i);
                    let k = choose|k: int|
                        #![trigger from[k]]
                        wins(from, k) && from[k].id() == key && is_node_pr(
                            before[i].1,
                            from[k].node,
                            from[k].role,
                        ) && shas0[key] == from[k].node.head_ref_oid && owners0[key]
                            == from[k].token;
                    assert(rank(from[k].role) <= rank(role));
                    lemma_won_with_lesser(from, more, before[i].1, shas0[key], owners0[key]);
                } else {
                    lemma_won_with_other(
                        from,
                        more,
                        key,
                        before[i].1,
                        shas0[key],
                        owners0[key],
                    );
                }
            }
        }
        return;
    }
    owners.insert(pr.id.clone(), token);
    shas.insert(pr.id.clone(), sha);
    let ghost new_pr = pr;
    put_pr(prs, pr.id.clone(), pr);
    let ghost after = pr_entries(*prs);
    proof {
        assert(new_pr.id@ == id);
        if has_key(before, id) {
            let m = choose|m: int| is_key_at(before, id, m);
            lemma_key_at(before, id, m);
            assert(after == before.update(m, (before[m].0, new_pr)));
            assert(keys_of(after) =~= keys_of(before));
            lemma_won_by_last(
                from,
                more,
                before[m].1,
                shas0[id],
                owners0[id],
                new_pr,
            );
            assert forall|i: int|
                #![trigger after[i]]
                0 <= i < after.len() implies shas@.contains_key(after[i].0@)
                && owners@.contains_key(after[i].0@) && is_won(
                all,
                after[i].0@,
                after[i].1,
                shas@[after[i].0@],
                owners@[after[i].0@],
            ) by {
                if i != m {
                    assert(after[i] == before[i]);
                    assert(before[i].0@ != before[m].0@);
                    lemma_won_with_other(
                        from,
                        more,
                        before[i].0@,
                        before[i].1,
                        shas0[before[i].0@],
                        owners0[before[i].0@],
                    );
                }
            }
            assert forall|x: PrIdView| has_key(after, x) <==> has_key(before, x) by {
                lemma_keys_has(after, x);
                lemma_keys_has(before, x);
            }
        } else {
            assert(after == before.push((new_pr.id, new_pr)));
            assert(keys_of(after) =~= keys_of(before).push(id));
            lemma_won_by_first(from, more, new_pr);
            assert forall|i: int|
                #![trigger after[i]]
                0 <= i < after.len() implies shas@.contains_key(after[i].0@)
                && owners@.contains_key(after[i].0@) && is_won(
                all,
                after[i].0@,
                after[i].1,
                shas@[after[i].0@],
                owners@[after[i].0@],
            ) by {
                if i < before.len() {
                    assert(after[i] == before[i]);
                    assert(is_key_at(before, before[i].0@, i));
                    lemma_won_with_other(
                        from,
                        more,
                        before[i].0@,
                        before[i].1,
                        shas0[before[i].0@],
                        owners0[before[i].0@],
                    );
                }
            }
            assert forall|x: PrIdView| has_key(after, x) <==> x == id || has_key(before, x) by {
                lemma_keys_has(after, x);
                lemma_keys_has(before, x);
                if keys_of(after).contains(x) && x != id {
                    let i = choose|i: int|
                        0 <= i < keys_of(after).len() && keys_of(after)[i] == x;
                    assert(keys_of(before)[i] == x);
                }
                if keys_of(before).contains(x) {
                    let i = choose|i: int|
                        0 <= i < keys_of(before).len() && keys_of(before)[i] == x;
                    assert(keys_of(after)[i] == x);
                }
                assert(keys_of(after)[before.len() as int] == id);
            }
        }
    }
}

/// Takes up the search results of all tokens for one role.
fn merge_role(
    prs: &mut IndexMap<PrId, PullRequest>,
    shas: &mut IdMap<String>,
    owners: &mut IdMap<usize>,
    caches: &Vec<(usize, &RawPoll)>,
    role: PrRole,
    Ghost(from): Ghost<Seq<Candidate>>,
)
    requires
        forall|c: int| 0 <= c < caches@.len() ==> (#[trigger] caches@[c]).1.wf(),
        old(shas).wf(),
        old(owners).wf(),
        is_merge(from, pr_entries(*old(prs)), old(shas)@, old(owners)@),
        forall|j: int|
            0 <= j < from.len() ==> rank((#[trigger] from[j]).role) <= rank(role),
    ensures
        final(shas).wf(),
        final(owners).wf(),
        is_merge(
            from + role_candidates(caches@, role),
            pr_entries(*final(prs)),
            final(shas)@,
            final(owners)@,
        ),
{
    let ghost found = |cache: (usize, &RawPoll)|
        as_candidates(cache.1.nodes(role), role, cache.0);
    assert(caches@.take(0).flat_map(found) =~= Seq::empty());
    assert(from + Seq::<Candidate>::empty() =~= from);
    for c in 0..caches.len()
        invariant
            forall|c: int| 0 <= c < caches@.len() ==> (#[trigger] caches@[c]).1.wf(),
            shas.wf(),
            owners.wf(),
            found == |cache: (usize, &RawPoll)|
                as_candidates(cache.1.nodes(role), role, cache.0),
            is_merge(
                from + caches@.take(c as int).flat_map(found),
                pr_entries(*prs),
                shas@,
                owners@,
            ),
            forall|j: int|
                0 <= j < from.len() ==> rank((#[trigger] from[j]).role) <= rank(role),
    {
        let ghost before = role_candidates(caches@.take(c as int), role);
        let ghost done = from + before;
        proof {
            lemma_role_candidates(caches@.take(c as int), role);
            assert forall|j: int| 0 <= j < done.len() implies rank((#[trigger] done[j]).role)
                <= rank(role) by {
                if j < from.len() {
                    assert(done[j] == from[j]);
                } else {
                    assert(done[j] == before[j - from.len()]);
                }
            }
        }
        let (token, raw) = caches[c];
        let nodes = raw.nodes_for(role);
        assert(caches@[c as int].1.wf());
        assert(all_countable(nodes@));
        let ghost new = as_candidates(nodes@, role, token);
        assert(done + new.take(0) =~= done);
        for n in 0..nodes.len()
            invariant
                all_countable(nodes@),
                shas.wf(),
                owners.wf(),
                new == as_candidates(nodes@, role, token),
                is_merge(done + new.take(n as int), pr_entries(*prs), shas@, owners@),
                forall|j: int|
                    0 <= j < done.len() ==> rank((#[trigger] done[j]).role) <= rank(role),
        {
            let ghost so_far = done + new.take(n as int);
            assert forall|j: int| 0 <= j < so_far.len() implies rank(
                (#[trigger] so_far[j]).role,
            ) <= rank(role) by {
                if j < done.len() {
                    assert(so_far[j] == done[j]);
                } else {
                    assert(so_far[j] == new[j - done.len()]);
                }
            }
            merge_node(prs, shas, owners, &nodes[n], role, token, Ghost(so_far));
            assert(so_far.push(new[n as int]) =~= done + new.take(n + 1));
        }
        proof {
            assert(new.take(new.len() as int) =~= new);
            caches@.lemma_flat_map_take_append(found, c as int);
            assert(found(caches@[c as int]) == new);
            assert(done + new =~= from + caches@.take(c + 1).flat_map(found));
        }
    }
    assert(caches@.take(caches@.len() as int) =~= caches@);
}

proof fn lemma_role_candidates(caches: Seq<(usize, &RawPoll)>, role: PrRole)
    ensures
        forall|j: int|
            0 <= j < role_candidates(caches, role).len() ==> (#[trigger] role_candidates(
                caches,
                role,
            )[j]).role == role,
    decreases caches.len(),
{
    let found = |cache: (usize, &RawPoll)| as_candidates(cache.1.nodes(role), role, cache.0);
    if caches.len() == 0 {
        assert(caches.flat_map(found) =~= Seq::empty());
    } else {
        let rest = caches.drop_last();
        lemma_role_candidates(rest, role);
        rest.lemma_flat_map_push(found, caches.last());
        assert(caches =~= rest.push(caches.last()));
        assert forall|j: int| 0 <= j < role_candidates(caches, role).len() implies (
        #[trigger] role_candidates(caches, role)[j]).role == role by {
            let before = role_candidates(rest, role);
            if j < before.len() {
                assert(role_candidates(caches, role)[j] == before[j]);
            } else {
                assert(role_candidates(caches, role)[j] == found(caches.last())[j - before.len()]);
            }
        }
    }
}

/// The identities of the candidates.
pub open spec fn candidate_ids(from: Seq<Candidate>) -> Set<PrIdView> {
    from.map_values(|candidate: Candidate| candidate.id()).to_set()
}

fn mention_ids(caches: &Vec<(usize, &RawPoll)>) -> (r: IdSet)
    ensures
        r.wf(),
        r@ == candidate_ids(role_candidates(caches@, PrRole::Mentioned)),
{
    let mut ids = IdSet::new();
    let ghost role = PrRole::Mentioned;
    let ghost found = |cache: (usize, &RawPoll)|
        as_candidates(cache.1.nodes(role), role, cache.0);
    let ghost name = |candidate: Candidate| candidate.id();
    assert(caches@.take(0).flat_map(found) =~= Seq::empty());
    assert(caches@.take(0).flat_map(found).map_values(name).to_set() =~= Set::empty());
    for c in 0..caches.len()
        invariant
            ids.wf(),
            role == PrRole::Mentioned,
            found == |cache: (usize, &RawPoll)|
                as_candidates(cache.1.nodes(role), role, cache.0),
            name == |candidate: Candidate| candidate.id(),
            ids@ == candidate_ids(caches@.take(c as int).flat_map(found)),
    {
        let ghost done = caches@.take(c as int).flat_map(found);
        let (token, raw) = caches[c];
        let ghost new = as_candidates(raw.mentioned@, role, token);
        assert(done + new.take(0) =~= done);
        for n in 0..raw.mentioned.len()
            invariant
                ids.wf(),
                role == PrRole::Mentioned,
                new == as_candidates(raw.mentioned@, role, token),
                name == |candidate: Candidate| candidate.id(),
                ids@ == candidate_ids(done + new.take(n as int)),
        {
            let ghost so_far = done + new.take(n as int);
            ids.insert(node_id(&raw.mentioned[n]));
            proof {
                let more = new[n as int];
                assert(so_far.push(more) =~= done + new.take(n + 1));
                assert(so_far.push(more).map_values(name) =~= so_far.map_values(name).push(
                    more.id(),
                ));
                so_far.map_values(name).lemma_push_to_set_commute(more.id());
                assert(ids@ =~= candidate_ids(done + new.take(n + 1)));
            }
        }
        proof {
            assert(new.take(new.len() as int) =~= new);
            caches@.lemma_flat_map_take_append(found, c as int);
            assert(found(caches@[c as int]) == new);
            assert(done + new =~= caches@.take(c + 1).flat_map(found));
        }
    }
    assert(caches@.take(caches@.len() as int) =~= caches@);
    ids
}

/// What the results of several tokens amount to. Each pull request becomes one entry: the role of
/// author goes before a requested review, which goes before a mention; within a role the later update
/// counts, and of two with the same time the first.
pub fn merge_caches(caches: &Vec<(usize, &RawPoll)>) -> (r: CacheMerge)
    requires
        forall|c: int| 0 <= c < caches@.len() ==> (#[trigger] caches@[c]).1.wf(),
    ensures
        r.shas.wf(),
        r.owners.wf(),
        r.mention_ids.wf(),
        is_merge(candidates(caches@), pr_entries(r.prs), r.shas@, r.owners@),
        r.mention_ids@ == candidate_ids(role_candidates(caches@, PrRole::Mentioned)),
{
    let mut prs = no_prs();
    let mut shas: IdMap<String> = IdMap::new();
    let mut owners: IdMap<usize> = IdMap::new();
    let ghost none = Seq::<Candidate>::empty();
    assert(keys_of(pr_entries(prs)) =~= distinct_ids(none));
    merge_role(&mut prs, &mut shas, &mut owners, caches, PrRole::Author, Ghost(none));
    let ghost one = none + role_candidates(caches@, PrRole::Author);
    proof {
        lemma_role_candidates(caches@, PrRole::Author);
        lemma_role_candidates(caches@, PrRole::ReviewRequested);
    }
    merge_role(&mut prs, &mut shas, &mut owners, caches, PrRole::ReviewRequested, Ghost(one));
    let ghost two = one + role_candidates(caches@, PrRole::ReviewRequested);
    assert forall|j: int| 0 <= j < two.len() implies rank((#[trigger] two[j]).role) <= rank(
        PrRole::Mentioned,
    ) by {}
    merge_role(&mut prs, &mut shas, &mut owners, caches, PrRole::Mentioned, Ghost(two));
    assert(two + role_candidates(caches@, PrRole::Mentioned) =~= candidates(caches@));
    CacheMerge { prs, shas, owners, mention_ids: mention_ids(caches) }
}

/// Every search result has an entry for its pull request.
pub proof fn every_result_has_an_entry(
    from: Seq<Candidate>,
    prs: Seq<(PrId, PullRequest)>,
    shas: Map<PrIdView, String>,
    owners: Map<PrIdView, usize>,
    j: int,
)
    requires
        is_merge(from, prs, shas, owners),
        0 <= j < from.len(),
    ensures
        has_key(prs, from[j].id()),
{
    lemma_distinct_ids(from, j);
    lemma_keys_has(prs, from[j].id());
}

/// Of the search results for one pull request exactly one counts.
pub proof fn one_result_counts(from: Seq<Candidate>, k: int, m: int)
    requires
        wins(from, k),
        wins(from, m),
        from[k].id() == from[m].id(),
    ensures
        k == m,
{
    if k != m {
        assert(goes_before(from, k, m));
        assert(goes_before(from, m, k));
    }
}

/// An entry has the best of the roles in which its pull request was found: author, then a
/// requested review, then a mention. And among the results of that role none is newer.
pub proof fn entry_has_the_best_role(
    from: Seq<Candidate>,
    prs: Seq<(PrId, PullRequest)>,
    shas: Map<PrIdView, String>,
    owners: Map<PrIdView, usize>,
    j: int,
)
    requires
        is_merge(from, prs, shas, owners),
        0 <= j < from.len(),
    ensures
        rank(value_of(prs, from[j].id()).role) <= rank(from[j].role),
        value_of(prs, from[j].id()).role == from[j].role ==> !updated_in_node(from[j].node).after(
            value_of(prs, from[j].id()).updated_at,
        ),
{
    every_result_has_an_entry(from, prs, shas, owners, j);
    let id = from[j].id();
    let i = choose|i: int| is_key_at(prs, id, i);
    lemma_key_at(prs, id, i);
    let k = choose|k: int|
        #![trigger from[k]]
        wins(from, k) && from[k].id() == id && is_node_pr(prs[i].1, from[k].node, from[k].role)
            && shas[id] == from[k].node.head_ref_oid && owners[id] == from[k].token;
    if j != k {
        assert(goes_before(from, k, j));
    }
}

// ---------------------------------------------------------------------------
// The results of one token

/// Whether the candidate at `k` is the one that a single token's merge takes for its pull request:
/// of the best role, and there the last one for the author and the first one for the others.
pub open spec fn is_taken(from: Seq<Candidate>, k: int) -> bool {
    &&& 0 <= k < from.len()
    &&& forall|j: int|
        #![trigger from[j]]
        0 <= j < from.len() && j != k && from[j].id() == from[k].id() ==> rank(from[k].role) < rank(
            from[j].role,
        ) || (from[k].role == from[j].role && if from[k].role is Author {
            j < k
        } else {
            k < j
        })
}

/// Whether the candidate that is taken for `id` says `pr` and the head commit `sha`.
pub open spec fn is_converted(
    from: Seq<Candidate>,
    id: PrIdView,
    pr: PullRequest,
    sha: String,
) -> bool {
    exists|k: int|
        #![trigger from[k]]
        is_taken(from, k) && from[k].id() == id && is_node_pr(pr, from[k].node, from[k].role) && sha
            == from[k].node.head_ref_oid
}

/// Whether the maps hold one entry for each pull request, in the order of first occurrence, with
/// what the candidate that is taken says.
pub open spec fn is_conversion(
    from: Seq<Candidate>,
    prs: Seq<(PrId, PullRequest)>,
    shas: Map<PrIdView, String>,
) -> bool {
    &&& keys_of(prs) == distinct_ids(from)
    &&& unique_keys(prs)
    &&& forall|i: int|
        #![trigger prs[i]]
        0 <= i < prs.len() ==> shas.contains_key(prs[i].0@) && is_converted(
            from,
            prs[i].0@,
            prs[i].1,
            shas[prs[i].0@],
        )
    &&& forall|id: PrIdView| #[trigger] shas.contains_key(id) ==> has_key(prs, id)
}

proof fn lemma_converted_with_more(
    from: Seq<Candidate>,
    more: Candidate,
    id: PrIdView,
    pr: PullRequest,
    sha: String,
)
    requires
        is_converted(from, id, pr, sha),
        more.id() != id || (!(more.role is Author) && forall|j: int|
            0 <= j < from.len() ==> rank((#[trigger] from[j]).role) <= rank(more.role)),
    ensures
        is_converted(from.push(more), id, pr, sha),
{
    let k = choose|k: int|
        #![trigger from[k]]
        is_taken(from, k) && from[k].id() == id && is_node_pr(pr, from[k].node, from[k].role) && sha
            == from[k].node.head_ref_oid;
    let all = from.push(more);
    assert(all[k] == from[k]);
    assert forall|j: int|
        #![trigger all[j]]
        0 <= j < all.len() && j != k && all[j].id() == all[k].id() implies rank(all[k].role) < rank(
        all[j].role,
    ) || (all[k].role == all[j].role && if all[k].role is Author {
        j < k
    } else {
        k < j
    }) by {
        if j < from.len() {
            assert(all[j] == from[j]);
        }
    }
    assert(is_taken(all, k));
}

proof fn lemma_converted_by_last(from: Seq<Candidate>, more: Candidate, pr: PullRequest)
    requires
        is_node_pr(pr, more.node, more.role),
        !distinct_ids(from).contains(more.id()) || (more.role is Author && forall|j: int|
            0 <= j < from.len() ==> (#[trigger] from[j]).role is Author),
    ensures
        is_converted(from.push(more), more.id(), pr, more.node.head_ref_oid),
{
    let all = from.push(more);
    let last = from.len() as int;
    assert(all[last] == more);
    assert forall|j: int|
        #![trigger all[j]]
        0 <= j < all.len() && j != last && all[j].id() == all[last].id() implies rank(
        all[last].role,
    ) < rank(all[j].role) || (all[last].role == all[j].role && if all[last].role is Author {
        j < last
    } else {
        last < j
    }) by {
        assert(all[j] == from[j]);
        lemma_distinct_ids(from, j);
    }
    assert(is_taken(all, last));
}

/// Takes up one more search result of a single token.
fn convert_node(
    prs: &mut IndexMap<PrId, PullRequest>,
    shas: &mut IdMap<String>,
    node: &PrNode,
    role: PrRole,
    Ghost(from): Ghost<Seq<Candidate>>,
)
    requires
        is_countable(*node),
        old(shas).wf(),
        is_conversion(from, pr_entries(*old(prs)), old(shas)@),
        forall|j: int|
            0 <= j < from.len() ==> rank((#[trigger] from[j]).role) <= rank(role),
    ensures
        final(shas).wf(),
        is_conversion(
            from.push(Candidate { role, token: 0, node: *node }),
            pr_entries(*final(prs)),
            final(shas)@,
        ),
{
    let ghost more = Candidate { role, token: 0, node: *node };
    let ghost all = from.push(more);
    let ghost before = pr_entries(*prs);
    let ghost shas0 = shas@;
    let ghost id = more.id();
    assert(all.drop_last() =~= from);
    let (pr, sha) = node_to_pr(node, role);
    proof {
        lemma_keys_has(before, id);
    }
    if role != PrRole::Author && find_pr(prs, &pr.id).is_some() {
        assert forall|i: int|
            #![trigger before[i]]
            0 <= i < before.len() implies shas0.contains_key(before[i].0@) && is_converted(
            all,
            before[i].0@,
            before[i].1,
            shas0[before[i].0@],
        ) by {
            lemma_converted_with_more(from, more, before[i].0@, before[i].1, shas0[before[i].0@]);
        }
        return;
    }
    shas.insert(pr.id.clone(), sha);
    let ghost new_pr = pr;
    put_pr(prs, pr.id.clone(), pr);
    let ghost after = pr_entries(*prs);
    proof {
        assert(new_pr.id@ == id);
        assert(role is Author ==> forall|j: int|
            0 <= j < from.len() ==> (#[trigger] from[j]).role is Author);
        lemma_converted_by_last(from, more, new_pr);
        if has_key(before, id) {
            let m = choose|m: int| is_key_at(before, id, m);
            lemma_key_at(before, id, m);
            assert(after == before.update(m, (before[m].0, new_pr)));
            assert(keys_of(after) =~= keys_of(before));
            assert forall|i: int|
                #![trigger after[i]]
                0 <= i < after.len() implies shas@.contains_key(after[i].0@) && is_converted(
                all,
                after[i].0@,
                after[i].1,
                shas@[after[i].0@],
            ) by {
                if i != m {
                    assert(after[i] == before[i]);
                    assert(before[i].0@ != before[m].0@);
                    lemma_converted_with_more(
                        from,
                        more,
                        before[i].0@,
                        before[i].1,
                        shas0[before[i].0@],
                    );
                }
            }
            assert forall|x: PrIdView| has_key(after, x) <==> has_key(before, x) by {
                lemma_keys_has(after, x);
                lemma_keys_has(before, x);
            }
        } else {
            assert(after == before.push((new_pr.id, new_pr)));
            assert(keys_of(after) =~= keys_of(before).push(id));
            assert forall|i: int|
                #![trigger after[i]]
                0 <= i < after.len() implies shas@.contains_key(after[i].0@) && is_converted(
                all,
                after[i].0@,
                after[i].1,
                shas@[after[i].0@],
            ) by {
                if i < before.len() {
                    assert(after[i] == before[i]);
                    assert(is_key_at(before, before[i].0@, i));
                    lemma_converted_with_more(
                        from,
                        more,
                        before[i].0@,
                        before[i].1,
                        shas0[before[i].0@],
                    );
                }
            }
            assert forall|x: PrIdView| x == id || has_key(before, x) implies has_key(after, x) by {
                if x == id {
                    assert(is_key_at(after, x, before.len() as int));
                } else {
                    let i = choose|i: int| is_key_at(before, x, i);
                    assert(is_key_at(after, x, i));
                }
            }
        }
    }
}

fn convert_nodes(
    prs: &mut IndexMap<PrId, PullRequest>,
    shas: &mut IdMap<String>,
    nodes: &[PrNode],
    role: PrRole,
    Ghost(from): Ghost<Seq<Candidate>>,
)
    requires
        all_countable(nodes@),
        old(shas).wf(),
        is_conversion(from, pr_entries(*old(prs)), old(shas)@),
        forall|j: int|
            0 <= j < from.len() ==> rank((#[trigger] from[j]).role) <= rank(role),
    ensures
        final(shas).wf(),
        is_conversion(
            from + as_candidates(nodes@, role, 0),
            pr_entries(*final(prs)),
            final(shas)@,
        ),
{
    let ghost new = as_candidates(nodes@, role, 0);
    assert(from + new.take(0) =~= from);
    for n in 0..nodes.len()
        invariant
            all_countable(nodes@),
            shas.wf(),
            new == as_candidates(nodes@, role, 0),
            is_conversion(from + new.take(n as int), pr_entries(*prs), shas@),
            forall|j: int|
                0 <= j < from.len() ==> rank((#[trigger] from[j]).role) <= rank(role),
    {
        let ghost so_far = from + new.take(n as int);
        assert forall|j: int| 0 <= j < so_far.len() implies rank((#[trigger] so_far[j]).role)
            <= rank(role) by {
            if j < from.len() {
                assert(so_far[j] == from[j]);
            } else {
                assert(so_far[j] == new[j - from.len()]);
            }
        }
        convert_node(prs, shas, &nodes[n], role, Ghost(so_far));
        assert(so_far.push(new[n as int]) =~= from + new.take(n + 1));
    }
    assert(new.take(new.len() as int) =~= new);
}

/// The candidates of a single token.
pub open spec fn own_candidates(
    author: Seq<PrNode>,
    review: Seq<PrNode>,
    mentioned: Seq<PrNode>,
) -> Seq<Candidate> {
    as_candidates(author, PrRole::Author, 0) + as_candidates(review, PrRole::ReviewRequested, 0)
        + as_candidates(mentioned, PrRole::Mentioned, 0)
}

/// What the results of a single token amount to, and the head commits. The role of author goes
/// before a requested review, which goes before a mention.
pub fn merge_and_convert(
    author_nodes: &[PrNode],
    review_nodes: &[PrNode],
    mentioned_nodes: &[PrNode],
) -> (r: (IndexMap<PrId, PullRequest>, IdMap<String>))
    requires
        all_countable(author_nodes@),
        all_countable(review_nodes@),
        all_countable(mentioned_nodes@),
    ensures
        r.1.wf(),
        is_conversion(
            own_candidates(author_nodes@, review_nodes@, mentioned_nodes@),
            pr_entries(r.0),
            r.1@,
        ),
{
    let mut prs = no_prs();
    let mut shas: IdMap<String> = IdMap::new();
    let ghost none = Seq::<Candidate>::empty();
    assert(keys_of(pr_entries(prs)) =~= distinct_ids(none));
    convert_nodes(&mut prs, &mut shas, author_nodes, PrRole::Author, Ghost(none));
    let ghost one = none + as_candidates(author_nodes@, PrRole::Author, 0);
    convert_nodes(&mut prs, &mut shas, review_nodes, PrRole::ReviewRequested, Ghost(one));
    let ghost two = one + as_candidates(review_nodes@, PrRole::ReviewRequested, 0);
    convert_nodes(&mut prs, &mut shas, mentioned_nodes, PrRole::Mentioned, Ghost(two));
    assert(two + as_candidates(mentioned_nodes@, PrRole::Mentioned, 0) =~= own_candidates(
        author_nodes@,
        review_nodes@,
        mentioned_nodes@,
    ));
    (prs, shas)
}

// ---------------------------------------------------------------------------
// What holds of the results

/// Closed and merged pull requests have their names; every other name is that of an open one.
pub proof fn states_have_their_names(name: Seq<char>)
    ensures
        state_named(name) == PrState::Closed <==> name == "CLOSED"@,
        state_named(name) == PrState::Merged <==> name == "MERGED"@,
        state_named(name) == PrState::Open <==> name != "CLOSED"@ && name != "MERGED"@,
{
    reveal_strlit("CLOSED");
    reveal_strlit("MERGED");
    assert("CLOSED"@[0] == 'C' && "MERGED"@[0] == 'M');
}

/// A pull request is what its search result says, field by field. Comments and review threads are
/// counted together; the author is empty where there is none; a time that is missing is the start of
/// the count; and the CI status is not known yet.
pub proof fn results_are_read_field_by_field(
    pr: PullRequest,
    node: PrNode,
    role: PrRole,
    created_at: Option<Timestamp>,
    updated_at: Option<Timestamp>,
)
    requires
        is_pr_at(pr, node, role, created_at, updated_at),
    ensures
        pr.id.owner@ == node.repository.owner.login@,
        pr.id.repo@ == node.repository.name@,
        pr.id.number == node.number,
        pr.title@ == node.title@,
        pr.url@ == node.url@,
        node.author is Some ==> pr.author_login@ == node.author->0.login@,
        node.author is None ==> pr.author_login@.len() == 0,
        pr.role == role,
        pr.state == PrState::Closed <==> node.state@ == "CLOSED"@,
        pr.state == PrState::Merged <==> node.state@ == "MERGED"@,
        created_at is Some ==> pr.created_at == created_at->0,
        created_at is None ==> pr.created_at.secs == 0 && pr.created_at.nanos == 0,
        updated_at is Some ==> pr.updated_at == updated_at->0,
        updated_at is None ==> pr.updated_at.secs == 0 && pr.updated_at.nanos == 0,
        pr.is_draft == node.is_draft,
        pr.review_decision is None <==> node.review_decision is None,
        pr.review_decision == Some(ReviewDecision::ReviewRequired) <==> (node.review_decision is Some
            && node.review_decision->0@ == "REVIEW_REQUIRED"@),
        pr.review_decision == Some(ReviewDecision::Approved) <==> (node.review_decision is Some
            && node.review_decision->0@ == "APPROVED"@),
        pr.review_decision == Some(ReviewDecision::ChangesRequested) <==> (
        node.review_decision is Some && node.review_decision->0@ == "CHANGES_REQUESTED"@),
        pr.total_comments == node.comments.total_count + node.review_threads.total_count,
        pr.last_commenter is Some <==> node.comments.nodes@.len() > 0
            && node.comments.nodes@[0].author is Some,
        pr.last_commenter is Some ==> pr.last_commenter->0@
            == node.comments.nodes@[0].author->0.login@,
        pr.ci_status is None,
{
    states_have_their_names(node.state@);
    if node.review_decision is Some {
        decisions_have_their_names(node.review_decision->0@);
    }
}

/// The times of a pull request are those that its search result gives.
pub proof fn times_come_from_the_result(pr: PullRequest, node: PrNode, role: PrRole)
    requires
        is_node_pr(pr, node, role),
    ensures
        is_pr_at(
            pr,
            node,
            role,
            rfc3339_value(node.created_at@),
            rfc3339_value(node.updated_at@),
        ),
        updated_in_node(node) == pr.updated_at,
{
}

/// An entry is made from one of the search results for its pull request, with the head commit and
/// the token of that result. No other result for it goes before: the own ones go before reviews, and
/// these before mentions; in one role the later update goes before the earlier one, and of two at
/// one time the first.
pub proof fn entries_come_from_the_best_result(
    from: Seq<Candidate>,
    prs: Seq<(PrId, PullRequest)>,
    shas: Map<PrIdView, String>,
    owners: Map<PrIdView, usize>,
    i: int,
) -> (k: int)
    requires
        is_merge(from, prs, shas, owners),
        0 <= i < prs.len(),
    ensures
        0 <= k < from.len(),
        prs[i].0.owner@ == from[k].node.repository.owner.login@,
        prs[i].0.repo@ == from[k].node.repository.name@,
        prs[i].0.number == from[k].node.number,
        is_pr_at(
            prs[i].1,
            from[k].node,
            from[k].role,
            rfc3339_value(from[k].node.created_at@),
            rfc3339_value(from[k].node.updated_at@),
        ),
        shas.contains_key(prs[i].0@) && shas[prs[i].0@] == from[k].node.head_ref_oid,
        owners.contains_key(prs[i].0@) && owners[prs[i].0@] == from[k].token,
        forall|j: int|
            #![trigger from[j]]
            0 <= j < from.len() && j != k && from[j].node.repository.owner.login@
                == from[k].node.repository.owner.login@ && from[j].node.repository.name@
                == from[k].node.repository.name@ && from[j].node.number == from[k].node.number ==> {
                let mine = time_or_epoch(rfc3339_value(from[k].node.updated_at@));
                let other = time_or_epoch(rfc3339_value(from[j].node.updated_at@));
                ||| from[k].role == PrRole::Author && from[j].role != PrRole::Author
                ||| from[k].role == PrRole::ReviewRequested && from[j].role == PrRole::Mentioned
                ||| from[k].role == from[j].role && (mine.secs > other.secs || (mine.secs
                    == other.secs && (mine.nanos > other.nanos || (mine.nanos == other.nanos && k
                    < j))))
            },
{
    let id = prs[i].0@;
    assert(is_won(from, id, prs[i].1, shas[id], owners[id]));
    let k = choose|k: int|
        #![trigger from[k]]
        wins(from, k) && from[k].id() == id && is_node_pr(prs[i].1, from[k].node, from[k].role)
            && shas[id] == from[k].node.head_ref_oid && owners[id] == from[k].token;
    assert forall|j: int|
        #![trigger from[j]]
        0 <= j < from.len() && j != k && from[j].node.repository.owner.login@
            == from[k].node.repository.owner.login@ && from[j].node.repository.name@
            == from[k].node.repository.name@ && from[j].node.number
            == from[k].node.number implies ({
        let mine = time_or_epoch(rfc3339_value(from[k].node.updated_at@));
        let other = time_or_epoch(rfc3339_value(from[j].node.updated_at@));
        ||| from[k].role == PrRole::Author && from[j].role != PrRole::Author
        ||| from[k].role == PrRole::ReviewRequested && from[j].role == PrRole::Mentioned
        ||| from[k].role == from[j].role && (mine.secs > other.secs || (mine.secs == other.secs && (
        mine.nanos > other.nanos || (mine.nanos == other.nanos && k < j))))
    }) by {
        assert(from[j].id() =~= from[k].id());
        assert(goes_before(from, k, j));
    }
    k
}

/// The candidates are the results of all tokens: first all own ones, then the reviews, then the
/// mentions, and in each part token by token, in the order of the results. A token that comes last
/// adds to the end of each part.
pub proof fn results_stand_role_by_role(
    caches: Seq<(usize, &RawPoll)>,
    token: usize,
    raw: &RawPoll,
)
    ensures
        role_candidates(Seq::empty(), PrRole::Author).len() == 0,
        role_candidates(Seq::empty(), PrRole::ReviewRequested).len() == 0,
        role_candidates(Seq::empty(), PrRole::Mentioned).len() == 0,
        role_candidates(caches.push((token, raw)), PrRole::Author) =~= role_candidates(
            caches,
            PrRole::Author,
        ) + raw.author@.map_values(
            |node: PrNode| Candidate { role: PrRole::Author, token, node },
        ),
        role_candidates(caches.push((token, raw)), PrRole::ReviewRequested) =~= role_candidates(
            caches,
            PrRole::ReviewRequested,
        ) + raw.review@.map_values(
            |node: PrNode| Candidate { role: PrRole::ReviewRequested, token, node },
        ),
        role_candidates(caches.push((token, raw)), PrRole::Mentioned) =~= role_candidates(
            caches,
            PrRole::Mentioned,
        ) + raw.mentioned@.map_values(
            |node: PrNode| Candidate { role: PrRole::Mentioned, token, node },
        ),
        candidates(caches) == role_candidates(caches, PrRole::Author) + role_candidates(
            caches,
            PrRole::ReviewRequested,
        ) + role_candidates(caches, PrRole::Mentioned),
{
    lemma_role_candidates_push(caches, token, raw, PrRole::Author);
    lemma_role_candidates_push(caches, token, raw, PrRole::ReviewRequested);
    lemma_role_candidates_push(caches, token, raw, PrRole::Mentioned);
}

proof fn lemma_role_candidates_push(
    caches: Seq<(usize, &RawPoll)>,
    token: usize,
    raw: &RawPoll,
    role: PrRole,
)
    ensures
        role_candidates(Seq::empty(), role).len() == 0,
        role_candidates(caches.push((token, raw)), role) =~= role_candidates(caches, role)
            + as_candidates(raw.nodes(role), role, token),
{
    let found = |cache: (usize, &RawPoll)| as_candidates(cache.1.nodes(role), role, cache.0);
    let none = Seq::<(usize, &RawPoll)>::empty();
    assert(none.flat_map(found) =~= Seq::empty());
    caches.lemma_flat_map_push(found, (token, raw));
}

/// Each pull request has one entry, in the order in which they are first found: a further result
/// adds one to the end exactly where no result before is for the same owner, repository and number.
pub proof fn entries_stand_in_the_order_of_discovery(from: Seq<Candidate>, more: Candidate)
    ensures
        distinct_ids(Seq::empty()).len() == 0,
        distinct_ids(from.push(more)) == (if exists|j: int|
            0 <= j < from.len() && (#[trigger] from[j]).node.repository.owner.login@
                == more.node.repository.owner.login@ && from[j].node.repository.name@
                == more.node.repository.name@ && from[j].node.number == more.node.number {
            distinct_ids(from)
        } else {
            distinct_ids(from).push(
                PrIdView {
                    owner: more.node.repository.owner.login@,
                    repo: more.node.repository.name@,
                    number: more.node.number,
                },
            )
        }),
{
    assert(from.push(more).drop_last() =~= from);
    lemma_distinct_members(from, more.id());
    if exists|j: int|
        0 <= j < from.len() && (#[trigger] from[j]).node.repository.owner.login@
            == more.node.repository.owner.login@ && from[j].node.repository.name@
            == more.node.repository.name@ && from[j].node.number == more.node.number {
        let j = choose|j: int|
            0 <= j < from.len() && (#[trigger] from[j]).node.repository.owner.login@
                == more.node.repository.owner.login@ && from[j].node.repository.name@
                == more.node.repository.name@ && from[j].node.number == more.node.number;
        assert(from[j].id() =~= more.id());
    }
    if distinct_ids(from).contains(more.id()) {
        let j = choose|j: int| 0 <= j < from.len() && (#[trigger] from[j]).id() == more.id();
        assert(from[j].node.number == more.node.number);
    }
}

proof fn lemma_distinct_members(from: Seq<Candidate>, id: PrIdView)
    ensures
        distinct_ids(from).contains(id) <==> exists|j: int|
            0 <= j < from.len() && (#[trigger] from[j]).id() == id,
    decreases from.len(),
{
    if from.len() > 0 {
        let rest = from.drop_last();
        lemma_distinct_members(rest, id);
        let ids = distinct_ids(rest);
        if exists|j: int| 0 <= j < from.len() && (#[trigger] from[j]).id() == id {
            let j = choose|j: int| 0 <= j < from.len() && (#[trigger] from[j]).id() == id;
            if j < rest.len() {
                assert(rest[j].id() == id);
                let m = choose|m: int| 0 <= m < ids.len() && ids[m] == id;
                assert(distinct_ids(from)[m] == id);
            } else if !ids.contains(id) {
                assert(distinct_ids(from)[ids.len() as int] == id);
            }
        }
        if distinct_ids(from).contains(id) {
            if ids.contains(id) {
                let j = choose|j: int| 0 <= j < rest.len() && (#[trigger] rest[j]).id() == id;
                assert(from[j].id() == id);
            } else {
                let m = choose|m: int|
                    0 <= m < distinct_ids(from).len() && distinct_ids(from)[m] == id;
                if m < ids.len() {
                    assert(ids[m] == id);
                }
                assert(from[from.len() - 1].id() == id);
            }
        }
    }
}

/// What is found as a mention is exactly what the searches for mentions give.
pub proof fn mentions_are_what_the_searches_give(from: Seq<Candidate>, id: PrIdView)
    ensures
        candidate_ids(from).contains(id) <==> exists|j: int|
            0 <= j < from.len() && (#[trigger] from[j]).node.repository.owner.login@ == id.owner
                && from[j].node.repository.name@ == id.repo && from[j].node.number == id.number,
{
    let name = |candidate: Candidate| candidate.id();
    let ids = from.map_values(name);
    if candidate_ids(from).contains(id) {
        let j = choose|j: int| 0 <= j < ids.len() && ids[j] == id;
        assert(from[j].id() == id);
    }
    if exists|j: int|
        0 <= j < from.len() && (#[trigger] from[j]).node.repository.owner.login@ == id.owner
            && from[j].node.repository.name@ == id.repo && from[j].node.number == id.number {
        let j = choose|j: int|
            0 <= j < from.len() && (#[trigger] from[j]).node.repository.owner.login@ == id.owner
                && from[j].node.repository.name@ == id.repo && from[j].node.number == id.number;
        assert(from[j].id() =~= id);
        assert(ids[j] == id);
    }
}

/// Through a single token an entry is made from a result of the best role for its pull request: own
/// ones go before reviews, and these before mentions. Among several own results the last one is
/// taken, and among several of another role the first one.
pub proof fn single_entries_come_from_the_best_role(
    from: Seq<Candidate>,
    prs: Seq<(PrId, PullRequest)>,
    shas: Map<PrIdView, String>,
    i: int,
) -> (k: int)
    requires
        is_conversion(from, prs, shas),
        0 <= i < prs.len(),
    ensures
        0 <= k < from.len(),
        prs[i].0.owner@ == from[k].node.repository.owner.login@,
        prs[i].0.repo@ == from[k].node.repository.name@,
        prs[i].0.number == from[k].node.number,
        is_pr_at(
            prs[i].1,
            from[k].node,
            from[k].role,
            rfc3339_value(from[k].node.created_at@),
            rfc3339_value(from[k].node.updated_at@),
        ),
        shas.contains_key(prs[i].0@) && shas[prs[i].0@] == from[k].node.head_ref_oid,
        forall|j: int|
            #![trigger from[j]]
            0 <= j < from.len() && j != k && from[j].node.repository.owner.login@
                == from[k].node.repository.owner.login@ && from[j].node.repository.name@
                == from[k].node.repository.name@ && from[j].node.number == from[k].node.number ==> {
                ||| from[k].role == PrRole::Author && from[j].role != PrRole::Author
                ||| from[k].role == PrRole::ReviewRequested && from[j].role == PrRole::Mentioned
                ||| from[k].role == PrRole::Author && from[j].role == PrRole::Author && j < k
                ||| from[k].role != PrRole::Author && from[j].role == from[k].role && k < j
            },
{
    let id = prs[i].0@;
    assert(is_converted(from, id, prs[i].1, shas[id]));
    let k = choose|k: int|
        #![trigger from[k]]
        is_taken(from, k) && from[k].id() == id && is_node_pr(prs[i].1, from[k].node, from[k].role)
            && shas[id] == from[k].node.head_ref_oid;
    assert forall|j: int|
        #![trigger from[j]]
        0 <= j < from.len() && j != k && from[j].node.repository.owner.login@
            == from[k].node.repository.owner.login@ && from[j].node.repository.name@
            == from[k].node.repository.name@ && from[j].node.number
            == from[k].node.number implies ({
        ||| from[k].role == PrRole::Author && from[j].role != PrRole::Author
        ||| from[k].role == PrRole::ReviewRequested && from[j].role == PrRole::Mentioned
        ||| from[k].role == PrRole::Author && from[j].role == PrRole::Author && j < k
        ||| from[k].role != PrRole::Author && from[j].role == from[k].role && k < j
    }) by {
        assert(from[j].id() =~= from[k].id());
    }
    k
}

/// The entries of a single token are one for each pull request, in the order in which they are
/// found among the own results, the reviews and the mentions.
pub proof fn single_entries_stand_in_the_order_of_discovery(
    author: Seq<PrNode>,
    review: Seq<PrNode>,
    mentioned: Seq<PrNode>,
    prs: Seq<(PrId, PullRequest)>,
    shas: Map<PrIdView, String>,
)
    requires
        is_conversion(own_candidates(author, review, mentioned), prs, shas),
    ensures
        prs.map_values(|entry: (PrId, PullRequest)| entry.0@) =~= distinct_ids(
            author.map_values(
                |node: PrNode| Candidate { role: PrRole::Author, token: 0, node },
            ) + review.map_values(
                |node: PrNode| Candidate { role: PrRole::ReviewRequested, token: 0, node },
            ) + mentioned.map_values(
                |node: PrNode| Candidate { role: PrRole::Mentioned, token: 0, node },
            ),
        ),
{
    assert(own_candidates(author, review, mentioned) =~= author.map_values(
        |node: PrNode| Candidate { role: PrRole::Author, token: 0, node },
    ) + review.map_values(
        |node: PrNode| Candidate { role: PrRole::ReviewRequested, token: 0, node },
    ) + mentioned.map_values(
        |node: PrNode| Candidate { role: PrRole::Mentioned, token: 0, node },
    ));
}

/// The entries of several tokens are one for each pull request, in the order in which they are
/// found.
pub proof fn entries_stand_once_each(
    from: Seq<Candidate>,
    prs: Seq<(PrId, PullRequest)>,
    shas: Map<PrIdView, String>,
    owners: Map<PrIdView, usize>,
)
    requires
        is_merge(from, prs, shas, owners),
    ensures
        prs.map_values(|entry: (PrId, PullRequest)| entry.0@) =~= distinct_ids(from),
        forall|i: int, j: int|
            #![trigger prs[i], prs[j]]
            0 <= i < j < prs.len() ==> prs[i].0@ != prs[j].0@,
{
}

/// The results of a token can be used where each of them counts fewer comments and review threads
/// together than 2 to the 64.
pub proof fn counts_have_to_fit(raw: RawPoll)
    ensures
        raw.wf() <==> {
            &&& forall|i: int|
                0 <= i < raw.author@.len() ==> (#[trigger] raw.author@[i]).comments.total_count
                    + raw.author@[i].review_threads.total_count < 0x1_0000_0000_0000_0000
            &&& forall|i: int|
                0 <= i < raw.review@.len() ==> (#[trigger] raw.review@[i]).comments.total_count
                    + raw.review@[i].review_threads.total_count < 0x1_0000_0000_0000_0000
            &&& forall|i: int|
                0 <= i < raw.mentioned@.len() ==> (#[trigger] raw.mentioned@[i]).comments.total_count
                    + raw.mentioned@[i].review_threads.total_count < 0x1_0000_0000_0000_0000
        },
{
    assert forall|i: int| 0 <= i < raw.author@.len() implies (is_countable(
        #[trigger] raw.author@[i],
    ) <==> raw.author@[i].comments.total_count + raw.author@[i].review_threads.total_count
        < 0x1_0000_0000_0000_0000) by {}
    assert forall|i: int| 0 <= i < raw.review@.len() implies (is_countable(
        #[trigger] raw.review@[i],
    ) <==> raw.review@[i].comments.total_count + raw.review@[i].review_threads.total_count
        < 0x1_0000_0000_0000_0000) by {}
    assert forall|i: int| 0 <= i < raw.mentioned@.len() implies (is_countable(
        #[trigger] raw.mentioned@[i],
    ) <==> raw.mentioned@[i].comments.total_count + raw.mentioned@[i].review_threads.total_count
        < 0x1_0000_0000_0000_0000) by {}
}

} // verus!
