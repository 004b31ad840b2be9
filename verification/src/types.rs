//! Pull requests, and what is known of one.
use crate::text::{decimal, decimal_round_trip, push_decimal, same_text};
use crate::timestamp::Timestamp;
use vstd::prelude::*;
use vstd::string::*;

verus! {

/// The identity of a pull request.
#[derive(Debug, Eq, Hash)]
pub struct PrId {
    pub owner: String,
    pub repo: String,
    pub number: u64,
}

/// What a [`PrId`] stands for.
#[verifier::ext_equal]
pub struct PrIdView {
    pub owner: Seq<char>,
    pub repo: Seq<char>,
    pub number: u64,
}

impl View for PrId {
    type V = PrIdView;

    open spec fn view(&self) -> PrIdView {
        PrIdView { owner: self.owner@, repo: self.repo@, number: self.number }
    }
}

impl PartialEq for PrId {
    fn eq(&self, other: &PrId) -> (r: bool) {
        let same = self.number == other.number && self.owner == other.owner && self.repo
            == other.repo;
        assert(same ==> self@ =~= other@);
        same
    }
}

impl vstd::std_specs::cmp::PartialEqSpecImpl for PrId {
    open spec fn obeys_eq_spec() -> bool {
        true
    }

    open spec fn eq_spec(&self, other: &PrId) -> bool {
        self@ == other@
    }
}

impl Clone for PrId {
    fn clone(&self) -> (r: PrId)
        ensures
            r == *self,
    {
        PrId { owner: self.owner.clone(), repo: self.repo.clone(), number: self.number }
    }
}

/// The text form of an identity: `owner/repo#number`.
pub open spec fn id_text(id: PrIdView) -> Seq<char> {
    id.owner + seq!['/'] + id.repo + seq!['#'] + decimal(id.number as nat)
}

impl PrId {
    /// `owner/repo#number`.
    pub fn to_string(&self) -> (r: String)
        ensures
            r@ == id_text(self@),
    {
        let mut out = self.owner.clone();
        out.push('/');
        out.append(self.repo.as_str());
        out.push('#');
        push_decimal(&mut out, self.number);
        assert(out@ =~= id_text(self@));
        out
    }
}

/// How the user is involved in a pull request.
#[derive(Debug, Clone, Copy, PartialEq, Eq, Hash, Structural)]
pub enum PrRole {
    Author,
    ReviewRequested,
    Mentioned,
}

#[derive(Debug, Clone, Copy, PartialEq, Eq, Hash, Structural)]
pub enum PrState {
    Open,
    Closed,
    Merged,
}

/// What the reviews of a pull request amount to.
#[derive(Debug, PartialEq, Eq)]
pub enum ReviewDecision {
    Approved,
    ChangesRequested,
    ReviewRequired,
    Unknown(String),
}

/// What a [`ReviewDecision`] stands for.
pub enum DecisionView {
    Approved,
    ChangesRequested,
    ReviewRequired,
    Unknown(Seq<char>),
}

impl View for ReviewDecision {
    type V = DecisionView;

    open spec fn view(&self) -> DecisionView {
        match self {
            ReviewDecision::Approved => DecisionView::Approved,
            ReviewDecision::ChangesRequested => DecisionView::ChangesRequested,
            ReviewDecision::ReviewRequired => DecisionView::ReviewRequired,
            ReviewDecision::Unknown(text) => DecisionView::Unknown(text@),
        }
    }
}

impl Clone for ReviewDecision {
    fn clone(&self) -> (r: ReviewDecision)
        ensures
            r == *self,
    {
        match self {
            ReviewDecision::Approved => ReviewDecision::Approved,
            ReviewDecision::ChangesRequested => ReviewDecision::ChangesRequested,
            ReviewDecision::ReviewRequired => ReviewDecision::ReviewRequired,
            ReviewDecision::Unknown(text) => ReviewDecision::Unknown(text.clone()),
        }
    }
}

/// The decision that a name of the GraphQL interface stands for.
pub open spec fn decision_named(name: Seq<char>) -> DecisionView {
    if name == "APPROVED"@ {
        DecisionView::Approved
    } else if name == "CHANGES_REQUESTED"@ {
        DecisionView::ChangesRequested
    } else if name == "REVIEW_REQUIRED"@ {
        DecisionView::ReviewRequired
    } else {
        DecisionView::Unknown(name)
    }
}

impl ReviewDecision {
    /// The decision of the given name. An unknown name is kept.
    pub fn from_str_opt(s: Option<&str>) -> (r: Option<Self>)
        ensures
            r is Some <==> s is Some,
            r matches Some(decision) ==> decision@ == decision_named(s->0@),
    {
        match s {
            None => None,
            Some(name) => Some(
                if same_text(name, "APPROVED") {
                    ReviewDecision::Approved
                } else if same_text(name, "CHANGES_REQUESTED") {
                    ReviewDecision::ChangesRequested
                } else if same_text(name, "REVIEW_REQUIRED") {
                    ReviewDecision::ReviewRequired
                } else {
                    ReviewDecision::Unknown(name.to_owned())
                },
            ),
        }
    }
}

/// What the checks of a commit amount to.
#[derive(Debug, Clone, Copy, PartialEq, Eq, Structural)]
pub enum CiStatus {
    Pending,
    Success,
    Failure,
    Error,
    Expected,
}

/// The status that a name of the GraphQL interface stands for. An unknown name stands for a status
/// that is not known yet.
pub open spec fn status_named(name: Seq<char>) -> CiStatus {
    if name == "SUCCESS"@ {
        CiStatus::Success
    } else if name == "FAILURE"@ {
        CiStatus::Failure
    } else if name == "ERROR"@ {
        CiStatus::Error
    } else if name == "EXPECTED"@ {
        CiStatus::Expected
    } else {
        CiStatus::Pending
    }
}

impl CiStatus {
    /// The status of the given name.
    pub fn from_str_opt(s: Option<&str>) -> (r: Option<Self>)
        ensures
            r == (match s {
                Some(name) => Some(status_named(name@)),
                None => None,
            }),
    {
        match s {
            None => None,
            Some(name) => Some(
                if same_text(name, "SUCCESS") {
                    CiStatus::Success
                } else if same_text(name, "FAILURE") {
                    CiStatus::Failure
                } else if same_text(name, "ERROR") {
                    CiStatus::Error
                } else if same_text(name, "EXPECTED") {
                    CiStatus::Expected
                } else {
                    CiStatus::Pending
                },
            ),
        }
    }

    pub open spec fn in_progress(self) -> bool {
        self is Pending || self is Expected
    }

    /// Whether the checks have not come to an end.
    pub fn is_in_progress(&self) -> (r: bool)
        ensures
            r == self.in_progress(),
    {
        matches!(self, CiStatus::Pending | CiStatus::Expected)
    }

    pub open spec fn finished(self) -> bool {
        self is Success || self is Failure || self is Error
    }

    /// Whether the checks have come to an end.
    pub fn is_finished(&self) -> (r: bool)
        ensures
            r == self.finished(),
    {
        matches!(self, CiStatus::Success | CiStatus::Failure | CiStatus::Error)
    }

    /// A status is either in progress or finished, and never both.
    pub proof fn in_progress_or_finished(self)
        ensures
            self.in_progress() != self.finished(),
    {
    }
}

/// A pull request as it was last seen.
#[derive(Debug)]
pub struct PullRequest {
    pub id: PrId,
    pub title: String,
    pub url: String,
    pub author_login: String,
    pub role: PrRole,
    pub state: PrState,
    pub created_at: Timestamp,
    pub updated_at: Timestamp,
    pub is_draft: bool,
    pub review_decision: Option<ReviewDecision>,
    pub total_comments: u64,
    pub last_commenter: Option<String>,
    pub ci_status: Option<CiStatus>,
}

impl Clone for PullRequest {
    fn clone(&self) -> (r: PullRequest)
        ensures
            r == *self,
    {
        PullRequest {
            id: self.id.clone(),
            title: self.title.clone(),
            url: self.url.clone(),
            author_login: self.author_login.clone(),
            role: self.role,
            state: self.state,
            created_at: self.created_at,
            updated_at: self.updated_at,
            is_draft: self.is_draft,
            review_decision: self.review_decision.clone(),
            total_comments: self.total_comments,
            last_commenter: self.last_commenter.clone(),
            ci_status: self.ci_status,
        }
    }
}

impl PullRequest {
    /// This pull request with another CI status.
    pub open spec fn with_ci(self, status: Option<CiStatus>) -> PullRequest {
        PullRequest { ci_status: status, ..self }
    }
}

/// A set of roles.
#[derive(Debug, Clone, Copy, PartialEq, Eq, Structural)]
pub struct RoleSet {
    author: bool,
    review_requested: bool,
    mentioned: bool,
}

impl View for RoleSet {
    type V = Set<PrRole>;

    closed spec fn view(&self) -> Set<PrRole> {
        Set::new(|role: PrRole| self.has(role))
    }
}

impl RoleSet {
    closed spec fn has(&self, role: PrRole) -> bool {
        match role {
            PrRole::Author => self.author,
            PrRole::ReviewRequested => self.review_requested,
            PrRole::Mentioned => self.mentioned,
        }
    }

    /// Sets are equal exactly where they hold the same roles.
    pub proof fn equal_by_members(self, other: RoleSet)
        ensures
            self == other <==> self@ == other@,
    {
        if self@ == other@ {
            assert(self@.contains(PrRole::Author) == other@.contains(PrRole::Author));
            assert(self@.contains(PrRole::ReviewRequested) == other@.contains(
                PrRole::ReviewRequested,
            ));
            assert(self@.contains(PrRole::Mentioned) == other@.contains(PrRole::Mentioned));
        }
    }

    /// The empty set.
    pub fn new() -> (r: RoleSet)
        ensures
            r@ == Set::<PrRole>::empty(),
    {
        let r = RoleSet { author: false, review_requested: false, mentioned: false };
        assert(r@ =~= Set::empty());
        r
    }

    /// The set of the given roles.
    pub fn of(roles: &Vec<PrRole>) -> (r: RoleSet)
        ensures
            r@ == roles@.to_set(),
    {
        let mut set = RoleSet::new();
        assert(roles@.take(0).to_set() =~= Set::empty());
        for i in 0..roles.len()
            invariant
                set@ == roles@.take(i as int).to_set(),
        {
            set.insert(roles[i]);
            proof {
                assert(roles@.take(i + 1) =~= roles@.take(i as int).push(roles@[i as int]));
                roles@.take(i as int).lemma_push_to_set_commute(roles@[i as int]);
            }
        }
        assert(roles@.take(roles@.len() as int) =~= roles@);
        set
    }

    pub fn contains(&self, role: &PrRole) -> (r: bool)
        ensures
            r == self@.contains(*role),
    {
        match role {
            PrRole::Author => self.author,
            PrRole::ReviewRequested => self.review_requested,
            PrRole::Mentioned => self.mentioned,
        }
    }

    /// Adds `role`, and says whether it was missing.
    pub fn insert(&mut self, role: PrRole) -> (r: bool)
        ensures
            final(self)@ == old(self)@.insert(role),
            r == !old(self)@.contains(role),
    {
        let missing = !self.contains(&role);
        match role {
            PrRole::Author => self.author = true,
            PrRole::ReviewRequested => self.review_requested = true,
            PrRole::Mentioned => self.mentioned = true,
        }
        assert(self@ =~= old(self)@.insert(role));
        missing
    }

    /// Takes `role` out, and says whether it was there.
    pub fn remove(&mut self, role: &PrRole) -> (r: bool)
        ensures
            final(self)@ == old(self)@.remove(*role),
            r == old(self)@.contains(*role),
    {
        let there = self.contains(role);
        match role {
            PrRole::Author => self.author = false,
            PrRole::ReviewRequested => self.review_requested = false,
            PrRole::Mentioned => self.mentioned = false,
        }
        assert(self@ =~= old(self)@.remove(*role));
        there
    }

    pub fn is_empty(&self) -> (r: bool)
        ensures
            r == (self@ == Set::<PrRole>::empty()),
    {
        let r = !self.author && !self.review_requested && !self.mentioned;
        proof {
            if r {
                assert(self@ =~= Set::empty());
            } else {
                assert(self@.contains(PrRole::Author) || self@.contains(PrRole::ReviewRequested)
                    || self@.contains(PrRole::Mentioned));
            }
        }
        r
    }
}

// ---------------------------------------------------------------------------
// What holds of names

/// The text form of an identity is the owner, a slash, the repository, a hash and the number.
pub proof fn text_form_has_its_parts(id: PrIdView)
    ensures
        ({
            let text = id_text(id);
            let slash = id.owner.len() as int;
            let hash = slash + 1 + id.repo.len();
            &&& text.len() > hash + 1
            &&& text.take(slash) == id.owner
            &&& text[slash] == '/'
            &&& text.subrange(slash + 1, hash) == id.repo
            &&& text[hash] == '#'
            &&& text.skip(hash + 1) == decimal(id.number as nat)
        }),
{
    decimal_round_trip(id.number);
    let text = id_text(id);
    let slash = id.owner.len() as int;
    let hash = slash + 1 + id.repo.len();
    assert(text.take(slash) =~= id.owner);
    assert(text.subrange(slash + 1, hash) =~= id.repo);
    assert(text.skip(hash + 1) =~= decimal(id.number as nat));
}

/// Each decision has one name, and every other name is kept as it is.
pub proof fn decisions_have_their_names(name: Seq<char>)
    ensures
        decision_named(name) is Approved <==> name == "APPROVED"@,
        decision_named(name) is ChangesRequested <==> name == "CHANGES_REQUESTED"@,
        decision_named(name) is ReviewRequired <==> name == "REVIEW_REQUIRED"@,
        name != "APPROVED"@ && name != "CHANGES_REQUESTED"@ && name != "REVIEW_REQUIRED"@
            ==> decision_named(name) == DecisionView::Unknown(name),
{
    reveal_strlit("APPROVED");
    reveal_strlit("CHANGES_REQUESTED");
    reveal_strlit("REVIEW_REQUIRED");
    assert("APPROVED"@.len() == 8 && "CHANGES_REQUESTED"@.len() == 17);
    assert("REVIEW_REQUIRED"@.len() == 15);
}

/// Each finished status has one name, and every name that is not known stands for one that is
/// pending.
pub proof fn statuses_have_their_names(name: Seq<char>)
    ensures
        status_named(name) is Success <==> name == "SUCCESS"@,
        status_named(name) is Failure <==> name == "FAILURE"@,
        status_named(name) is Error <==> name == "ERROR"@,
        status_named(name) is Expected <==> name == "EXPECTED"@,
        status_named(name) is Pending <==> name != "SUCCESS"@ && name != "FAILURE"@ && name
            != "ERROR"@ && name != "EXPECTED"@,
{
    reveal_strlit("SUCCESS");
    reveal_strlit("FAILURE");
    reveal_strlit("ERROR");
    reveal_strlit("EXPECTED");
    assert("SUCCESS"@[0] == 'S' && "FAILURE"@[0] == 'F');
    assert("ERROR"@.len() == 5 && "EXPECTED"@.len() == 8);
    assert("SUCCESS"@.len() == 7 && "FAILURE"@.len() == 7);
}

/// Only a pending and an expected status are in progress; success, failure and error are ends.
pub proof fn ends_are_success_failure_and_error(status: CiStatus)
    ensures
        status.in_progress() <==> status == CiStatus::Pending || status == CiStatus::Expected,
        status.finished() <==> status == CiStatus::Success || status == CiStatus::Failure || status
            == CiStatus::Error,
{
}

} // verus!
