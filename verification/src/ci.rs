//! The questions about head commits that follow a snapshot, and what becomes of the answers.
use crate::ids::{has_key, is_key_at, unique_keys, IdMap, IdSet};
use crate::poller::{CiPayload, CiUpdate, PollPayload};
use crate::pr_map::{key_set, pr_entries};
use crate::types::{CiStatus, PrId, PrIdView};
use vstd::prelude::*;
use vstd::string::*;

verus! {

/// A commit whose status is to be asked for.
#[derive(Debug)]
pub struct CiJob {
    pub id: PrId,
    pub sha: String,
    /// The token to ask through.
    pub token: usize,
}

/// Whether the status of the head commit of a pull request is asked for: it is in the snapshot, its
/// head commit is known, and there is a token that found it.
pub open spec fn asks_for(
    id: PrIdView,
    shas: Map<PrIdView, String>,
    owners: Map<PrIdView, usize>,
    retained: Set<PrIdView>,
    token_count: usize,
) -> bool {
    &&& retained.contains(id)
    &&& shas.contains_key(id)
    &&& shas[id]@.len() > 0
    &&& owners.contains_key(id)
    &&& owners[id] < token_count
}

/// Whether the jobs ask for the status of each such head commit once, through the token that found
/// the pull request.
pub open spec fn are_jobs(
    jobs: Seq<CiJob>,
    shas: Map<PrIdView, String>,
    owners: Map<PrIdView, usize>,
    retained: Set<PrIdView>,
    token_count: usize,
) -> bool {
    &&& forall|i: int, j: int|
        #![trigger jobs[i], jobs[j]]
        0 <= i < j < jobs.len() ==> jobs[i].id@ != jobs[j].id@
    &&& forall|i: int|
        #![trigger jobs[i]]
        0 <= i < jobs.len() ==> asks_for(jobs[i].id@, shas, owners, retained, token_count)
            && jobs[i].sha == shas[jobs[i].id@] && jobs[i].token == owners[jobs[i].id@]
    &&& forall|id: PrIdView| #[trigger]
        asks_for(id, shas, owners, retained, token_count) ==> exists|i: int|
            0 <= i < jobs.len() && (#[trigger] jobs[i]).id@ == id
}

/// The commits whose status is to be asked for.
pub fn ci_jobs(
    shas: &IdMap<String>,
    owners: &IdMap<usize>,
    retained: &IdSet,
    token_count: usize,
) -> (r: Vec<CiJob>)
    requires
        shas.wf(),
        owners.wf(),
    ensures
        are_jobs(r@, shas@, owners@, retained@, token_count),
{
    let mut jobs: Vec<CiJob> = Vec::new();
    let ghost entries = shas.order();
    proof {
        shas.order_lists_entries();
    }
    let count = shas.len();
    for k in 0..count
        invariant
            shas.wf(),
            owners.wf(),
            entries == shas.order(),
            count == entries.len(),
            unique_keys(entries),
            forall|m: int|
                #![trigger entries[m]]
                0 <= m < entries.len() ==> shas@.contains_key(entries[m].0@)
                    && shas@[entries[m].0@] == entries[m].1,
            forall|i: int, j: int|
                #![trigger jobs@[i], jobs@[j]]
                0 <= i < j < jobs@.len() ==> jobs@[i].id@ != jobs@[j].id@,
            forall|i: int|
                #![trigger jobs@[i]]
                0 <= i < jobs@.len() ==> asks_for(
                    jobs@[i].id@,
                    shas@,
                    owners@,
                    retained@,
                    token_count,
                ) && jobs@[i].sha == shas@[jobs@[i].id@] && jobs@[i].token == owners@[jobs@[i].id@]
                    && exists|m: int| 0 <= m < k && (#[trigger] entries[m]).0@ == jobs@[i].id@,
            forall|m: int|
                #![trigger entries[m]]
                0 <= m < k && asks_for(entries[m].0@, shas@, owners@, retained@, token_count)
                    ==> exists|i: int|
                    0 <= i < jobs@.len() && (#[trigger] jobs@[i]).id@ == entries[m].0@,
    {
        let ghost before = jobs@;
        let (id, sha) = shas.entry(k);
        assert(shas@.contains_key(entries[k as int].0@));
        let empty = sha.as_str().unicode_len() == 0;
        if retained.contains(id) && !empty {
            if let Some(token) = owners.get(id) {
                if *token < token_count {
                    jobs.push(CiJob { id: id.clone(), sha: sha.clone(), token: *token });
                    proof {
                        assert forall|i: int, j: int|
                            #![trigger jobs@[i], jobs@[j]]
                            0 <= i < j < jobs@.len() implies jobs@[i].id@ != jobs@[j].id@ by {
                            if j == before.len() {
                                let m = choose|m: int|
                                    0 <= m < k && (#[trigger] entries[m]).0@ == before[i].id@;
                                assert(entries[m].0@ != entries[k as int].0@);
                            }
                        }
                    }
                }
            }
        }
        proof {
            assert forall|m: int|
                #![trigger entries[m]]
                0 <= m < k + 1 && asks_for(
                    entries[m].0@,
                    shas@,
                    owners@,
                    retained@,
                    token_count,
                ) implies exists|i: int|
                0 <= i < jobs@.len() && (#[trigger] jobs@[i]).id@ == entries[m].0@ by {
                if m < k {
                    let i = choose|i: int|
                        0 <= i < before.len() && (#[trigger] before[i]).id@ == entries[m].0@;
                    assert(jobs@[i] == before[i]);
                } else {
                    assert(jobs@[before.len() as int].id@ == entries[m].0@);
                }
            }
            assert forall|i: int|
                #![trigger jobs@[i]]
                0 <= i < jobs@.len() implies exists|m: int|
                0 <= m < k + 1 && (#[trigger] entries[m]).0@ == jobs@[i].id@ by {
                if i < before.len() {
                    let m = choose|m: int|
                        0 <= m < k && (#[trigger] entries[m]).0@ == before[i].id@;
                    assert(entries[m].0@ == jobs@[i].id@);
                } else {
                    assert(entries[k as int].0@ == jobs@[i].id@);
                }
            }
        }
    }
    proof {
        assert forall|id: PrIdView| #[trigger]
            asks_for(id, shas@, owners@, retained@, token_count) implies exists|i: int|
            0 <= i < jobs@.len() && (#[trigger] jobs@[i]).id@ == id by {
            assert(has_key(entries, id));
            let m = choose|m: int| is_key_at(entries, id, m);
            assert(entries[m].0@ == id);
        }
    }
    jobs
}

/// The answer to a question about a commit.
#[derive(Debug)]
pub struct CiAnswer {
    pub id: PrId,
    pub sha: String,
    /// What the checks amount to; nothing where the question failed.
    pub status: Option<CiStatus>,
}

/// What the answers say.
pub open spec fn statuses_in(answers: Seq<CiAnswer>) -> Map<PrIdView, CiUpdate>
    decreases answers.len(),
{
    if answers.len() == 0 {
        Map::empty()
    } else {
        statuses_in(answers.drop_last()).insert(
            answers.last().id@,
            CiUpdate { head_sha: answers.last().sha, status: answers.last().status },
        )
    }
}

/// The CI status of the snapshot of the given number.
pub fn ci_payload(generation: u64, answers: &Vec<CiAnswer>) -> (r: CiPayload)
    ensures
        r.generation == generation,
        r.statuses.wf(),
        r.statuses@ == statuses_in(answers@),
{
    let mut statuses: IdMap<CiUpdate> = IdMap::new();
    for i in 0..answers.len()
        invariant
            statuses.wf(),
            statuses@ == statuses_in(answers@.take(i as int)),
    {
        let answer = &answers[i];
        statuses.insert(
            answer.id.clone(),
            CiUpdate { head_sha: answer.sha.clone(), status: answer.status },
        );
        assert(answers@.take(i + 1).drop_last() =~= answers@.take(i as int));
    }
    assert(answers@.take(answers@.len() as int) =~= answers@);
    CiPayload { generation, statuses }
}

// ---------------------------------------------------------------------------
// What holds of the answers

/// Whether every answer is one to a job.
pub open spec fn answer_jobs(answers: Seq<CiAnswer>, jobs: Seq<CiJob>) -> bool {
    forall|k: int|
        #![trigger answers[k]]
        0 <= k < answers.len() ==> exists|i: int|
            0 <= i < jobs.len() && (#[trigger] jobs[i]).id@ == answers[k].id@ && jobs[i].sha@
                == answers[k].sha@
}

/// Whether a CI result belongs to a snapshot: it has the same number, and speaks of pull requests
/// of the snapshot alone, of each with the head commit that the snapshot has.
pub open spec fn belongs_to(ci: CiPayload, snapshot: PollPayload) -> bool {
    &&& ci.generation == snapshot.generation
    &&& forall|id: PrIdView| #[trigger]
        ci.statuses@.contains_key(id) ==> has_key(pr_entries(snapshot.prs), id)
            && snapshot.head_shas@.contains_key(id) && ci.statuses@[id].head_sha@
            == snapshot.head_shas@[id]@
}

proof fn lemma_status_has_answer(answers: Seq<CiAnswer>, id: PrIdView)
    requires
        statuses_in(answers).contains_key(id),
    ensures
        exists|k: int|
            0 <= k < answers.len() && (#[trigger] answers[k]).id@ == id && answers[k].sha
                == statuses_in(answers)[id].head_sha && answers[k].status == statuses_in(
                answers,
            )[id].status,
    decreases answers.len(),
{
    let rest = answers.drop_last();
    if answers.last().id@ != id {
        lemma_status_has_answer(rest, id);
        let k = choose|k: int|
            0 <= k < rest.len() && (#[trigger] rest[k]).id@ == id && rest[k].sha == statuses_in(
                rest,
            )[id].head_sha && rest[k].status == statuses_in(rest)[id].status;
        assert(answers[k] == rest[k]);
    } else {
        assert(answers[answers.len() - 1].id@ == id);
    }
}

/// Whether every job asks about a pull request of the snapshot, and about the head commit that the
/// snapshot has.
pub open spec fn ask_about(jobs: Seq<CiJob>, snapshot: PollPayload) -> bool {
    forall|i: int|
        #![trigger jobs[i]]
        0 <= i < jobs.len() ==> has_key(pr_entries(snapshot.prs), jobs[i].id@)
            && snapshot.head_shas@.contains_key(jobs[i].id@) && jobs[i].sha@
            == snapshot.head_shas@[jobs[i].id@]@
}

/// The jobs for the pull requests of a snapshot ask about the snapshot.
pub proof fn jobs_ask_about_the_snapshot(
    snapshot: PollPayload,
    owners: Map<PrIdView, usize>,
    token_count: usize,
    jobs: Seq<CiJob>,
)
    requires
        are_jobs(
            jobs,
            snapshot.head_shas@,
            owners,
            key_set(pr_entries(snapshot.prs)),
            token_count,
        ),
    ensures
        ask_about(jobs, snapshot),
{
    assert forall|i: int|
        #![trigger jobs[i]]
        0 <= i < jobs.len() implies has_key(pr_entries(snapshot.prs), jobs[i].id@) by {
        assert(key_set(pr_entries(snapshot.prs)).contains(jobs[i].id@));
    }
}

/// The answers to the jobs of a snapshot, under its number, belong to the snapshot.
pub proof fn answers_belong_to_the_snapshot(
    snapshot: PollPayload,
    jobs: Seq<CiJob>,
    answers: Seq<CiAnswer>,
    ci: CiPayload,
)
    requires
        ask_about(jobs, snapshot),
        answer_jobs(answers, jobs),
        ci.generation == snapshot.generation,
        ci.statuses@ == statuses_in(answers),
    ensures
        belongs_to(ci, snapshot),
{
    assert forall|id: PrIdView| #[trigger] ci.statuses@.contains_key(id) implies has_key(
        pr_entries(snapshot.prs),
        id,
    ) && snapshot.head_shas@.contains_key(id) && ci.statuses@[id].head_sha@
        == snapshot.head_shas@[id]@ by {
        lemma_status_has_answer(answers, id);
        let k = choose|k: int|
            0 <= k < answers.len() && (#[trigger] answers[k]).id@ == id && answers[k].sha
                == statuses_in(answers)[id].head_sha && answers[k].status == statuses_in(
                answers,
            )[id].status;
        let i = choose|i: int|
            0 <= i < jobs.len() && (#[trigger] jobs[i]).id@ == answers[k].id@ && jobs[i].sha@
                == answers[k].sha@;
        assert(jobs[i].id@ == id);
    }
}

/// The status of a head commit is asked for exactly where the pull request is in the snapshot, its
/// head commit is known and not empty, and one of the tokens found it; then once, with that commit,
/// through that token.
pub proof fn every_known_commit_is_asked_for(
    jobs: Seq<CiJob>,
    shas: Map<PrIdView, String>,
    owners: Map<PrIdView, usize>,
    retained: Set<PrIdView>,
    token_count: usize,
    id: PrIdView,
)
    requires
        are_jobs(jobs, shas, owners, retained, token_count),
    ensures
        (exists|i: int| 0 <= i < jobs.len() && (#[trigger] jobs[i]).id@ == id)
            <==> retained.contains(id) && shas.contains_key(id) && shas[id]@.len() > 0
            && owners.contains_key(id) && owners[id] < token_count,
        forall|i: int|
            0 <= i < jobs.len() && (#[trigger] jobs[i]).id@ == id ==> jobs[i].sha@ == shas[id]@
                && jobs[i].token == owners[id],
        forall|i: int, j: int|
            #![trigger jobs[i], jobs[j]]
            0 <= i < jobs.len() && 0 <= j < jobs.len() && jobs[i].id@ == id && jobs[j].id@ == id
                ==> i == j,
{
    if asks_for(id, shas, owners, retained, token_count) {
        let i = choose|i: int| 0 <= i < jobs.len() && (#[trigger] jobs[i]).id@ == id;
        assert(jobs[i].id@ == id);
    }
}

/// What the answers say is what the last one for each pull request says: a further answer sets the
/// status of its own pull request, and leaves that of every other as it is.
pub proof fn each_answer_sets_its_own_status(answers: Seq<CiAnswer>, answer: CiAnswer, id: PrIdView)
    ensures
        statuses_in(Seq::empty()).dom() == Set::<PrIdView>::empty(),
        statuses_in(answers.push(answer)).contains_key(answer.id@),
        statuses_in(answers.push(answer))[answer.id@].head_sha == answer.sha,
        statuses_in(answers.push(answer))[answer.id@].status == answer.status,
        id != answer.id@ ==> (statuses_in(answers.push(answer)).contains_key(id) <==> statuses_in(
            answers,
        ).contains_key(id)),
        id != answer.id@ && statuses_in(answers).contains_key(id) ==> statuses_in(
            answers.push(answer),
        )[id] == statuses_in(answers)[id],
{
    assert(answers.push(answer).drop_last() =~= answers);
    assert(statuses_in(Seq::empty()).dom() =~= Set::empty());
}

} // verus!
