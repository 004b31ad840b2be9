//! The course of the polling loop: what is to be done next, after each thing that came of what was
//! done before.
use crate::ci::{
    answer_jobs, answers_belong_to_the_snapshot, are_jobs, ask_about, belongs_to, ci_payload,
    jobs_ask_about_the_snapshot, statuses_in, CiAnswer, CiJob,
};
use crate::error::AppError;
use crate::merge::{CacheMerge, RawPoll};
use crate::poller::{
    after_poll, are_refreshed, cached, is_due_list, is_merge_of, is_wake, last_success_is_merged,
    next_generation, said_of, CiPayload, PollEvent, Poller, TokenState,
};
use crate::pr_map::{key_set, pr_entries};
use crate::timestamp::Timestamp;
use vstd::prelude::*;

verus! {

/// How far a round has come.
#[derive(Debug)]
pub enum Stage {
    /// Nothing is to be done before a token is due.
    Waiting,
    /// Tokens are being polled.
    Polling,
    /// The dismissed mentions are being taken out.
    Settling,
    /// The snapshot is being sent; these questions follow it.
    Announcing(Vec<CiJob>),
    /// The questions about head commits are being asked.
    Asking,
    /// The CI result is being sent.
    Reporting,
    /// The loop has ended.
    Stopped,
}

/// What came of the last action. Times are in nanoseconds on the clock of the poller.
pub enum LoopEvent {
    /// The time to wait for has come.
    Woke(u64),
    /// A refresh is asked for.
    Refreshed(u64),
    /// The loop is to end.
    Cancelled,
    /// A token was polled.
    Polled { token: usize, outcome: Result<RawPoll, AppError>, now: u64 },
    /// There are no more outcomes.
    AllPolled(u64),
    /// The dismissed mentions are out.
    Settled { merge: CacheMerge, at: Timestamp },
    /// The event was sent.
    Sent(u64),
    /// The questions were asked.
    Answered(Vec<CiAnswer>),
}

/// What is to be done next.
pub enum Action {
    /// Poll these tokens.
    Poll(Vec<usize>),
    /// Tell the user, and take the next outcome.
    Say(String),
    /// Take the next outcome.
    Listen,
    /// Take the dismissed mentions out.
    Settle(CacheMerge),
    /// Send an event.
    Send(PollEvent),
    /// Ask these questions.
    Ask(Vec<CiJob>),
    /// Wait until the given time, a refresh or the end.
    Wait(u128),
    /// End the loop.
    Stop,
}

/// The polling loop between two actions.
#[derive(Debug)]
pub struct PollLoop {
    pub poller: Poller,
    pub stage: Stage,
}

pub open spec fn some_due(tokens: Seq<TokenState>, now: u64) -> bool {
    exists|i: int| 0 <= i < tokens.len() && (#[trigger] tokens[i]).due_at(now)
}

/// Whether the loop waits until a token is due.
pub open spec fn rests(poller: Poller, now: u64, action: Action, stage: Stage) -> bool {
    &&& action matches Action::Wait(at)
    &&& is_wake(at, poller.tokens@, now, poller.interval_secs)
    &&& stage is Waiting
}

/// Whether the loop polls the tokens that are due, or waits where none is.
pub open spec fn looks(poller: Poller, now: u64, action: Action, stage: Stage) -> bool {
    if some_due(poller.tokens@, now) {
        &&& action matches Action::Poll(due)
        &&& is_due_list(due@, poller.tokens@, now)
        &&& stage is Polling
    } else {
        rests(poller, now, action, stage)
    }
}

/// Whether the loop goes on with `action` and is then `after`, where `event` came of its last action.
pub open spec fn steps(
    before: PollLoop,
    event: LoopEvent,
    action: Action,
    after: PollLoop,
) -> bool {
    match event {
        LoopEvent::Woke(now) => {
            &&& after.poller == before.poller
            &&& looks(after.poller, now, action, after.stage)
        },
        LoopEvent::Refreshed(now) => {
            &&& are_refreshed(before.poller.tokens@, after.poller.tokens@, now)
            &&& after.poller.interval_secs == before.poller.interval_secs
            &&& after.poller.generation == before.poller.generation
            &&& looks(after.poller, now, action, after.stage)
        },
        LoopEvent::Cancelled => {
            &&& after.poller == before.poller
            &&& action is Stop
            &&& after.stage is Stopped
        },
        LoopEvent::Polled { token, outcome, now } => {
            let state = before.poller.tokens@[token as int];
            &&& after.poller.tokens@ == before.poller.tokens@.update(
                token as int,
                after_poll(state, outcome, now, before.poller.interval_secs),
            )
            &&& after.poller.interval_secs == before.poller.interval_secs
            &&& after.poller.generation == before.poller.generation
            &&& after.stage is Polling
            &&& match said_of(state, token as int, outcome) {
                Some(text) => action matches Action::Say(said) && said@ == text,
                None => action is Listen,
            }
        },
        LoopEvent::AllPolled(now) => {
            &&& after.poller == before.poller
            &&& if cached(before.poller.tokens@).len() > 0 {
                &&& action matches Action::Settle(merge)
                &&& is_merge_of(merge, before.poller.tokens@)
                &&& after.stage is Settling
            } else {
                rests(before.poller, now, action, after.stage)
            }
        },
        LoopEvent::Settled { merge, at } => {
            &&& after.poller.tokens == before.poller.tokens
            &&& after.poller.interval_secs == before.poller.interval_secs
            &&& after.poller.generation == next_generation(before.poller.generation)
            &&& action matches Action::Send(PollEvent::Snapshot(snapshot))
            &&& snapshot.generation == after.poller.generation
            &&& snapshot.prs == merge.prs
            &&& snapshot.head_shas == merge.shas
            &&& snapshot.polled_at == at
            &&& after.stage matches Stage::Announcing(jobs)
            &&& are_jobs(
                jobs@,
                merge.shas@,
                merge.owners@,
                key_set(pr_entries(merge.prs)),
                before.poller.tokens.len(),
            )
        },
        LoopEvent::Sent(now) => {
            &&& after.poller == before.poller
            &&& match before.stage {
                Stage::Announcing(jobs) => {
                    &&& action matches Action::Ask(asked)
                    &&& asked == jobs
                    &&& after.stage is Asking
                },
                _ => rests(before.poller, now, action, after.stage),
            }
        },
        LoopEvent::Answered(answers) => {
            &&& after.poller == before.poller
            &&& action matches Action::Send(PollEvent::Ci(ci))
            &&& ci.generation == before.poller.generation
            &&& ci.statuses.wf()
            &&& ci.statuses@ == statuses_in(answers@)
            &&& after.stage is Reporting
        },
    }
}

impl PollLoop {
    pub open spec fn wf(&self) -> bool {
        self.poller.wf()
    }

    /// Whether the event can come of the last action.
    pub open spec fn expects(&self, event: LoopEvent) -> bool {
        match event {
            LoopEvent::Woke(_) => self.stage is Waiting,
            LoopEvent::Refreshed(_) => self.stage is Waiting,
            LoopEvent::Cancelled => self.stage is Waiting,
            LoopEvent::Polled { token, outcome, now } => {
                &&& self.stage is Polling
                &&& token < self.poller.tokens@.len()
                &&& outcome matches Ok(raw) ==> raw.wf()
            },
            LoopEvent::AllPolled(_) => self.stage is Polling,
            LoopEvent::Settled { merge, at } => {
                &&& self.stage is Settling
                &&& merge.shas.wf()
                &&& merge.owners.wf()
            },
            LoopEvent::Sent(_) => self.stage is Announcing || self.stage is Reporting,
            LoopEvent::Answered(_) => self.stage is Asking,
        }
    }

    /// A loop over `count` tokens, all of which are due.
    pub fn new(count: usize, interval_secs: u64, now: u64) -> (r: PollLoop)
        ensures
            r.wf(),
            r.stage is Waiting,
            r.poller.interval_secs == interval_secs,
            r.poller.generation == 0,
            r.poller.tokens@.len() == count,
            forall|i: int|
                0 <= i < count ==> #[trigger] r.poller.tokens@[i] == (TokenState {
                    cache: None,
                    next_poll: now as u128,
                    backoff_secs: 0,
                    retrying: false,
                    disabled: false,
                }),
    {
        PollLoop { poller: Poller::new(count, interval_secs, now), stage: Stage::Waiting }
    }

    fn rest(&mut self, now: u64) -> (r: Action)
        ensures
            final(self).poller == old(self).poller,
            rests(old(self).poller, now, r, final(self).stage),
    {
        self.stage = Stage::Waiting;
        Action::Wait(self.poller.next_wake(now))
    }

    fn look(&mut self, now: u64) -> (r: Action)
        ensures
            final(self).poller == old(self).poller,
            looks(old(self).poller, now, r, final(self).stage),
    {
        let due = self.poller.due(now);
        let ghost tokens = self.poller.tokens@;
        if due.len() == 0 {
            assert(tokens.len() == self.poller.tokens.len());
            assert forall|i: int| 0 <= i < tokens.len() implies !(#[trigger] tokens[i]).due_at(
                now,
            ) by {
                assert(!due@.contains(i as usize));
            }
            self.rest(now)
        } else {
            assert(due@.contains(due@[0]));
            assert(tokens[due@[0] as int].due_at(now));
            self.stage = Stage::Polling;
            Action::Poll(due)
        }
    }

    /// What is to be done next, where `event` came of the last action.
    pub fn step(&mut self, event: LoopEvent) -> (r: Action)
        requires
            old(self).wf(),
            old(self).expects(event),
        ensures
            final(self).wf(),
            steps(*old(self), event, r, *final(self)),
    {
        match event {
            LoopEvent::Woke(now) => self.look(now),
            LoopEvent::Refreshed(now) => {
                self.poller.refresh(now);
                self.look(now)
            },
            LoopEvent::Cancelled => {
                self.stage = Stage::Stopped;
                Action::Stop
            },
            LoopEvent::Polled { token, outcome, now } => match self.poller.record(
                token,
                outcome,
                now,
            ) {
                Some(text) => Action::Say(text),
                None => Action::Listen,
            },
            LoopEvent::AllPolled(now) => match self.poller.merged() {
                Some(merge) => {
                    self.stage = Stage::Settling;
                    Action::Settle(merge)
                },
                None => self.rest(now),
            },
            LoopEvent::Settled { merge, at } => {
                let (snapshot, jobs) = self.poller.round(merge, at);
                self.stage = Stage::Announcing(jobs);
                Action::Send(PollEvent::Snapshot(snapshot))
            },
            LoopEvent::Sent(now) => {
                let mut stage = Stage::Asking;
                std::mem::swap(&mut stage, &mut self.stage);
                match stage {
                    Stage::Announcing(jobs) => Action::Ask(jobs),
                    _ => self.rest(now),
                }
            },
            LoopEvent::Answered(answers) => {
                self.stage = Stage::Reporting;
                Action::Send(PollEvent::Ci(ci_payload(self.poller.generation, &answers)))
            },
        }
    }
}

// ---------------------------------------------------------------------------
// What holds of every run

/// Whether the loop takes its step at `i`, and the questions are answered that were asked.
pub open spec fn is_step_at(
    states: Seq<PollLoop>,
    events: Seq<LoopEvent>,
    actions: Seq<Action>,
    i: int,
) -> bool {
    &&& states[i].expects(events[i])
    &&& steps(states[i], events[i], actions[i], states[i + 1])
    &&& events[i] matches LoopEvent::Answered(answers) ==> i > 0 && (
    actions[i - 1] matches Action::Ask(jobs) && answer_jobs(answers@, jobs@))
}

/// Whether the loop can run like this from its start: `states[i]` is before the event `events[i]`,
/// to which it answers with `actions[i]`.
pub open spec fn is_run(
    states: Seq<PollLoop>,
    events: Seq<LoopEvent>,
    actions: Seq<Action>,
) -> bool {
    &&& states.len() == events.len() + 1
    &&& actions.len() == events.len()
    &&& states[0].stage is Waiting
    &&& states[0].poller.generation == 0
    &&& forall|i: int| 0 <= i < events.len() ==> #[trigger] is_step_at(states, events, actions, i)
}

/// What the actions send.
pub open spec fn sent(actions: Seq<Action>) -> Seq<PollEvent>
    decreases actions.len(),
{
    if actions.len() == 0 {
        Seq::empty()
    } else {
        let before = sent(actions.drop_last());
        match actions.last() {
            Action::Send(event) => before.push(event),
            _ => before,
        }
    }
}

/// The number that an event has.
pub open spec fn number_of(event: PollEvent) -> u64 {
    match event {
        PollEvent::Snapshot(payload) => payload.generation,
        PollEvent::Ci(payload) => payload.generation,
    }
}

/// Whether the round at `k` is a snapshot with the number `k + 1` and the CI result that belongs to
/// it.
pub open spec fn is_round_at(events: Seq<PollEvent>, k: int) -> bool {
    &&& events[2 * k] matches PollEvent::Snapshot(snapshot)
    &&& events[2 * k + 1] matches PollEvent::Ci(ci)
    &&& snapshot.generation == k + 1
    &&& belongs_to(ci, snapshot)
}

/// Whether the events are those of so many rounds: in each a snapshot and then the CI result that
/// belongs to it, numbered from one on.
pub open spec fn are_rounds(events: Seq<PollEvent>, rounds: int) -> bool {
    &&& events.len() == 2 * rounds
    &&& forall|k: int| 0 <= k < rounds ==> #[trigger] is_round_at(events, k)
}

/// Whether the events are those of so many rounds, the last of which has only its snapshot so far.
pub open spec fn are_rounds_and_a_snapshot(events: Seq<PollEvent>, rounds: int) -> bool {
    &&& events.len() > 0
    &&& are_rounds(events.drop_last(), rounds - 1)
    &&& events.last() matches PollEvent::Snapshot(snapshot)
    &&& snapshot.generation == rounds
}

/// Whether the loop at the given stage has sent the snapshot of a round, but not its CI result.
pub open spec fn owes_ci(stage: Stage) -> bool {
    stage is Announcing || stage is Asking
}

proof fn lemma_shorter_run(
    states: Seq<PollLoop>,
    events: Seq<LoopEvent>,
    actions: Seq<Action>,
)
    requires
        is_run(states, events, actions),
        events.len() > 0,
    ensures
        is_run(states.drop_last(), events.drop_last(), actions.drop_last()),
        is_step_at(states, events, actions, events.len() - 1),
        states.drop_last().last() == states[events.len() - 1],
{
    assert forall|i: int| 0 <= i < events.len() - 1 implies #[trigger] is_step_at(
        states.drop_last(),
        events.drop_last(),
        actions.drop_last(),
        i,
    ) by {
        assert(is_step_at(states, events, actions, i));
    }
    assert(is_step_at(states, events, actions, events.len() - 1));
}

proof fn lemma_round_follows(events: Seq<PollEvent>, rounds: int, ci: CiPayload)
    requires
        are_rounds_and_a_snapshot(events, rounds),
        rounds >= 1,
        belongs_to(ci, events.last()->Snapshot_0),
    ensures
        are_rounds(events.push(PollEvent::Ci(ci)), rounds),
{
    let more = events.push(PollEvent::Ci(ci));
    let before = events.drop_last();
    assert forall|k: int| 0 <= k < rounds implies #[trigger] is_round_at(more, k) by {
        if k < rounds - 1 {
            assert(is_round_at(before, k));
            assert(more[2 * k] == before[2 * k] && more[2 * k + 1] == before[2 * k + 1]);
        }
    }
}

/// Whether the questions that are still to be asked, or were just asked, are about the last
/// snapshot.
spec fn asks_about_last(stage: Stage, actions: Seq<Action>) -> bool {
    match stage {
        Stage::Announcing(jobs) => ask_about(jobs@, sent(actions).last()->Snapshot_0),
        Stage::Asking => actions.len() > 0 && (actions.last() matches Action::Ask(jobs)
            && ask_about(jobs@, sent(actions).last()->Snapshot_0)),
        _ => true,
    }
}

proof fn lemma_run_sends_rounds(
    states: Seq<PollLoop>,
    events: Seq<LoopEvent>,
    actions: Seq<Action>,
)
    requires
        is_run(states, events, actions),
        actions.len() < u64::MAX,
    ensures
        states.last().poller.generation <= actions.len(),
        if owes_ci(states.last().stage) {
            states.last().poller.generation >= 1 && are_rounds_and_a_snapshot(
                sent(actions),
                states.last().poller.generation as int,
            )
        } else {
            are_rounds(sent(actions), states.last().poller.generation as int)
        },
        asks_about_last(states.last().stage, actions),
    decreases events.len(),
{
    if events.len() > 0 {
        lemma_shorter_run(states, events, actions);
        let i = events.len() - 1;
        let before = states[i];
        let after = states[i + 1];
        let earlier = actions.drop_last();
        lemma_run_sends_rounds(states.drop_last(), events.drop_last(), earlier);
        assert(states.last() == after);
        assert(is_step_at(states, events, actions, i));
        assert(actions.last() == actions[i]);
        match events[i] {
            LoopEvent::Settled { merge, at } => {
                let snapshot = actions[i]->Send_0->Snapshot_0;
                let jobs = after.stage->Announcing_0;
                jobs_ask_about_the_snapshot(
                    snapshot,
                    merge.owners@,
                    before.poller.tokens.len(),
                    jobs@,
                );
                assert(sent(actions) == sent(earlier).push(PollEvent::Snapshot(snapshot)));
                assert(sent(actions).drop_last() =~= sent(earlier));
                assert(sent(actions).last() == PollEvent::Snapshot(snapshot));
            },
            LoopEvent::Answered(answers) => {
                let ci = actions[i]->Send_0->Ci_0;
                assert(earlier.last() == actions[i - 1]);
                let jobs = actions[i - 1]->Ask_0;
                let snapshot = sent(earlier).last()->Snapshot_0;
                answers_belong_to_the_snapshot(snapshot, jobs@, answers@, ci);
                lemma_round_follows(sent(earlier), before.poller.generation as int, ci);
            },
            _ => {
                assert(sent(actions) == sent(earlier));
            },
        }
    }
}

/// Whatever comes of its actions, the loop sends rounds: a snapshot, and after it the CI result that
/// belongs to it, with the same number, which goes up by one from one on. Numbers would start anew
/// only after the greatest one.
pub proof fn a_run_sends_rounds(
    states: Seq<PollLoop>,
    events: Seq<LoopEvent>,
    actions: Seq<Action>,
)
    requires
        is_run(states, events, actions),
        actions.len() < u64::MAX,
    ensures
        owes_ci(states.last().stage) ==> are_rounds_and_a_snapshot(
            sent(actions),
            states.last().poller.generation as int,
        ),
        !owes_ci(states.last().stage) ==> are_rounds(
            sent(actions),
            states.last().poller.generation as int,
        ),
{
    lemma_run_sends_rounds(states, events, actions);
}

/// The numbers of what is sent never fall, and a snapshot has a greater one than all before it: no
/// CI result of an older snapshot follows a newer one.
pub proof fn numbers_never_fall(
    states: Seq<PollLoop>,
    events: Seq<LoopEvent>,
    actions: Seq<Action>,
    i: int,
    j: int,
)
    requires
        is_run(states, events, actions),
        actions.len() < u64::MAX,
        0 <= i < j < sent(actions).len(),
    ensures
        number_of(sent(actions)[i]) <= number_of(sent(actions)[j]),
        sent(actions)[j] is Snapshot ==> number_of(sent(actions)[i]) < number_of(sent(actions)[j]),
{
    lemma_run_sends_rounds(states, events, actions);
    let all = sent(actions);
    let whole = if owes_ci(states.last().stage) {
        all.drop_last()
    } else {
        all
    };
    assert(whole[i] == all[i]);
    assert(is_round_at(whole, i / 2));
    assert(i == 2 * (i / 2) || i == 2 * (i / 2) + 1);
    if j < whole.len() {
        assert(whole[j] == all[j]);
        assert(is_round_at(whole, j / 2));
        assert(j == 2 * (j / 2) || j == 2 * (j / 2) + 1);
    }
}

/// After a poll the loop waits where no token has a stored result. Where one has, the dismissed
/// mentions are taken out, the snapshot is sent, the questions are asked, the CI result is sent, and
/// then the loop waits: nothing comes between.
pub proof fn a_stored_result_leads_to_a_round(
    states: Seq<PollLoop>,
    events: Seq<LoopEvent>,
    actions: Seq<Action>,
    i: int,
)
    requires
        is_run(states, events, actions),
        0 <= i < events.len(),
        events[i] is AllPolled,
    ensures
        cached(states[i].poller.tokens@).len() == 0 ==> actions[i] is Wait,
        cached(states[i].poller.tokens@).len() > 0 ==> {
            &&& actions[i] is Settle
            &&& i + 1 < actions.len() ==> actions[i + 1] is Send && actions[i + 1]->Send_0 is Snapshot
            &&& i + 2 < actions.len() ==> actions[i + 2] is Ask
            &&& i + 3 < actions.len() ==> actions[i + 3] is Send && actions[i + 3]->Send_0 is Ci
            &&& i + 4 < actions.len() ==> actions[i + 4] is Wait
        },
{
    assert(is_step_at(states, events, actions, i));
    if cached(states[i].poller.tokens@).len() > 0 {
        if i + 1 < actions.len() {
            assert(is_step_at(states, events, actions, i + 1));
        }
        if i + 2 < actions.len() {
            assert(is_step_at(states, events, actions, i + 2));
        }
        if i + 3 < actions.len() {
            assert(is_step_at(states, events, actions, i + 3));
        }
        if i + 4 < actions.len() {
            assert(is_step_at(states, events, actions, i + 4));
        }
    }
}

spec fn some_result(tokens: Seq<TokenState>) -> bool {
    exists|i: int| 0 <= i < tokens.len() && (#[trigger] tokens[i]).cache is Some
}

proof fn lemma_cached(tokens: Seq<TokenState>)
    requires
        tokens.len() <= usize::MAX,
    ensures
        cached(tokens).len() > 0 <==> some_result(tokens),
    decreases tokens.len(),
{
    if some_result(tokens) {
        let i = choose|i: int| 0 <= i < tokens.len() && (#[trigger] tokens[i]).cache is Some;
        last_success_is_merged(tokens, i);
    }
    if tokens.len() > 0 {
        let rest = tokens.drop_last();
        lemma_cached(rest);
        if cached(tokens).len() > 0 {
            if tokens.last().cache is Some {
                assert(tokens[tokens.len() - 1].cache is Some);
            } else {
                let i = choose|i: int| 0 <= i < rest.len() && (#[trigger] rest[i]).cache is Some;
                assert(tokens[i].cache is Some);
            }
        }
    }
}

proof fn lemma_results_stay(before: PollLoop, event: LoopEvent, action: Action, after: PollLoop)
    requires
        before.expects(event),
        steps(before, event, action, after),
        some_result(before.poller.tokens@),
    ensures
        some_result(after.poller.tokens@),
{
    let old_tokens = before.poller.tokens@;
    let new_tokens = after.poller.tokens@;
    let i = choose|i: int| 0 <= i < old_tokens.len() && (#[trigger] old_tokens[i]).cache is Some;
    assert(new_tokens[i].cache is Some);
}

/// As long as no token has a stored result, nothing is sent.
pub proof fn nothing_is_sent_without_a_result(
    states: Seq<PollLoop>,
    events: Seq<LoopEvent>,
    actions: Seq<Action>,
)
    requires
        is_run(states, events, actions),
        cached(states.last().poller.tokens@).len() == 0,
    ensures
        sent(actions) == Seq::<PollEvent>::empty(),
        states.last().stage is Waiting || states.last().stage is Polling || states.last().stage
            is Stopped,
    decreases events.len(),
{
    if events.len() > 0 {
        lemma_shorter_run(states, events, actions);
        let i = events.len() - 1;
        let before = states[i];
        let after = states[i + 1];
        assert(is_step_at(states, events, actions, i));
        assert(before.poller.tokens@.len() == before.poller.tokens.len());
        assert(after.poller.tokens@.len() == after.poller.tokens.len());
        lemma_cached(before.poller.tokens@);
        lemma_cached(after.poller.tokens@);
        if some_result(before.poller.tokens@) {
            lemma_results_stay(before, events[i], actions[i], after);
        }
        nothing_is_sent_without_a_result(
            states.drop_last(),
            events.drop_last(),
            actions.drop_last(),
        );
        assert(actions.last() == actions[i]);
    }
}

/// While the loop waits it can be cancelled, and then it ends: nothing comes after it. Nothing else
/// ends it.
pub proof fn a_cancel_ends_the_loop(
    states: Seq<PollLoop>,
    events: Seq<LoopEvent>,
    actions: Seq<Action>,
    i: int,
)
    requires
        is_run(states, events, actions),
        0 <= i < events.len(),
    ensures
        states[i].stage is Waiting ==> states[i].expects(LoopEvent::Cancelled),
        actions[i] is Stop <==> events[i] is Cancelled,
        actions[i] is Wait <==> states[i + 1].stage is Waiting,
        events[i] is Cancelled ==> i == events.len() - 1,
{
    assert(is_step_at(states, events, actions, i));
    if events[i] is Cancelled && i + 1 < events.len() {
        assert(is_step_at(states, events, actions, i + 1));
    }
}

/// When its time has come, or a refresh is asked for, the loop polls exactly the tokens that are not
/// refused and whose time has come, in order. Where there is none it waits, until the first of those
/// that are not refused is due.
pub proof fn tokens_that_are_due_are_polled(
    before: PollLoop,
    event: LoopEvent,
    action: Action,
    after: PollLoop,
    now: u64,
)
    requires
        steps(before, event, action, after),
        event == LoopEvent::Woke(now) || event == LoopEvent::Refreshed(now),
    ensures
        action matches Action::Poll(due) ==> due@.len() > 0 && forall|i: usize| #[trigger]
            due@.contains(i) <==> i < after.poller.tokens@.len()
                && !after.poller.tokens@[i as int].disabled
                && after.poller.tokens@[i as int].next_poll <= now,
        action is Poll <==> exists|i: int|
            0 <= i < after.poller.tokens@.len() && !(#[trigger] after.poller.tokens@[i]).disabled
                && after.poller.tokens@[i].next_poll <= now,
        action is Poll || action is Wait,
        action matches Action::Wait(at) ==> forall|i: int|
            0 <= i < after.poller.tokens@.len() && !(#[trigger] after.poller.tokens@[i]).disabled
                ==> at <= after.poller.tokens@[i].next_poll,
        event is Woke ==> after.poller == before.poller,
{
    let tokens = after.poller.tokens@;
    assert(tokens.len() == after.poller.tokens.len());
    if some_due(tokens, now) {
        let i = choose|i: int| 0 <= i < tokens.len() && (#[trigger] tokens[i]).due_at(now);
        assert(!tokens[i].disabled && tokens[i].next_poll <= now);
        assert(action->Poll_0@.contains(i as usize));
    } else {
        assert forall|i: int|
            0 <= i < tokens.len() && !(#[trigger] tokens[i]).disabled implies tokens[i].next_poll
            > now by {
            assert(!tokens[i].due_at(now));
        }
    }
}

/// The outcome of a poll changes what is known of its own token alone, and is told where it is a
/// failure.
pub proof fn outcomes_change_their_own_token(
    before: PollLoop,
    token: usize,
    outcome: Result<RawPoll, AppError>,
    now: u64,
    action: Action,
    after: PollLoop,
    i: int,
)
    requires
        before.expects(LoopEvent::Polled { token, outcome, now }),
        steps(before, LoopEvent::Polled { token, outcome, now }, action, after),
        0 <= i < before.poller.tokens@.len(),
    ensures
        after.poller.tokens@.len() == before.poller.tokens@.len(),
        i != token ==> after.poller.tokens@[i] == before.poller.tokens@[i],
        after.poller.tokens@[token as int] == after_poll(
            before.poller.tokens@[token as int],
            outcome,
            now,
            before.poller.interval_secs,
        ),
        outcome is Ok <==> action is Listen,
        outcome is Err <==> action is Say,
        action matches Action::Say(text) ==> said_of(
            before.poller.tokens@[token as int],
            token as int,
            outcome,
        ) == Some(text@),
        after.poller.generation == before.poller.generation,
        after.poller.interval_secs == before.poller.interval_secs,
{
}

/// A round goes from the outcomes to the merge of every stored result, from the merge to a snapshot
/// of it under the next number, from the snapshot to the questions, and from the answers to a CI
/// result under the same number. Where nothing is stored, and once the CI result is sent, the loop
/// waits.
pub proof fn a_round_goes_step_by_step(
    before: PollLoop,
    event: LoopEvent,
    action: Action,
    after: PollLoop,
)
    requires
        steps(before, event, action, after),
    ensures
        event is AllPolled ==> {
            let stored = exists|i: int|
                0 <= i < before.poller.tokens@.len() && (#[trigger] before.poller.tokens@[i]).cache
                    is Some;
            &&& stored ==> action is Settle && after.stage is Settling && is_merge_of(
                action->Settle_0,
                before.poller.tokens@,
            )
            &&& !stored ==> action is Wait && after.stage is Waiting
        },
        event matches LoopEvent::Settled { merge, at } ==> {
            &&& action matches Action::Send(PollEvent::Snapshot(snapshot))
            &&& snapshot.prs == merge.prs
            &&& snapshot.head_shas == merge.shas
            &&& snapshot.polled_at == at
            &&& snapshot.generation == (before.poller.generation + 1) % (u64::MAX + 1)
            &&& after.poller.generation == snapshot.generation
            &&& after.stage is Announcing
        },
        event is Sent && before.stage is Announcing ==> action == Action::Ask(
            before.stage->Announcing_0,
        ) && after.stage is Asking,
        event is Sent && !(before.stage is Announcing) ==> action is Wait && after.stage is Waiting,
        event matches LoopEvent::Answered(answers) ==> {
            &&& action matches Action::Send(PollEvent::Ci(ci))
            &&& ci.generation == before.poller.generation
            &&& ci.statuses@ == statuses_in(answers@)
            &&& after.stage is Reporting
        },
        event is Cancelled ==> action is Stop && after.stage is Stopped,
        !(event is Settled) ==> after.poller.generation == before.poller.generation,
        !(event is Polled || event is Refreshed) ==> after.poller.tokens == before.poller.tokens,
        after.poller.interval_secs == before.poller.interval_secs,
{
    assert(before.poller.tokens@.len() == before.poller.tokens.len());
    lemma_cached(before.poller.tokens@);
}

} // verus!
