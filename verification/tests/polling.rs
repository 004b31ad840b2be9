//! The course of the polling loop.
use prtop::ci::CiAnswer;
use prtop::error::AppError;
use prtop::github::types::{
    ActorNode, CommentsConnection, PrNode, RepoNode, RepoOwnerNode, TotalCount,
};
use prtop::merge::RawPoll;
use prtop::poller::PollEvent;
use prtop::polling::{Action, LoopEvent, PollLoop, Stage};
use prtop::timestamp::Timestamp;
use prtop::types::{CiStatus, PrId};

const SECOND: u64 = 1_000_000_000;

fn found(number: u64, sha: &str) -> RawPoll {
    let mut raw = RawPoll::default();
    raw.author.push(PrNode {
        number,
        title: format!("PR #{number}"),
        url: format!("https://github.com/org/repo/pull/{number}"),
        state: "OPEN".to_string(),
        is_draft: false,
        created_at: "2024-01-01T00:00:00Z".to_string(),
        updated_at: "2024-01-01T00:00:00Z".to_string(),
        review_decision: None,
        head_ref_oid: sha.to_string(),
        author: Some(ActorNode {
            login: "user".to_string(),
        }),
        repository: RepoNode {
            name: "repo".to_string(),
            owner: RepoOwnerNode {
                login: "org".to_string(),
            },
        },
        comments: CommentsConnection {
            total_count: 0,
            nodes: vec![],
        },
        review_threads: TotalCount { total_count: 0 },
    });
    raw
}

fn id(number: u64) -> PrId {
    PrId {
        owner: "org".to_string(),
        repo: "repo".to_string(),
        number,
    }
}

/// Goes from the last outcome of a poll to the next wait, and checks what is done on the way.
fn play_round(polling: &mut PollLoop, number: u64, sha: &str, now: u64) -> u128 {
    let Action::Settle(merge) = polling.step(LoopEvent::AllPolled(now)) else {
        panic!("dismissals were to be settled")
    };
    let at = Timestamp { secs: 5, nanos: 0 };
    let Action::Send(PollEvent::Snapshot(snapshot)) =
        polling.step(LoopEvent::Settled { merge, at })
    else {
        panic!("the snapshot was to be sent")
    };
    assert_eq!(snapshot.generation, number);
    assert_eq!(snapshot.polled_at, at);
    assert_eq!(snapshot.prs.len(), 1);
    assert!(matches!(&polling.stage, Stage::Announcing(jobs) if jobs.len() == 1));
    let Action::Ask(jobs) = polling.step(LoopEvent::Sent(now)) else {
        panic!("the questions were to be asked")
    };
    assert_eq!(jobs.len(), 1);
    assert_eq!(jobs[0].id, id(1));
    assert_eq!(jobs[0].sha, sha);
    assert_eq!(jobs[0].token, 0);
    let answers = jobs
        .into_iter()
        .map(|job| CiAnswer {
            id: job.id,
            sha: job.sha,
            status: Some(CiStatus::Success),
        })
        .collect();
    let Action::Send(PollEvent::Ci(ci)) = polling.step(LoopEvent::Answered(answers)) else {
        panic!("the CI result was to be sent")
    };
    assert_eq!(ci.generation, number);
    assert_eq!(ci.statuses.len(), 1);
    let update = ci.statuses.get(&id(1)).unwrap();
    assert_eq!(update.status, Some(CiStatus::Success));
    assert_eq!(Some(&update.head_sha), snapshot.head_shas.get(&id(1)));
    assert!(snapshot.prs.contains_key(&id(1)));
    let Action::Wait(wake) = polling.step(LoopEvent::Sent(now)) else {
        panic!("the loop was to wait")
    };
    wake
}

#[test]
fn rounds_follow_one_another() {
    let mut polling = PollLoop::new(2, 60, 0);
    let Action::Poll(due) = polling.step(LoopEvent::Woke(0)) else {
        panic!("both tokens were to be polled")
    };
    assert_eq!(due, vec![0, 1]);
    let said = polling.step(LoopEvent::Polled {
        token: 1,
        outcome: Err(AppError::Auth("bad".to_string())),
        now: 1,
    });
    assert!(
        matches!(&said, Action::Say(text) if text == "GitHub token #2: Auth error: bad")
    );
    let listen = polling.step(LoopEvent::Polled {
        token: 0,
        outcome: Ok(found(1, "one")),
        now: 2,
    });
    assert!(matches!(listen, Action::Listen));
    let wake = play_round(&mut polling, 1, "one", 3);
    assert_eq!(wake, 2 + 60 * SECOND as u128);

    // Too early: there is nothing to do but wait on.
    let Action::Wait(again) = polling.step(LoopEvent::Woke(10)) else {
        panic!("no token was due")
    };
    assert_eq!(again, wake);

    let Action::Poll(due) = polling.step(LoopEvent::Refreshed(20)) else {
        panic!("a refresh makes the first token due")
    };
    assert_eq!(due, vec![0]);
    polling.step(LoopEvent::Polled {
        token: 0,
        outcome: Ok(found(1, "two")),
        now: 21,
    });
    play_round(&mut polling, 2, "two", 22);
    assert!(matches!(polling.stage, Stage::Waiting));
}

#[test]
fn nothing_is_sent_without_a_stored_result() {
    let mut polling = PollLoop::new(1, 60, 0);
    assert!(matches!(polling.step(LoopEvent::Woke(0)), Action::Poll(_)));
    let said = polling.step(LoopEvent::Polled {
        token: 0,
        outcome: Err(AppError::GraphQl("down".to_string())),
        now: 0,
    });
    assert!(matches!(said, Action::Say(_)));
    let Action::Wait(wake) = polling.step(LoopEvent::AllPolled(0)) else {
        panic!("there was nothing to send")
    };
    assert_eq!(wake, 2 * SECOND as u128);
}

#[test]
fn polling_loop_stops_on_cancel() {
    let mut polling = PollLoop::new(1, 3600, 0);
    polling.step(LoopEvent::Woke(0));
    polling.step(LoopEvent::Polled {
        token: 0,
        outcome: Ok(RawPoll::default()),
        now: 0,
    });
    let Action::Settle(merge) = polling.step(LoopEvent::AllPolled(0)) else {
        panic!("dismissals were to be settled")
    };
    let at = Timestamp::default();
    let sent = polling.step(LoopEvent::Settled { merge, at });
    assert!(
        matches!(&sent, Action::Send(PollEvent::Snapshot(s)) if s.prs.is_empty())
    );
    polling.step(LoopEvent::Sent(0));
    polling.step(LoopEvent::Answered(vec![]));
    assert!(matches!(polling.step(LoopEvent::Sent(0)), Action::Wait(_)));
    assert!(matches!(polling.step(LoopEvent::Cancelled), Action::Stop));
    assert!(matches!(polling.stage, Stage::Stopped));
}
