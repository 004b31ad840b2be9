//! Which notifications a change calls for.
use crate::config::{EventSet, NotifyEvent};
use crate::diff::{added_entries, ids_of, is_missing, is_update, updated_entries};
use crate::ids::{has_key, is_key_at, lemma_key_at, unique_keys, value_of, IdSet};
use crate::notify::{NoteView, Notification};
use crate::pr_map::{find_pr, pr_at, pr_count, pr_entries};
use crate::text::decimal;
use crate::types::{
    id_text, CiStatus, PrId, PrIdView, PrRole, PrState, PullRequest, ReviewDecision,
};
use indexmap::IndexMap;
use vstd::prelude::*;
use vstd::string::*;

verus! {

/// What a sequence of notifications stands for.
pub open spec fn note_views(notes: Seq<Notification>) -> Seq<NoteView> {
    notes.map_values(|note: Notification| note@)
}

/// The notification of the given title on a pull request: its body is `title (owner/repo#number)`.
pub open spec fn note_on(title: Seq<char>, entry: (PrId, PullRequest)) -> NoteView {
    NoteView { title, body: entry.1.title@ + seq![' ', '('] + id_text(entry.0@) + seq![')'] }
}

fn make_note(title: &str, id: &PrId, pr: &PullRequest) -> (r: Notification)
    ensures
        r@ == note_on(title@, (*id, *pr)),
{
    let mut body = pr.title.clone();
    body.push(' ');
    body.push('(');
    body.append(id.to_string().as_str());
    body.push(')');
    assert(body@ =~= note_on(title@, (*id, *pr)).body);
    Notification { title: title.to_owned(), body }
}

/// The notification on a pull request that is new to the list. The author gets none.
pub open spec fn added_notes(entry: (PrId, PullRequest), events: Set<NotifyEvent>) -> Seq<NoteView> {
    match entry.1.role {
        PrRole::ReviewRequested if events.contains(NotifyEvent::ReviewRequested) => seq![
            note_on("Review requested"@, entry),
        ],
        PrRole::Mentioned if events.contains(NotifyEvent::Mentioned) => seq![
            note_on("Mentioned in PR"@, entry),
        ],
        _ => Seq::empty(),
    }
}

/// Whether the author's open pull request was closed or merged.
pub open spec fn was_ended(before: PullRequest, after: PullRequest) -> bool {
    before.state is Open && !(after.state is Open) && after.role is Author
}

/// The notification on the end of a pull request, to its author.
pub open spec fn ended_notes(
    before: PullRequest,
    entry: (PrId, PullRequest),
    events: Set<NotifyEvent>,
) -> Seq<NoteView> {
    if !was_ended(before, entry.1) {
        Seq::empty()
    } else if entry.1.state is Merged {
        if events.contains(NotifyEvent::PrMerged) {
            seq![note_on("PR merged"@, entry)]
        } else {
            Seq::empty()
        }
    } else if events.contains(NotifyEvent::PrClosed) {
        seq![note_on("PR closed"@, entry)]
    } else {
        Seq::empty()
    }
}

pub open spec fn review_required(pr: PullRequest) -> bool {
    pr.review_decision == Some(ReviewDecision::ReviewRequired)
}

/// The notification that a review has become required.
pub open spec fn review_notes(
    before: PullRequest,
    entry: (PrId, PullRequest),
    events: Set<NotifyEvent>,
) -> Seq<NoteView> {
    if review_required(entry.1) && !review_required(before) && events.contains(
        NotifyEvent::ReReviewRequested,
    ) {
        seq![note_on("Re-review requested"@, entry)]
    } else {
        Seq::empty()
    }
}

/// The notifications on a pull request that was updated.
pub open spec fn update_notes(
    previous: Seq<(PrId, PullRequest)>,
    entry: (PrId, PullRequest),
    events: Set<NotifyEvent>,
) -> Seq<NoteView> {
    let before = value_of(previous, entry.0@);
    ended_notes(before, entry, events) + review_notes(before, entry, events)
}

/// Whether the author's pull request has comments that it did not have, the last of them by
/// somebody else.
pub open spec fn was_commented(
    previous: Seq<(PrId, PullRequest)>,
    entry: (PrId, PullRequest),
    username: Seq<char>,
) -> bool {
    &&& has_key(previous, entry.0@)
    &&& entry.1.total_comments > value_of(previous, entry.0@).total_comments
    &&& entry.1.role is Author
    &&& !(entry.1.last_commenter matches Some(login) && login@ == username)
}

/// The notification on new comments, to the author.
pub open spec fn comment_notes(
    previous: Seq<(PrId, PullRequest)>,
    entry: (PrId, PullRequest),
    events: Set<NotifyEvent>,
    username: Seq<char>,
) -> Seq<NoteView> {
    if was_commented(previous, entry, username) && events.contains(NotifyEvent::NewComment) {
        seq![note_on("New comment"@, entry)]
    } else {
        Seq::empty()
    }
}

/// Whether the checks came to an end.
pub open spec fn ci_ended(before: Option<CiStatus>, after: Option<CiStatus>) -> bool {
    &&& before matches Some(status) && status.in_progress()
    &&& after matches Some(status) && status.finished()
}

/// The notification on the end of the checks, to the author.
pub open spec fn ci_notes(
    before: Option<CiStatus>,
    entry: (PrId, PullRequest),
    events: Set<NotifyEvent>,
) -> Seq<NoteView> {
    if entry.1.role is Author && ci_ended(before, entry.1.ci_status) && events.contains(
        NotifyEvent::CiFinished,
    ) {
        if entry.1.ci_status == Some(CiStatus::Success) {
            seq![note_on("CI passed"@, entry)]
        } else {
            seq![note_on("CI failed"@, entry)]
        }
    } else {
        Seq::empty()
    }
}

/// The notification on the end of the checks of a pull request that was in the list before.
pub open spec fn polled_ci_notes(
    previous: Seq<(PrId, PullRequest)>,
    entry: (PrId, PullRequest),
    events: Set<NotifyEvent>,
) -> Seq<NoteView> {
    if has_key(previous, entry.0@) {
        ci_notes(value_of(previous, entry.0@).ci_status, entry, events)
    } else {
        Seq::empty()
    }
}

/// The notifications on the change from `previous` to `current`: on what is new, then on what was
/// updated, then on new comments, then on checks that came to an end.
pub open spec fn change_notes(
    previous: Seq<(PrId, PullRequest)>,
    current: Seq<(PrId, PullRequest)>,
    events: Set<NotifyEvent>,
    username: Seq<char>,
) -> Seq<NoteView> {
    added_entries(previous, current).flat_map(
        |entry: (PrId, PullRequest)| added_notes(entry, events),
    ) + updated_entries(previous, current).flat_map(
        |entry: (PrId, PullRequest)| update_notes(previous, entry, events),
    ) + current.flat_map(
        |entry: (PrId, PullRequest)| comment_notes(previous, entry, events, username),
    ) + current.flat_map(|entry: (PrId, PullRequest)| polled_ci_notes(previous, entry, events))
}

/// An entry that a filter keeps is an entry, and its key has its value.
pub proof fn lemma_filtered_entry(
    entries: Seq<(PrId, PullRequest)>,
    kept: spec_fn((PrId, PullRequest)) -> bool,
    k: int,
)
    requires
        unique_keys(entries),
        0 <= k < entries.filter(kept).len(),
    ensures
        kept(entries.filter(kept)[k]),
        has_key(entries, entries.filter(kept)[k].0@),
        value_of(entries, entries.filter(kept)[k].0@) == entries.filter(kept)[k].1,
{
    let entry = entries.filter(kept)[k];
    entries.lemma_filter_pred(kept, k);
    assert(entries.filter(kept).contains(entry));
    entries.lemma_filter_contains_rev(kept, entry);
    let i = choose|i: int| 0 <= i < entries.len() && entries[i] == entry;
    assert(is_key_at(entries, entry.0@, i));
    lemma_key_at(entries, entry.0@, i);
}

/// Adds the notifications on a pull request that is new to the list.
fn push_added(notes: &mut Vec<Notification>, id: &PrId, pr: &PullRequest, events: &EventSet)
    ensures
        note_views(final(notes)@) == note_views(old(notes)@) + added_notes((*id, *pr), events@),
{
    match pr.role {
        PrRole::ReviewRequested => {
            if events.contains(&NotifyEvent::ReviewRequested) {
                notes.push(make_note("Review requested", id, pr));
            }
        },
        PrRole::Mentioned => {
            if events.contains(&NotifyEvent::Mentioned) {
                notes.push(make_note("Mentioned in PR", id, pr));
            }
        },
        PrRole::Author => {},
    }
    assert(note_views(notes@) =~= note_views(old(notes)@) + added_notes((*id, *pr), events@));
}

fn is_review_required(pr: &PullRequest) -> (r: bool)
    ensures
        r == review_required(*pr),
{
    matches!(pr.review_decision, Some(ReviewDecision::ReviewRequired))
}

/// Adds the notifications on a pull request that was updated.
fn push_updated(
    notes: &mut Vec<Notification>,
    old_pr: &PullRequest,
    id: &PrId,
    pr: &PullRequest,
    events: &EventSet,
)
    ensures
        note_views(final(notes)@) == note_views(old(notes)@) + ended_notes(
            *old_pr,
            (*id, *pr),
            events@,
        ) + review_notes(*old_pr, (*id, *pr), events@),
{
    if old_pr.state == PrState::Open && pr.role == PrRole::Author {
        match pr.state {
            PrState::Merged => {
                if events.contains(&NotifyEvent::PrMerged) {
                    notes.push(make_note("PR merged", id, pr));
                }
            },
            PrState::Closed => {
                if events.contains(&NotifyEvent::PrClosed) {
                    notes.push(make_note("PR closed", id, pr));
                }
            },
            PrState::Open => {},
        }
    }
    assert(note_views(notes@) =~= note_views(old(notes)@) + ended_notes(
        *old_pr,
        (*id, *pr),
        events@,
    ));
    let ghost step = note_views(notes@);
    if is_review_required(pr) && !is_review_required(old_pr) && events.contains(
        &NotifyEvent::ReReviewRequested,
    ) {
        notes.push(make_note("Re-review requested", id, pr));
    }
    assert(note_views(notes@) =~= step + review_notes(*old_pr, (*id, *pr), events@));
}

/// Whether the author's pull request has comments that it did not have, the last of them by
/// somebody else.
fn has_new_comments(old_pr: &PullRequest, pr: &PullRequest, username: &str) -> (r: bool)
    ensures
        r == (pr.total_comments > old_pr.total_comments && pr.role is Author && !(
        pr.last_commenter matches Some(login) && login@ == username@)),
{
    let own = match &pr.last_commenter {
        Some(login) => crate::text::same_text(login.as_str(), username),
        None => false,
    };
    pr.total_comments > old_pr.total_comments && pr.role == PrRole::Author && !own
}

/// Adds the notification on the end of the checks.
pub fn push_ci(
    notes: &mut Vec<Notification>,
    before: &Option<CiStatus>,
    id: &PrId,
    pr: &PullRequest,
    events: &EventSet,
)
    ensures
        note_views(final(notes)@) == note_views(old(notes)@) + ci_notes(
            *before,
            (*id, *pr),
            events@,
        ),
{
    let was_running = match before {
        Some(status) => status.is_in_progress(),
        None => false,
    };
    let is_done = match &pr.ci_status {
        Some(status) => status.is_finished(),
        None => false,
    };
    if pr.role == PrRole::Author && was_running && is_done && events.contains(
        &NotifyEvent::CiFinished,
    ) {
        if matches!(pr.ci_status, Some(CiStatus::Success)) {
            notes.push(make_note("CI passed", id, pr));
        } else {
            notes.push(make_note("CI failed", id, pr));
        }
    }
    assert(note_views(notes@) =~= note_views(old(notes)@) + ci_notes(*before, (*id, *pr), events@));
}

/// The identities of the author's pull requests that have new comments.
pub open spec fn commented_ids(
    previous: Seq<(PrId, PullRequest)>,
    current: Seq<(PrId, PullRequest)>,
    username: Seq<char>,
) -> Set<PrIdView> {
    current.filter(|entry: (PrId, PullRequest)| was_commented(previous, entry, username)).map_values(
        |entry: (PrId, PullRequest)| entry.0@,
    ).to_set()
}

fn push_all_added(
    notes: &mut Vec<Notification>,
    previous: &IndexMap<PrId, PullRequest>,
    current: &IndexMap<PrId, PullRequest>,
    added: &Vec<PrId>,
    events: &EventSet,
)
    requires
        unique_keys(pr_entries(*current)),
        added@ == ids_of(added_entries(pr_entries(*previous), pr_entries(*current))),
    ensures
        note_views(final(notes)@) == note_views(old(notes)@) + added_entries(
            pr_entries(*previous),
            pr_entries(*current),
        ).flat_map(|entry: (PrId, PullRequest)| added_notes(entry, events@)),
{
    let ghost start = note_views(notes@);
    let ghost entries = pr_entries(*current);
    let ghost came = |entry: (PrId, PullRequest)| is_missing(entry, pr_entries(*previous));
    let ghost new = added_entries(pr_entries(*previous), entries);
    let ghost told = |entry: (PrId, PullRequest)| added_notes(entry, events@);
    assert(new.take(0).flat_map(told) =~= Seq::empty());
    for k in 0..added.len()
        invariant
            unique_keys(entries),
            entries == pr_entries(*current),
            came == |entry: (PrId, PullRequest)| is_missing(entry, pr_entries(*previous)),
            new == entries.filter(came),
            added@ == ids_of(new),
            told == |entry: (PrId, PullRequest)| added_notes(entry, events@),
            note_views(notes@) == start + new.take(k as int).flat_map(told),
    {
        proof {
            lemma_filtered_entry(entries, came, k as int);
            new.lemma_flat_map_take_append(told, k as int);
            assert(added@[k as int] == new[k as int].0);
        }
        if let Some(pr) = find_pr(current, &added[k]) {
            push_added(notes, &added[k], pr, events);
        }
        assert(note_views(notes@) =~= start + new.take(k + 1).flat_map(told));
    }
    assert(new.take(new.len() as int) =~= new);
}

fn push_all_updated(
    notes: &mut Vec<Notification>,
    previous: &IndexMap<PrId, PullRequest>,
    current: &IndexMap<PrId, PullRequest>,
    updated: &Vec<PrId>,
    events: &EventSet,
)
    requires
        unique_keys(pr_entries(*current)),
        updated@ == ids_of(updated_entries(pr_entries(*previous), pr_entries(*current))),
    ensures
        note_views(final(notes)@) == note_views(old(notes)@) + updated_entries(
            pr_entries(*previous),
            pr_entries(*current),
        ).flat_map(
            |entry: (PrId, PullRequest)| update_notes(pr_entries(*previous), entry, events@),
        ),
{
    let ghost start = note_views(notes@);
    let ghost before = pr_entries(*previous);
    let ghost entries = pr_entries(*current);
    let ghost changed = |entry: (PrId, PullRequest)| is_update(entry, before);
    let ghost touched = updated_entries(before, entries);
    let ghost told = |entry: (PrId, PullRequest)| update_notes(before, entry, events@);
    assert(touched.take(0).flat_map(told) =~= Seq::empty());
    for k in 0..updated.len()
        invariant
            unique_keys(entries),
            before == pr_entries(*previous),
            entries == pr_entries(*current),
            changed == |entry: (PrId, PullRequest)| is_update(entry, before),
            touched == entries.filter(changed),
            updated@ == ids_of(touched),
            told == |entry: (PrId, PullRequest)| update_notes(before, entry, events@),
            note_views(notes@) == start + touched.take(k as int).flat_map(told),
    {
        proof {
            lemma_filtered_entry(entries, changed, k as int);
            touched.lemma_flat_map_take_append(told, k as int);
            assert(updated@[k as int] == touched[k as int].0);
        }
        let id = &updated[k];
        if let Some(old_pr) = find_pr(previous, id) {
            if let Some(new_pr) = find_pr(current, id) {
                push_updated(notes, old_pr, id, new_pr, events);
            }
        }
        assert(note_views(notes@) =~= start + touched.take(k + 1).flat_map(told));
    }
    assert(touched.take(touched.len() as int) =~= touched);
}

fn push_all_comments(
    notes: &mut Vec<Notification>,
    marked: &mut IdSet,
    previous: &IndexMap<PrId, PullRequest>,
    current: &IndexMap<PrId, PullRequest>,
    events: &EventSet,
    username: &str,
)
    requires
        old(marked).wf(),
    ensures
        final(marked).wf(),
        final(marked)@ == old(marked)@.union(
            commented_ids(pr_entries(*previous), pr_entries(*current), username@),
        ),
        note_views(final(notes)@) == note_views(old(notes)@) + pr_entries(*current).flat_map(
            |entry: (PrId, PullRequest)|
                comment_notes(pr_entries(*previous), entry, events@, username@),
        ),
{
    let ghost start = note_views(notes@);
    let ghost before = pr_entries(*previous);
    let ghost entries = pr_entries(*current);
    let ghost commented = |entry: (PrId, PullRequest)| was_commented(before, entry, username@);
    let ghost told = |entry: (PrId, PullRequest)| comment_notes(before, entry, events@, username@);
    let ghost key = |entry: (PrId, PullRequest)| entry.0@;
    assert(entries.take(0).flat_map(told) =~= Seq::empty());
    assert(entries.take(0).filter(commented).map_values(key).to_set() =~= Set::empty());
    assert(marked@ =~= marked@.union(Set::empty()));
    let count = pr_count(current);
    for i in 0..count
        invariant
            count == entries.len(),
            before == pr_entries(*previous),
            entries == pr_entries(*current),
            commented == |entry: (PrId, PullRequest)| was_commented(before, entry, username@),
            key == |entry: (PrId, PullRequest)| entry.0@,
            told == |entry: (PrId, PullRequest)| comment_notes(before, entry, events@, username@),
            marked.wf(),
            marked@ == old(marked)@.union(
                entries.take(i as int).filter(commented).map_values(key).to_set(),
            ),
            note_views(notes@) == start + entries.take(i as int).flat_map(told),
    {
        let ghost entry = entries[i as int];
        let ghost seen = entries.take(i as int).filter(commented);
        proof {
            entries.lemma_flat_map_take_append(told, i as int);
            assert(entries.take(i + 1) =~= entries.take(i as int).push(entry));
            entries.take(i as int).lemma_filter_push(entry, commented);
            assert(seen.push(entry).map_values(key) =~= seen.map_values(key).push(entry.0@));
            seen.map_values(key).lemma_push_to_set_commute(entry.0@);
        }
        let ghost step = note_views(notes@);
        if let Some((id, new_pr)) = pr_at(current, i) {
            assert((*id, *new_pr) == entry);
            if let Some(old_pr) = find_pr(previous, id) {
                if has_new_comments(old_pr, new_pr, username) {
                    if events.contains(&NotifyEvent::NewComment) {
                        notes.push(make_note("New comment", id, new_pr));
                    }
                    marked.insert(id.clone());
                }
            }
        }
        assert(note_views(notes@) =~= step + told(entry));
        assert(note_views(notes@) =~= start + entries.take(i + 1).flat_map(told));
        assert(marked@ =~= old(marked)@.union(
            entries.take(i + 1).filter(commented).map_values(key).to_set(),
        ));
    }
    assert(entries.take(entries.len() as int) =~= entries);
}

fn push_all_ci(
    notes: &mut Vec<Notification>,
    previous: &IndexMap<PrId, PullRequest>,
    current: &IndexMap<PrId, PullRequest>,
    events: &EventSet,
)
    ensures
        note_views(final(notes)@) == note_views(old(notes)@) + pr_entries(*current).flat_map(
            |entry: (PrId, PullRequest)| polled_ci_notes(pr_entries(*previous), entry, events@),
        ),
{
    let ghost start = note_views(notes@);
    let ghost before = pr_entries(*previous);
    let ghost entries = pr_entries(*current);
    let ghost told = |entry: (PrId, PullRequest)| polled_ci_notes(before, entry, events@);
    assert(entries.take(0).flat_map(told) =~= Seq::empty());
    let count = pr_count(current);
    for i in 0..count
        invariant
            count == entries.len(),
            before == pr_entries(*previous),
            entries == pr_entries(*current),
            told == |entry: (PrId, PullRequest)| polled_ci_notes(before, entry, events@),
            note_views(notes@) == start + entries.take(i as int).flat_map(told),
    {
        proof {
            entries.lemma_flat_map_take_append(told, i as int);
        }
        if let Some((id, new_pr)) = pr_at(current, i) {
            if let Some(old_pr) = find_pr(previous, id) {
                push_ci(notes, &old_pr.ci_status, id, new_pr, events);
            }
        }
        assert(note_views(notes@) =~= start + entries.take(i + 1).flat_map(told));
    }
    assert(entries.take(entries.len() as int) =~= entries);
}

/// Adds the notifications on the change from `previous` to `current`, and marks the pull requests
/// that have new comments.
pub fn push_change(
    notes: &mut Vec<Notification>,
    marked: &mut IdSet,
    previous: &IndexMap<PrId, PullRequest>,
    current: &IndexMap<PrId, PullRequest>,
    added: &Vec<PrId>,
    updated: &Vec<PrId>,
    events: &EventSet,
    username: &str,
)
    requires
        unique_keys(pr_entries(*current)),
        old(marked).wf(),
        added@ == ids_of(added_entries(pr_entries(*previous), pr_entries(*current))),
        updated@ == ids_of(updated_entries(pr_entries(*previous), pr_entries(*current))),
    ensures
        final(marked).wf(),
        final(marked)@ == old(marked)@.union(
            commented_ids(pr_entries(*previous), pr_entries(*current), username@),
        ),
        note_views(final(notes)@) == note_views(old(notes)@) + change_notes(
            pr_entries(*previous),
            pr_entries(*current),
            events@,
            username@,
        ),
{
    push_all_added(notes, previous, current, added, events);
    push_all_updated(notes, previous, current, updated, events);
    push_all_comments(notes, marked, previous, current, events, username);
    push_all_ci(notes, previous, current, events);
    assert(note_views(notes@) =~= note_views(old(notes)@) + change_notes(
        pr_entries(*previous),
        pr_entries(*current),
        events@,
        username@,
    ));
}

// ---------------------------------------------------------------------------
// What holds of the notifications

proof fn lemma_flat_map_one(
    entry: (PrId, PullRequest),
    told: spec_fn((PrId, PullRequest)) -> Seq<NoteView>,
)
    ensures
        seq![entry].flat_map(told) == told(entry),
{
    let none = Seq::<(PrId, PullRequest)>::empty();
    assert(none.flat_map(told) =~= Seq::empty());
    none.lemma_flat_map_push(told, entry);
    assert(none.push(entry) =~= seq![entry]);
    assert(seq![entry].flat_map(told) =~= told(entry));
}

proof fn lemma_flat_map_add(
    one: Seq<(PrId, PullRequest)>,
    other: Seq<(PrId, PullRequest)>,
    told: spec_fn((PrId, PullRequest)) -> Seq<NoteView>,
)
    ensures
        (one + other).flat_map(told) == one.flat_map(told) + other.flat_map(told),
    decreases other.len(),
{
    if other.len() == 0 {
        assert(one + other =~= one);
        assert(other =~= Seq::empty());
        assert(Seq::<(PrId, PullRequest)>::empty().flat_map(told) =~= Seq::empty());
        assert((one + other).flat_map(told) =~= one.flat_map(told) + other.flat_map(told));
    } else {
        let rest = other.drop_last();
        lemma_flat_map_add(one, rest, told);
        assert(one + other =~= (one + rest).push(other.last()));
        assert(other =~= rest.push(other.last()));
        (one + rest).lemma_flat_map_push(told, other.last());
        rest.lemma_flat_map_push(told, other.last());
        assert((one + other).flat_map(told) =~= one.flat_map(told) + other.flat_map(told));
    }
}

proof fn lemma_filter_one(
    entry: (PrId, PullRequest),
    kept: spec_fn((PrId, PullRequest)) -> bool,
)
    ensures
        seq![entry].filter(kept) == (if kept(entry) {
            seq![entry]
        } else {
            Seq::empty()
        }),
{
    let none = Seq::<(PrId, PullRequest)>::empty();
    assert(none.filter(kept) =~= none);
    none.lemma_filter_push(entry, kept);
    assert(none.push(entry) =~= seq![entry]);
}

/// Every pull request has its notifications for itself: those on two lists together are those on the
/// one and those on the other.
pub proof fn notifications_add_up(
    previous: Seq<(PrId, PullRequest)>,
    one: Seq<(PrId, PullRequest)>,
    other: Seq<(PrId, PullRequest)>,
    events: Set<NotifyEvent>,
    username: Seq<char>,
)
    ensures
        change_notes(previous, one + other, events, username).to_multiset() =~= change_notes(
            previous,
            one,
            events,
            username,
        ).to_multiset().add(change_notes(previous, other, events, username).to_multiset()),
        change_notes(previous, Seq::empty(), events, username).len() == 0,
{
    let both = one + other;
    let came = |entry: (PrId, PullRequest)| is_missing(entry, previous);
    let changed = |entry: (PrId, PullRequest)| is_update(entry, previous);
    let added = |entry: (PrId, PullRequest)| added_notes(entry, events);
    let updated = |entry: (PrId, PullRequest)| update_notes(previous, entry, events);
    let commented = |entry: (PrId, PullRequest)|
        comment_notes(previous, entry, events, username);
    let checked = |entry: (PrId, PullRequest)| polled_ci_notes(previous, entry, events);
    Seq::filter_distributes_over_add(one, other, came);
    Seq::filter_distributes_over_add(one, other, changed);
    let a1 = one.filter(came).flat_map(added);
    let a2 = other.filter(came).flat_map(added);
    let b1 = one.filter(changed).flat_map(updated);
    let b2 = other.filter(changed).flat_map(updated);
    let c1 = one.flat_map(commented);
    let c2 = other.flat_map(commented);
    let d1 = one.flat_map(checked);
    let d2 = other.flat_map(checked);
    lemma_flat_map_add(one.filter(came), other.filter(came), added);
    lemma_flat_map_add(one.filter(changed), other.filter(changed), updated);
    lemma_flat_map_add(one, other, commented);
    lemma_flat_map_add(one, other, checked);
    assert(change_notes(previous, both, events, username) == (a1 + a2) + (b1 + b2) + (c1 + c2) + (d1
        + d2));
    assert(change_notes(previous, one, events, username) == a1 + b1 + c1 + d1);
    assert(change_notes(previous, other, events, username) == a2 + b2 + c2 + d2);
    vstd::seq_lib::lemma_multiset_commutative(a1, a2);
    vstd::seq_lib::lemma_multiset_commutative(b1, b2);
    vstd::seq_lib::lemma_multiset_commutative(c1, c2);
    vstd::seq_lib::lemma_multiset_commutative(d1, d2);
    vstd::seq_lib::lemma_multiset_commutative(a1 + a2, b1 + b2);
    vstd::seq_lib::lemma_multiset_commutative((a1 + a2) + (b1 + b2), c1 + c2);
    vstd::seq_lib::lemma_multiset_commutative((a1 + a2) + (b1 + b2) + (c1 + c2), d1 + d2);
    vstd::seq_lib::lemma_multiset_commutative(a1, b1);
    vstd::seq_lib::lemma_multiset_commutative(a1 + b1, c1);
    vstd::seq_lib::lemma_multiset_commutative(a1 + b1 + c1, d1);
    vstd::seq_lib::lemma_multiset_commutative(a2, b2);
    vstd::seq_lib::lemma_multiset_commutative(a2 + b2, c2);
    vstd::seq_lib::lemma_multiset_commutative(a2 + b2 + c2, d2);
    let none = Seq::<(PrId, PullRequest)>::empty();
    assert(none.filter(came) =~= none);
    assert(none.filter(changed) =~= none);
    assert(none.flat_map(added) =~= Seq::empty());
    assert(none.flat_map(updated) =~= Seq::empty());
    assert(none.flat_map(commented) =~= Seq::empty());
    assert(none.flat_map(checked) =~= Seq::empty());
}

/// A pull request whose identity is new is told of where the user is asked to review it, or is
/// mentioned in it, and the event is switched on; the author is told nothing.
pub proof fn new_ones_are_told_of_by_role(
    previous: Seq<(PrId, PullRequest)>,
    entry: (PrId, PullRequest),
    events: Set<NotifyEvent>,
    username: Seq<char>,
)
    requires
        forall|j: int| 0 <= j < previous.len() ==> (#[trigger] previous[j]).0@ != entry.0@,
    ensures
        ({
            let body = entry.1.title@ + seq![' ', '('] + entry.0.owner@ + seq!['/'] + entry.0.repo@
                + seq!['#'] + decimal(entry.0.number as nat) + seq![')'];
            let told = change_notes(previous, seq![entry], events, username);
            &&& entry.1.role == PrRole::Author ==> told.len() == 0
            &&& entry.1.role == PrRole::ReviewRequested ==> told =~= if events.contains(
                NotifyEvent::ReviewRequested,
            ) {
                seq![NoteView { title: "Review requested"@, body }]
            } else {
                Seq::empty()
            }
            &&& entry.1.role == PrRole::Mentioned ==> told =~= if events.contains(
                NotifyEvent::Mentioned,
            ) {
                seq![NoteView { title: "Mentioned in PR"@, body }]
            } else {
                Seq::empty()
            }
        }),
{
    let body = entry.1.title@ + seq![' ', '('] + entry.0.owner@ + seq!['/'] + entry.0.repo@
        + seq!['#'] + decimal(entry.0.number as nat) + seq![')'];
    assert(note_on("Review requested"@, entry).body =~= body);
    assert(note_on("Mentioned in PR"@, entry).body =~= body);
    assert(!has_key(previous, entry.0@));
    lemma_filter_one(entry, |e: (PrId, PullRequest)| is_missing(e, previous));
    lemma_filter_one(entry, |e: (PrId, PullRequest)| is_update(e, previous));
    lemma_flat_map_one(entry, |e: (PrId, PullRequest)| added_notes(e, events));
    let updated = |e: (PrId, PullRequest)| update_notes(previous, e, events);
    assert(Seq::<(PrId, PullRequest)>::empty().flat_map(updated) =~= Seq::empty());
    lemma_flat_map_one(
        entry,
        |e: (PrId, PullRequest)| comment_notes(previous, e, events, username),
    );
    lemma_flat_map_one(entry, |e: (PrId, PullRequest)| polled_ci_notes(previous, e, events));
    assert(change_notes(previous, seq![entry], events, username) =~= added_notes(entry, events));
}

/// A pull request that was there before is told of, one after the other:
/// - where its time changed, and it is the user's own and was open: that it was merged, or closed;
/// - where its time changed: that a review is required, which was not required before, whatever was
///   decided before;
/// - where it is the user's own and has more comments, the last of them not by the user: that there
///   is a new comment;
/// - where it is the user's own: that its checks, which were in progress, have passed or failed.
///
/// Each where its event is switched on, and nothing else.
pub proof fn known_ones_are_told_of_by_what_changed(
    previous: Seq<(PrId, PullRequest)>,
    entry: (PrId, PullRequest),
    events: Set<NotifyEvent>,
    username: Seq<char>,
    j: int,
)
    requires
        unique_keys(previous),
        0 <= j < previous.len(),
        previous[j].0@ == entry.0@,
    ensures
        ({
            let body = entry.1.title@ + seq![' ', '('] + entry.0.owner@ + seq!['/'] + entry.0.repo@
                + seq!['#'] + decimal(entry.0.number as nat) + seq![')'];
            let before = previous[j].1;
            let now = entry.1;
            let changed = before.updated_at.secs != now.updated_at.secs || before.updated_at.nanos
                != now.updated_at.nanos;
            let ended = if changed && now.role == PrRole::Author && before.state == PrState::Open
                && now.state == PrState::Merged && events.contains(NotifyEvent::PrMerged) {
                seq![NoteView { title: "PR merged"@, body }]
            } else if changed && now.role == PrRole::Author && before.state == PrState::Open
                && now.state == PrState::Closed && events.contains(NotifyEvent::PrClosed) {
                seq![NoteView { title: "PR closed"@, body }]
            } else {
                Seq::empty()
            };
            let review = if changed && now.review_decision == Some(ReviewDecision::ReviewRequired)
                && before.review_decision != Some(ReviewDecision::ReviewRequired)
                && events.contains(NotifyEvent::ReReviewRequested) {
                seq![NoteView { title: "Re-review requested"@, body }]
            } else {
                Seq::empty()
            };
            let comment = if now.role == PrRole::Author && now.total_comments
                > before.total_comments && (now.last_commenter is None || now.last_commenter->0@
                != username) && events.contains(NotifyEvent::NewComment) {
                seq![NoteView { title: "New comment"@, body }]
            } else {
                Seq::empty()
            };
            let running = before.ci_status == Some(CiStatus::Pending) || before.ci_status == Some(
                CiStatus::Expected,
            );
            let checks = if now.role == PrRole::Author && running && events.contains(
                NotifyEvent::CiFinished,
            ) {
                if now.ci_status == Some(CiStatus::Success) {
                    seq![NoteView { title: "CI passed"@, body }]
                } else if now.ci_status == Some(CiStatus::Failure) || now.ci_status == Some(
                    CiStatus::Error,
                ) {
                    seq![NoteView { title: "CI failed"@, body }]
                } else {
                    Seq::empty()
                }
            } else {
                Seq::empty()
            };
            change_notes(previous, seq![entry], events, username) =~= ended + review + comment
                + checks
        }),
{
    let body = entry.1.title@ + seq![' ', '('] + entry.0.owner@ + seq!['/'] + entry.0.repo@
        + seq!['#'] + decimal(entry.0.number as nat) + seq![')'];
    assert forall|title: Seq<char>| (#[trigger] note_on(title, entry)).body == body by {
        assert(note_on(title, entry).body =~= body);
    }
    lemma_key_at(previous, entry.0@, j);
    lemma_filter_one(entry, |e: (PrId, PullRequest)| is_missing(e, previous));
    lemma_filter_one(entry, |e: (PrId, PullRequest)| is_update(e, previous));
    let added = |e: (PrId, PullRequest)| added_notes(e, events);
    let updated = |e: (PrId, PullRequest)| update_notes(previous, e, events);
    assert(Seq::<(PrId, PullRequest)>::empty().flat_map(added) =~= Seq::empty());
    assert(Seq::<(PrId, PullRequest)>::empty().flat_map(updated) =~= Seq::empty());
    lemma_flat_map_one(entry, updated);
    lemma_flat_map_one(
        entry,
        |e: (PrId, PullRequest)| comment_notes(previous, e, events, username),
    );
    lemma_flat_map_one(entry, |e: (PrId, PullRequest)| polled_ci_notes(previous, e, events));
}

/// The user's own pull request is told of when its checks, which were pending or expected, come to
/// a success, a failure or an error, and the event is switched on; never else.
pub proof fn the_end_of_checks_is_told_to_the_author(
    before: Option<CiStatus>,
    entry: (PrId, PullRequest),
    events: Set<NotifyEvent>,
)
    ensures
        ({
            let body = entry.1.title@ + seq![' ', '('] + entry.0.owner@ + seq!['/'] + entry.0.repo@
                + seq!['#'] + decimal(entry.0.number as nat) + seq![')'];
            let running = before == Some(CiStatus::Pending) || before == Some(CiStatus::Expected);
            let counts = entry.1.role == PrRole::Author && running && events.contains(
                NotifyEvent::CiFinished,
            );
            let told = ci_notes(before, entry, events);
            &&& counts && entry.1.ci_status == Some(CiStatus::Success) ==> told =~= seq![
                NoteView { title: "CI passed"@, body },
            ]
            &&& counts && (entry.1.ci_status == Some(CiStatus::Failure) || entry.1.ci_status == Some(
                CiStatus::Error,
            )) ==> told =~= seq![NoteView { title: "CI failed"@, body }]
            &&& !counts || entry.1.ci_status is None || entry.1.ci_status == Some(CiStatus::Pending)
                || entry.1.ci_status == Some(CiStatus::Expected) ==> told.len() == 0
        }),
{
    let body = entry.1.title@ + seq![' ', '('] + entry.0.owner@ + seq!['/'] + entry.0.repo@
        + seq!['#'] + decimal(entry.0.number as nat) + seq![')'];
    assert(note_on("CI passed"@, entry).body =~= body);
    assert(note_on("CI failed"@, entry).body =~= body);
}

/// Marked as commented are the user's own pull requests that were there before, have more comments
/// than then, and the last one not by the user.
pub proof fn marks_are_for_comments_by_others(
    previous: Seq<(PrId, PullRequest)>,
    current: Seq<(PrId, PullRequest)>,
    username: Seq<char>,
    i: int,
    j: int,
)
    requires
        unique_keys(previous),
        unique_keys(current),
        0 <= i < current.len(),
        0 <= j < previous.len(),
        previous[j].0@ == current[i].0@,
    ensures
        commented_ids(previous, current, username).contains(current[i].0@) <==> current[i].1.role
            == PrRole::Author && current[i].1.total_comments > previous[j].1.total_comments && (
        current[i].1.last_commenter is None || current[i].1.last_commenter->0@ != username),
{
    let commented = |entry: (PrId, PullRequest)| was_commented(previous, entry, username);
    let part = current.filter(commented);
    let ids = part.map_values(|entry: (PrId, PullRequest)| entry.0@);
    let id = current[i].0@;
    lemma_key_at(previous, id, j);
    if commented(current[i]) {
        current.lemma_filter_contains(commented, i);
        let k = choose|k: int| 0 <= k < part.len() && part[k] == current[i];
        assert(ids[k] == id);
    }
    if ids.contains(id) {
        let k = choose|k: int| 0 <= k < ids.len() && ids[k] == id;
        current.lemma_filter_pred(commented, k);
        assert(part.contains(part[k]));
        current.lemma_filter_contains_rev(commented, part[k]);
        let m = choose|m: int| 0 <= m < current.len() && current[m] == part[k];
        assert(current[m].0@ == current[i].0@);
        assert(m == i);
    }
}

/// A pull request that was not there before is not marked as commented, and nothing is marked that
/// is not there.
pub proof fn only_known_ones_are_marked(
    previous: Seq<(PrId, PullRequest)>,
    current: Seq<(PrId, PullRequest)>,
    username: Seq<char>,
    id: PrIdView,
)
    requires
        commented_ids(previous, current, username).contains(id),
    ensures
        exists|i: int| 0 <= i < current.len() && (#[trigger] current[i]).0@ == id,
        exists|j: int| 0 <= j < previous.len() && (#[trigger] previous[j]).0@ == id,
{
    let commented = |entry: (PrId, PullRequest)| was_commented(previous, entry, username);
    let part = current.filter(commented);
    let ids = part.map_values(|entry: (PrId, PullRequest)| entry.0@);
    let k = choose|k: int| 0 <= k < ids.len() && ids[k] == id;
    current.lemma_filter_pred(commented, k);
    assert(part.contains(part[k]));
    current.lemma_filter_contains_rev(commented, part[k]);
    let m = choose|m: int| 0 <= m < current.len() && current[m] == part[k];
    assert(current[m].0@ == id);
    let j = choose|j: int| is_key_at(previous, id, j);
    assert(previous[j].0@ == id);
}

/// A review that is required now and was not before, by whatever decision or by none, is told of
/// once and by that title; otherwise nothing is said of reviews.
pub proof fn a_required_review_is_told_of_once(
    before: PullRequest,
    entry: (PrId, PullRequest),
    events: Set<NotifyEvent>,
)
    ensures
        ({
            let asked = entry.1.review_decision == Some(ReviewDecision::ReviewRequired);
            let was_asked = before.review_decision == Some(ReviewDecision::ReviewRequired);
            let notes = review_notes(before, entry, events);
            &&& asked && !was_asked && events.contains(NotifyEvent::ReReviewRequested)
                ==> notes.len() == 1 && notes[0].title == "Re-review requested"@ && notes[0].body
                == entry.1.title@ + seq![' ', '('] + entry.0.owner@ + seq!['/'] + entry.0.repo@
                + seq!['#'] + decimal(entry.0.number as nat) + seq![')']
            &&& !asked || was_asked || !events.contains(NotifyEvent::ReReviewRequested)
                ==> notes.len() == 0
        }),
{
    let body = entry.1.title@ + seq![' ', '('] + entry.0.owner@ + seq!['/'] + entry.0.repo@
        + seq!['#'] + decimal(entry.0.number as nat) + seq![')'];
    assert(note_on("Re-review requested"@, entry).body =~= body);
}

/// The author is told once that an open pull request was merged, or that it was closed; nobody else
/// is, and nothing is said of one that was not open or still is.
pub proof fn an_end_is_told_to_the_author_once(
    before: PullRequest,
    entry: (PrId, PullRequest),
    events: Set<NotifyEvent>,
)
    ensures
        ({
            let ended = entry.1.role == PrRole::Author && before.state == PrState::Open;
            let merged = ended && entry.1.state == PrState::Merged && events.contains(
                NotifyEvent::PrMerged,
            );
            let closed = ended && entry.1.state == PrState::Closed && events.contains(
                NotifyEvent::PrClosed,
            );
            let notes = ended_notes(before, entry, events);
            &&& merged ==> notes.len() == 1 && notes[0].title == "PR merged"@
            &&& closed ==> notes.len() == 1 && notes[0].title == "PR closed"@
            &&& notes.len() == 1 ==> notes[0].body == entry.1.title@ + seq![' ', '(']
                + entry.0.owner@ + seq!['/'] + entry.0.repo@ + seq!['#'] + decimal(
                entry.0.number as nat,
            ) + seq![')']
            &&& !merged && !closed ==> notes.len() == 0
        }),
{
    let body = entry.1.title@ + seq![' ', '('] + entry.0.owner@ + seq!['/'] + entry.0.repo@
        + seq!['#'] + decimal(entry.0.number as nat) + seq![')'];
    assert(note_on("PR merged"@, entry).body =~= body);
    assert(note_on("PR closed"@, entry).body =~= body);
}

} // verus!
