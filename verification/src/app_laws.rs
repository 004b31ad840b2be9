//! What holds of the state whatever the messages.
use crate::alerts::{
    added_notes, change_notes, ci_notes, comment_notes, marks_are_for_comments_by_others,
    polled_ci_notes, update_notes,
};
use crate::app::{follows, same_head, with_dismissals, AppView, LoadingView, Message};
use crate::config::NotifyEvent;
use crate::diff::{added_entries, ids_of, is_missing, updated_entries};
use crate::ids::{has_key, id_views, is_key_at, lemma_key_at, unique_keys, value_of};
use crate::notify::NoteView;
use crate::poller::{CiPayload, PollPayload};
use crate::pr_map::{
    in_list_order, is_listing, is_other, key_set, listed_before, listing_is_unique, listing_keeps_entries,
    pr_entries, without_key,
};
use crate::rows::{group_rows, is_first_at, place_of, pr_rows, RowView};
use crate::timestamp::Timestamp;
use crate::types::{PrId, PrIdView, PrRole, PrState, PullRequest};
use std::time::Instant;
use vstd::prelude::*;

verus! {

// ---------------------------------------------------------------------------
// What leaves the list, and what comes into it

proof fn lemma_filter_keys(
    entries: Seq<(PrId, PullRequest)>,
    kept: spec_fn((PrId, PullRequest)) -> bool,
    id: PrIdView,
)
    ensures
        has_key(entries.filter(kept), id) <==> exists|i: int|
            is_key_at(entries, id, i) && kept(entries[i]),
{
    let part = entries.filter(kept);
    if has_key(part, id) {
        let k = choose|k: int| is_key_at(part, id, k);
        entries.lemma_filter_pred(kept, k);
        assert(part.contains(part[k]));
        entries.lemma_filter_contains_rev(kept, part[k]);
        let i = choose|i: int| 0 <= i < entries.len() && entries[i] == part[k];
        assert(is_key_at(entries, id, i) && kept(entries[i]));
    }
    if exists|i: int| is_key_at(entries, id, i) && kept(entries[i]) {
        let i = choose|i: int| is_key_at(entries, id, i) && kept(entries[i]);
        entries.lemma_filter_contains(kept, i);
        let k = choose|k: int| 0 <= k < part.len() && part[k] == entries[i];
        assert(is_key_at(part, id, k));
    }
}

/// Without a key the others are there as before.
pub proof fn others_stay(entries: Seq<(PrId, PullRequest)>, id: PrIdView, other: PrIdView)
    ensures
        has_key(without_key(entries, id), other) <==> other != id && has_key(entries, other),
{
    let kept = |entry: (PrId, PullRequest)| is_other(entry, id);
    lemma_filter_keys(entries, kept, other);
    if has_key(without_key(entries, id), other) {
        let i = choose|i: int| is_key_at(entries, other, i) && kept(entries[i]);
        assert(is_key_at(entries, other, i) && entries[i].0@ != id);
    }
    if other != id && has_key(entries, other) {
        let i = choose|i: int| is_key_at(entries, other, i);
        assert(is_key_at(entries, other, i) && kept(entries[i]));
    }
}

/// An entry that a snapshot adds to the list, or keeps there, is one that the list accepts; and
/// every such entry is there, unchanged but for its CI status.
pub proof fn snapshot_brings_what_is_accepted(
    before: AppView,
    payload: PollPayload,
    now: Instant,
    after: AppView,
    id: PrIdView,
)
    requires
        follows(before, Message::PollResult(payload), now, after),
    ensures
        has_key(after.prs, id) <==> exists|i: int|
            is_key_at(pr_entries(payload.prs), id, i) && before.accepts(
                pr_entries(payload.prs)[i],
            ),
        has_key(after.prs, id) ==> exists|i: int|
            #![trigger pr_entries(payload.prs)[i]]
            is_key_at(pr_entries(payload.prs), id, i) && value_of(after.prs, id)
                == pr_entries(payload.prs)[i].1.with_ci(
                before.kept_ci(pr_entries(payload.prs)[i], payload.head_shas@),
            ),
{
    let entries = pr_entries(payload.prs);
    let heads = payload.head_shas@;
    let wanted = |entry: (PrId, PullRequest)| before.accepts(entry);
    let kept = |entry: (PrId, PullRequest)| (entry.0, entry.1.with_ci(before.kept_ci(entry, heads)));
    let taken = entries.filter(wanted);
    let incoming = before.incoming(entries, heads);
    assert(incoming == taken.map_values(kept));
    listing_keeps_entries(incoming, after.prs);
    lemma_filter_keys(entries, wanted, id);
    assert(key_set(after.prs).contains(id) == key_set(incoming).contains(id));
    if has_key(incoming, id) {
        let k = choose|k: int| is_key_at(incoming, id, k);
        assert(is_key_at(taken, id, k));
    }
    if has_key(taken, id) {
        let k = choose|k: int| is_key_at(taken, id, k);
        assert(is_key_at(incoming, id, k));
    }
    if has_key(after.prs, id) {
        let m = choose|m: int| is_key_at(after.prs, id, m);
        assert(after.prs.contains(after.prs[m]));
        let k = choose|k: int| 0 <= k < incoming.len() && incoming[k] == after.prs[m];
        assert(incoming[k] == kept(taken[k]));
        assert(taken.contains(taken[k]));
        entries.lemma_filter_contains_rev(wanted, taken[k]);
        let i = choose|i: int| 0 <= i < entries.len() && entries[i] == taken[k];
        lemma_key_at(after.prs, id, m);
        assert(is_key_at(entries, id, i));
    }
}

/// A closed or merged pull request is in the list only if it was there while it was open: a
/// snapshot adds open ones only.
pub proof fn only_open_ones_are_added(
    before: AppView,
    payload: PollPayload,
    now: Instant,
    after: AppView,
    id: PrIdView,
)
    requires
        follows(before, Message::PollResult(payload), now, after),
        has_key(after.prs, id),
        !(before.loading is Loaded) || !has_key(before.prs, id),
    ensures
        value_of(after.prs, id).state is Open,
{
    let entries = pr_entries(payload.prs);
    let heads = payload.head_shas@;
    let wanted = |entry: (PrId, PullRequest)| before.accepts(entry);
    let incoming = before.incoming(entries, heads);
    let taken = entries.filter(wanted);
    listing_keeps_entries(incoming, after.prs);
    let m = choose|m: int| is_key_at(after.prs, id, m);
    lemma_key_at(after.prs, id, m);
    assert(after.prs.contains(after.prs[m]));
    let k = choose|k: int| 0 <= k < incoming.len() && incoming[k] == after.prs[m];
    entries.lemma_filter_pred(wanted, k);
    assert(before.accepts(taken[k]));
    assert(incoming[k].0 == taken[k].0);
}

/// Whether no pull request of the list left it for good before.
pub open spec fn dismissed_are_out(app: AppView) -> bool {
    forall|id: PrIdView| #[trigger] app.dismissed.contains(id) ==> !has_key(app.prs, id)
}

proof fn lemma_dismissing_keeps_out(app: AppView, id: PrIdView)
    requires
        dismissed_are_out(app),
    ensures
        dismissed_are_out(app.dismissing(id)),
        app.dismissed.subset_of(app.dismissing(id).dismissed),
{
    assert forall|x: PrIdView| #[trigger]
        app.dismissing(id).dismissed.contains(x) implies !has_key(app.dismissing(id).prs, x) by {
        others_stay(app.prs, id, x);
    }
}

/// A pull request that left the list for good never comes back, whatever the message.
pub proof fn dismissed_stay_out(before: AppView, msg: Message, now: Instant, after: AppView)
    requires
        follows(before, msg, now, after),
        dismissed_are_out(before),
    ensures
        dismissed_are_out(after),
        before.dismissed.subset_of(after.dismissed),
{
    assert forall|x: PrIdView, y: PrIdView| #[trigger]
        has_key(without_key(before.prs, x), y) implies has_key(before.prs, y) by {
        others_stay(before.prs, x, y);
    }
    match before.selected_id() {
        Some(id) => {
            lemma_dismissing_keeps_out(before, id);
        },
        None => {},
    }
    match msg {
        Message::PollResult(payload) => {
            assert forall|id: PrIdView| #[trigger] after.dismissed.contains(id) implies !has_key(
                after.prs,
                id,
            ) by {
                snapshot_brings_what_is_accepted(before, payload, now, after, id);
            }
        },
        Message::CiResult(payload) => {
            assert forall|id: PrIdView| #[trigger] after.dismissed.contains(id) implies !has_key(
                after.prs,
                id,
            ) by {
                if has_key(after.prs, id) {
                    let i = choose|i: int| is_key_at(after.prs, id, i);
                    assert(is_key_at(before.prs, id, i));
                }
            }
        },
        _ => {},
    }
}

// ---------------------------------------------------------------------------
// The order of the list

proof fn lemma_part_keeps_order(
    entries: Seq<(PrId, PullRequest)>,
    kept: spec_fn((PrId, PullRequest)) -> bool,
)
    requires
        in_list_order(entries),
        unique_keys(entries),
    ensures
        in_list_order(entries.filter(kept)),
        unique_keys(entries.filter(kept)),
    decreases entries.len(),
{
    reveal(Seq::filter);
    if entries.len() > 0 {
        let rest = entries.drop_last();
        let last = entries.last();
        assert forall|i: int, j: int|
            #![trigger rest[i], rest[j]]
            0 <= i < j < rest.len() implies !listed_before(rest[j], rest[i]) by {
            assert(rest[i] == entries[i] && rest[j] == entries[j]);
        }
        assert forall|i: int, j: int|
            #![trigger rest[i], rest[j]]
            0 <= i < rest.len() && 0 <= j < rest.len() && i != j implies rest[i].0@ != rest[j].0@ by {
            assert(rest[i] == entries[i] && rest[j] == entries[j]);
        }
        lemma_part_keeps_order(rest, kept);
        let part = rest.filter(kept);
        if kept(last) {
            assert(entries.filter(kept) == part.push(last));
            assert forall|i: int| 0 <= i < part.len() implies !listed_before(
                last,
                #[trigger] part[i],
            ) && part[i].0@ != last.0@ by {
                assert(part.contains(part[i]));
                rest.lemma_filter_contains_rev(kept, part[i]);
                let k = choose|k: int| 0 <= k < rest.len() && rest[k] == part[i];
                assert(entries[k] == part[i]);
                assert(entries[entries.len() - 1] == last);
            }
        }
    }
}

/// The list is in its order, whatever the message: by role, then by repository, number and owner,
/// descending.
pub proof fn list_stays_in_order(before: AppView, msg: Message, now: Instant, after: AppView)
    requires
        follows(before, msg, now, after),
        in_list_order(before.prs),
        unique_keys(before.prs),
    ensures
        in_list_order(after.prs),
        unique_keys(after.prs),
{
    match before.selected_id() {
        Some(id) => {
            lemma_part_keeps_order(before.prs, |entry: (PrId, PullRequest)| is_other(entry, id));
        },
        None => {},
    }
    match msg {
        Message::CiResult(payload) => {
            if payload.generation == before.generation {
                let updates = payload.statuses@;
                assert forall|i: int| 0 <= i < after.prs.len() implies (
                #[trigger] after.prs[i]).0 == before.prs[i].0 && after.prs[i].1.role
                    == before.prs[i].1.role by {
                    assert(after.prs[i] == before.checked(before.prs[i], updates));
                }
                assert forall|i: int, j: int|
                    #![trigger after.prs[i], after.prs[j]]
                    0 <= i < j < after.prs.len() implies !listed_before(
                    after.prs[j],
                    after.prs[i],
                ) by {
                    assert(!listed_before(before.prs[j], before.prs[i]));
                }
                assert forall|i: int, j: int|
                    #![trigger after.prs[i], after.prs[j]]
                    0 <= i < after.prs.len() && 0 <= j < after.prs.len() && i
                        != j implies after.prs[i].0@ != after.prs[j].0@ by {
                    assert(before.prs[i].0@ != before.prs[j].0@);
                }
            }
        },
        _ => {},
    }
}

/// A message has one outcome.
pub proof fn outcome_is_unique(
    before: AppView,
    msg: Message,
    now: Instant,
    one: AppView,
    other: AppView,
)
    requires
        follows(before, msg, now, one),
        follows(before, msg, now, other),
    ensures
        one == other,
{
    if let Message::PollResult(payload) = msg {
        listing_is_unique(
            before.incoming(pr_entries(payload.prs), payload.head_shas@),
            one.prs,
            other.prs,
        );
    }
}

// ---------------------------------------------------------------------------
// Rows and selection

proof fn lemma_pr_rows(prs: Seq<(PrId, PullRequest)>, role: PrRole)
    requires
        unique_keys(prs),
    ensures
        forall|k: int|
            0 <= k < pr_rows(prs, role).len() ==> (#[trigger] pr_rows(prs, role)[k]) is Pr,
        forall|id: PrIdView|
            #![trigger pr_rows(prs, role).contains(RowView::Pr(id))]
            pr_rows(prs, role).contains(RowView::Pr(id)) <==> has_key(prs, id) && value_of(
                prs,
                id,
            ).role == role,
        pr_rows(prs, role).no_duplicates(),
    decreases prs.len(),
{
    let shown = |entry: (PrId, PullRequest)| entry.1.role == role;
    let part = prs.filter(shown);
    let rows = pr_rows(prs, role);
    assert forall|id: PrIdView|
        #![trigger rows.contains(RowView::Pr(id))]
        rows.contains(RowView::Pr(id)) <==> has_key(prs, id) && value_of(prs, id).role == role by {
        if rows.contains(RowView::Pr(id)) {
            let k = choose|k: int| 0 <= k < rows.len() && rows[k] == RowView::Pr(id);
            assert(part[k].0@ == id);
            prs.lemma_filter_pred(shown, k);
            assert(part.contains(part[k]));
            prs.lemma_filter_contains_rev(shown, part[k]);
            let i = choose|i: int| 0 <= i < prs.len() && prs[i] == part[k];
            assert(is_key_at(prs, id, i));
            lemma_key_at(prs, id, i);
        }
        if has_key(prs, id) && value_of(prs, id).role == role {
            let i = choose|i: int| is_key_at(prs, id, i);
            lemma_key_at(prs, id, i);
            prs.lemma_filter_contains(shown, i);
            let k = choose|k: int| 0 <= k < part.len() && part[k] == prs[i];
            assert(rows[k] == RowView::Pr(id));
        }
    }
    lemma_pr_rows_distinct(prs, role);
}

proof fn lemma_pr_rows_distinct(prs: Seq<(PrId, PullRequest)>, role: PrRole)
    requires
        unique_keys(prs),
    ensures
        pr_rows(prs, role).no_duplicates(),
    decreases prs.len(),
{
    let shown = |entry: (PrId, PullRequest)| entry.1.role == role;
    if prs.len() == 0 {
        assert(prs.filter(shown) =~= Seq::empty()) by {
            reveal(Seq::filter);
        }
    } else {
        let rest = prs.drop_last();
        let last = prs.last();
        assert(prs =~= rest.push(last));
        assert forall|i: int, j: int|
            #![trigger rest[i], rest[j]]
            0 <= i < rest.len() && 0 <= j < rest.len() && i != j implies rest[i].0@ != rest[j].0@ by {
            assert(rest[i] == prs[i] && rest[j] == prs[j]);
        }
        lemma_pr_rows_distinct(rest, role);
        rest.lemma_filter_push(last, shown);
        let rows = pr_rows(rest, role);
        if shown(last) {
            assert(pr_rows(prs, role) =~= rows.push(RowView::Pr(last.0@)));
            assert forall|k: int| 0 <= k < rows.len() implies #[trigger] rows[k] != RowView::Pr(
                last.0@,
            ) by {
                let part = rest.filter(shown);
                assert(rows[k] == RowView::Pr(part[k].0@));
                assert(part.contains(part[k]));
                rest.lemma_filter_contains_rev(shown, part[k]);
                let i = choose|i: int| 0 <= i < rest.len() && rest[i] == part[k];
                assert(prs[i] == part[k]);
                assert(prs[prs.len() - 1] == last);
            }
        } else {
            assert(pr_rows(prs, role) =~= rows);
        }
    }
}

/// Each role has its header, a pull request has a row exactly where its group is not collapsed, and
/// no row is there twice.
pub proof fn each_has_one_row(app: AppView)
    requires
        unique_keys(app.prs),
    ensures
        app.rows().no_duplicates(),
        app.rows().len() >= 3,
        forall|role: PrRole| #[trigger] app.rows().contains(RowView::Role(role)),
        forall|id: PrIdView|
            #![trigger app.rows().contains(RowView::Pr(id))]
            app.rows().contains(RowView::Pr(id)) <==> has_key(app.prs, id)
                && !app.collapsed.contains(value_of(app.prs, id).role),
{
    lemma_pr_rows(app.prs, PrRole::Author);
    lemma_pr_rows(app.prs, PrRole::ReviewRequested);
    lemma_pr_rows(app.prs, PrRole::Mentioned);
    let a = group_rows(app.prs, app.collapsed, PrRole::Author);
    let b = group_rows(app.prs, app.collapsed, PrRole::ReviewRequested);
    let c = group_rows(app.prs, app.collapsed, PrRole::Mentioned);
    let rows = app.rows();
    assert(rows == a + b + c);
    assert forall|row: RowView| #[trigger]
        rows.contains(row) <==> a.contains(row) || b.contains(row) || c.contains(row) by {
        if a.contains(row) {
            let k = choose|k: int| 0 <= k < a.len() && a[k] == row;
            assert(rows[k] == row);
        }
        if b.contains(row) {
            let k = choose|k: int| 0 <= k < b.len() && b[k] == row;
            assert(rows[a.len() + k] == row);
        }
        if c.contains(row) {
            let k = choose|k: int| 0 <= k < c.len() && c[k] == row;
            assert(rows[a.len() + b.len() + k] == row);
        }
    }
    lemma_group(app, PrRole::Author);
    lemma_group(app, PrRole::ReviewRequested);
    lemma_group(app, PrRole::Mentioned);
    assert forall|role: PrRole| #[trigger] rows.contains(RowView::Role(role)) by {
        let group = group_rows(app.prs, app.collapsed, role);
        assert(group[0] == RowView::Role(role));
        assert(group.contains(RowView::Role(role)));
    }
    assert forall|i: int, j: int| 0 <= i < rows.len() && 0 <= j < rows.len() && i
        != j implies rows[i] != rows[j] by {
        if rows[i] == rows[j] {
            let row = rows[i];
            if i < a.len() {
                assert(a[i] == row && a.contains(row));
            } else if i < a.len() + b.len() {
                assert(b[i - a.len()] == row && b.contains(row));
            } else {
                assert(c[i - a.len() - b.len()] == row && c.contains(row));
            }
            if j < a.len() {
                assert(a[j] == row && a.contains(row));
            } else if j < a.len() + b.len() {
                assert(b[j - a.len()] == row && b.contains(row));
            } else {
                assert(c[j - a.len() - b.len()] == row && c.contains(row));
            }
        }
    }
}

proof fn lemma_group(app: AppView, role: PrRole)
    requires
        unique_keys(app.prs),
    ensures
        group_rows(app.prs, app.collapsed, role).no_duplicates(),
        forall|row: RowView| #[trigger]
            group_rows(app.prs, app.collapsed, role).contains(row) <==> match row {
                RowView::Role(other) => other == role,
                RowView::Pr(id) => !app.collapsed.contains(role) && has_key(app.prs, id)
                    && value_of(app.prs, id).role == role,
            },
{
    lemma_pr_rows(app.prs, role);
    let group = group_rows(app.prs, app.collapsed, role);
    let rows = pr_rows(app.prs, role);
    assert forall|row: RowView| #[trigger] group.contains(row) <==> match row {
        RowView::Role(other) => other == role,
        RowView::Pr(id) => !app.collapsed.contains(role) && has_key(app.prs, id) && value_of(
            app.prs,
            id,
        ).role == role,
    } by {
        assert(group[0] == RowView::Role(role));
        if group.contains(row) {
            let k = choose|k: int| 0 <= k < group.len() && group[k] == row;
            if k > 0 {
                assert(rows[k - 1] == row);
                assert(rows.contains(row));
            }
        }
        if let RowView::Pr(id) = row {
            if !app.collapsed.contains(role) && has_key(app.prs, id) && value_of(app.prs, id).role
                == role {
                assert(rows.contains(row));
                let k = choose|k: int| 0 <= k < rows.len() && rows[k] == row;
                assert(group[k + 1] == row);
            }
        }
    }
    assert forall|i: int, j: int| 0 <= i < group.len() && 0 <= j < group.len() && i
        != j implies group[i] != group[j] by {
        if i > 0 {
            assert(group[i] == rows[i - 1]);
        }
        if j > 0 {
            assert(group[j] == rows[j - 1]);
        }
    }
}

proof fn lemma_place(rows: Seq<RowView>, row: RowView, i: int)
    requires
        rows.no_duplicates(),
        0 <= i < rows.len(),
        rows[i] == row,
        rows.len() <= usize::MAX,
    ensures
        place_of(rows, row) == Some(i as usize),
{
    assert(is_first_at(rows, row, i));
    assert(rows.contains(row));
    let k = choose|k: int| is_first_at(rows, row, k);
    assert(rows[k] == rows[i]);
}

/// After a snapshot the same row is selected, wherever it is now; none is where it is gone.
pub proof fn selection_follows_the_row(
    before: AppView,
    payload: PollPayload,
    now: Instant,
    after: AppView,
)
    requires
        follows(before, Message::PollResult(payload), now, after),
        after.rows().len() <= usize::MAX,
    ensures
        after.selected_row() == (match before.selected_row() {
            Some(row) if after.rows().contains(row) => Some(row),
            _ => None,
        }),
{
    if let Some(row) = before.selected_row() {
        if after.rows().contains(row) {
            each_has_one_row(after);
            let i = choose|i: int| 0 <= i < after.rows().len() && after.rows()[i] == row;
            lemma_place(after.rows(), row, i);
        }
    }
}

/// Whether the selected row is one of the rows.
pub open spec fn selects_a_row(app: AppView) -> bool {
    app.selected matches Some(i) ==> i < app.rows().len()
}

proof fn lemma_place_is_a_row(rows: Seq<RowView>, row: RowView)
    requires
        rows.len() <= usize::MAX,
        rows.contains(row),
    ensures
        place_of(rows, row) matches Some(i) && i < rows.len() && rows[i as int] == row,
{
    let i = rows.index_of_first(row)->0;
    rows.index_of_first_ensures(row);
    assert(is_first_at(rows, row, i));
}

proof fn lemma_selecting(app: AppView, row: Option<RowView>)
    requires
        app.rows().len() <= usize::MAX,
    ensures
        selects_a_row(app.selecting(row)),
        app.selecting(row).rows() == app.rows(),
{
    if let Some(row) = row {
        if app.rows().contains(row) {
            lemma_place_is_a_row(app.rows(), row);
        }
    }
}

proof fn lemma_focusing_selects(app: AppView, target: int)
    requires
        app.focusing(target, app.selected_id()).rows().len() <= usize::MAX,
    ensures
        selects_a_row(app.focusing(target, app.selected_id())),
{
    let row = if 0 <= target < app.rows().len() {
        Some(app.rows()[target])
    } else {
        None
    };
    lemma_selecting(app.focusing(target, app.selected_id()), row);
}

proof fn lemma_opening_selects(app: AppView)
    requires
        selects_a_row(app),
        app.opening().rows().len() <= usize::MAX,
    ensures
        selects_a_row(app.opening()),
{
    assert(app.opening().rows().len() >= 3);
}

/// Whatever the message, the selected row is one of the rows.
pub proof fn selection_stays_among_the_rows(
    before: AppView,
    msg: Message,
    now: Instant,
    after: AppView,
)
    requires
        follows(before, msg, now, after),
        selects_a_row(before),
        after.rows().len() <= usize::MAX,
    ensures
        selects_a_row(after),
{
    match msg {
        Message::CiResult(payload) => {
            ci_status_moves_nothing(before, payload, now, after);
        },
        Message::PollResult(_) => {
            lemma_selecting(after, before.selected_row());
        },
        Message::PollError(_) => {},
        Message::Quit => {},
        _ if before.screen is Help => {},
        Message::MoveUp => {
            if before.loading is Loaded {
                let focused = before.focusing(before.row_above(), before.selected_id());
                assert(after.rows() == focused.rows());
                lemma_focusing_selects(before, before.row_above());
            }
        },
        Message::MoveDown => {
            if before.loading is Loaded {
                let focused = before.focusing(before.row_below(), before.selected_id());
                assert(after.rows() == focused.rows());
                lemma_focusing_selects(before, before.row_below());
            }
        },
        Message::ActivateSelected => match before.selected_row() {
            Some(RowView::Role(role)) => {
                assert(after.rows() == before.toggling(role).rows());
                lemma_selecting(before.toggling(role), Some(RowView::Role(role)));
            },
            Some(RowView::Pr(_)) => {
                assert(after.rows() == before.opening().rows());
                lemma_opening_selects(before);
            },
            None => {},
        },
        Message::OpenSelected => {
            assert(after.rows() == before.opening().rows());
            lemma_opening_selects(before);
        },
        _ => {},
    }
}

/// The CI status comes without moving rows or selection, and the result of an older snapshot
/// changes nothing.
pub proof fn ci_status_moves_nothing(
    before: AppView,
    payload: CiPayload,
    now: Instant,
    after: AppView,
)
    requires
        follows(before, Message::CiResult(payload), now, after),
    ensures
        after.rows() == before.rows(),
        after.selected == before.selected,
        after.selected_row() == before.selected_row(),
        payload.generation != before.generation ==> after == before,
{
    if payload.generation == before.generation {
        crate::app::lemma_rows_ignore_ci(
            before.prs,
            |entry: (PrId, PullRequest)| before.checked(entry, payload.statuses@),
            before.collapsed,
        );
    }
}

/// While a poll has not brought the CI status, a pull request has the one that it had only where
/// the head commit is the same; a new or changed commit has none.
pub proof fn ci_status_is_kept_for_the_same_commit(
    before: AppView,
    payload: PollPayload,
    now: Instant,
    after: AppView,
    id: PrIdView,
)
    requires
        follows(before, Message::PollResult(payload), now, after),
        has_key(after.prs, id),
        forall|i: int|
            is_key_at(pr_entries(payload.prs), id, i) ==> (#[trigger] pr_entries(
                payload.prs,
            )[i]).1.ci_status is None,
    ensures
        value_of(after.prs, id).ci_status == (if has_key(before.prs, id) && same_head(
            before.head_shas,
            after.head_shas,
            id,
        ) {
            value_of(before.prs, id).ci_status
        } else {
            None
        }),
{
    snapshot_brings_what_is_accepted(before, payload, now, after, id);
    let i = choose|i: int|
        #![trigger pr_entries(payload.prs)[i]]
        is_key_at(pr_entries(payload.prs), id, i) && value_of(after.prs, id) == pr_entries(
            payload.prs,
        )[i].1.with_ci(before.kept_ci(pr_entries(payload.prs)[i], payload.head_shas@));
    assert(pr_entries(payload.prs)[i].1.ci_status is None);
}

/// Toggling a group turns that group alone, selects its header, calls for a redraw and for saving,
/// and leaves the pull requests as they are.
pub proof fn toggling_turns_one_group(app: AppView, role: PrRole)
    requires
        unique_keys(app.prs),
        app.toggling(role).rows().len() <= usize::MAX,
    ensures
        forall|other: PrRole| #[trigger]
            app.toggling(role).collapsed.contains(other) == (app.collapsed.contains(other) != (other
                == role)),
        app.toggling(role).selected_row() == Some(RowView::Role(role)),
        app.toggling(role).ui_state_dirty,
        app.toggling(role).dirty,
        app.toggling(role).prs == app.prs,
{
    let turned = app.toggling(role);
    each_has_one_row(turned);
    assert(turned.rows().contains(RowView::Role(role)));
    let i = choose|i: int| 0 <= i < turned.rows().len() && turned.rows()[i] == RowView::Role(role);
    lemma_place(turned.rows(), RowView::Role(role), i);
}

/// Collapsing a group and unfolding it again gives the rows back, and keeps its header selected.
pub proof fn toggling_twice_restores(app: AppView, role: PrRole)
    requires
        unique_keys(app.prs),
        app.rows().len() <= usize::MAX,
    ensures
        app.toggling(role).toggling(role).collapsed == app.collapsed,
        app.toggling(role).toggling(role).rows() == app.rows(),
        app.toggling(role).toggling(role).selected_row() == Some(RowView::Role(role)),
        app.toggling(role).prs == app.prs,
{
    let twice = app.toggling(role).toggling(role);
    assert(twice.collapsed =~= app.collapsed);
    each_has_one_row(app);
    assert(app.rows().contains(RowView::Role(role)));
    let i = choose|i: int| 0 <= i < app.rows().len() && app.rows()[i] == RowView::Role(role);
    lemma_place(app.rows(), RowView::Role(role), i);
}

/// Up and down go around the ends, and undo one another.
pub proof fn up_and_down_undo_one_another(app: AppView, i: usize)
    requires
        app.selected == Some(i),
        i < app.rows().len(),
        app.rows().len() <= usize::MAX,
    ensures
        0 <= app.row_above() < app.rows().len(),
        0 <= app.row_below() < app.rows().len(),
        (AppView { selected: Some(app.row_above() as usize), ..app }).row_below() == i,
        (AppView { selected: Some(app.row_below() as usize), ..app }).row_above() == i,
{
}

/// On the help screen no input does more than close it, but for the one that quits.
pub proof fn help_takes_every_input(before: AppView, msg: Message, now: Instant, after: AppView)
    requires
        follows(before, msg, now, after),
        before.screen is Help,
        !(msg is PollResult || msg is PollError || msg is CiResult || msg is Quit),
    ensures
        after == (AppView {
            screen: crate::app::Screen::PrList,
            last_activity: Some(now),
            dirty: true,
            ..before
        }),
{
}

/// A mention that is opened leaves the list and waits to be dismissed; any other pull request stays.
pub proof fn opening_dismisses_mentions(before: AppView, id: PrIdView)
    requires
        before.selected_id() == Some(id),
        has_key(before.prs, id),
    ensures
        before.opening().opens == before.opens.push(value_of(before.prs, id).url@),
        value_of(before.prs, id).role is Mentioned ==> before.opening().dismissals
            == before.dismissals.push(id) && !has_key(before.opening().prs, id),
        !(value_of(before.prs, id).role is Mentioned) ==> before.opening().dismissals
            == before.dismissals && before.opening().prs == before.prs,
        !before.opening().new_prs.contains(id),
        !before.opening().new_comments.contains(id),
{
    others_stay(before.prs, id, id);
}

/// A closed or merged pull request leaves the list for good when the focus moves to another row.
pub proof fn done_ones_leave_with_the_focus(app: AppView, id: PrIdView, target: int)
    requires
        app.selected_id() == Some(id),
        app.is_done(id),
        0 <= target < app.rows().len(),
        app.rows()[target] != RowView::Pr(id),
    ensures
        !has_key(app.focusing(target, app.selected_id()).prs, id),
        app.focusing(target, app.selected_id()).dismissed.contains(id),
        !has_key(app.deselecting().prs, id),
        app.deselecting().dismissed.contains(id),
{
    others_stay(app.prs, id, id);
}

/// The pull request that gets the focus stays in the list and loses its marks; an open one that
/// loses the focus stays too.
pub proof fn focus_keeps_what_is_looked_at(app: AppView, id: PrIdView, target: int)
    requires
        0 <= target < app.rows().len(),
        app.rows()[target] == RowView::Pr(id),
        has_key(app.prs, id),
    ensures
        has_key(app.focusing(target, app.selected_id()).prs, id),
        !app.focusing(target, app.selected_id()).new_prs.contains(id),
        !app.focusing(target, app.selected_id()).new_comments.contains(id),
        app.selected_id() matches Some(previous) ==> !app.is_done(previous) ==> app.focusing(
            target,
            app.selected_id(),
        ).prs == app.prs,
{
    match app.selected_id() {
        Some(previous) => {
            others_stay(app.prs, previous, id);
        },
        None => {},
    }
}

/// The first message of the poller decides: a snapshot loads the list, an error takes its place, and
/// it stays so. Once the program is to end it stays so.
pub proof fn loaded_and_quitting_are_for_good(
    before: AppView,
    msg: Message,
    now: Instant,
    after: AppView,
)
    requires
        follows(before, msg, now, after),
    ensures
        before.loading is Loaded || before.loading is Error ==> after.loading == before.loading,
        !(before.loading is Loaded || before.loading is Error) ==> {
            &&& msg is PollResult ==> after.loading is Loaded
            &&& msg matches Message::PollError(what) ==> after.loading == LoadingView::Error(what@)
            &&& !(msg is PollResult || msg is PollError) ==> after.loading == before.loading
        },
        msg is PollResult ==> after.poll_error is None,
        after.should_quit == (before.should_quit || msg is Quit),
        after.events == before.events,
        after.username == before.username,
        after.colors == before.colors,
{
}

/// An input counts as activity at its time. What the poller sends, the end of the program and the
/// loss of the selection do not, and neither does a move while there is no list.
pub proof fn inputs_are_activity(before: AppView, msg: Message, now: Instant, after: AppView)
    requires
        follows(before, msg, now, after),
    ensures
        msg is PollResult || msg is PollError || msg is CiResult || msg is Quit
            ==> after.last_activity == before.last_activity,
        before.screen is PrList && msg is Deselect ==> after.last_activity == before.last_activity,
        before.screen is PrList && (msg is MoveUp || msg is MoveDown) ==> after.last_activity
            == if before.loading is Loaded {
            Some(now)
        } else {
            before.last_activity
        },
        msg is ActivateSelected || msg is OpenSelected || msg is ToggleHelp || msg is Refresh
            ==> after.last_activity == Some(now),
        before.screen is Help && (msg is MoveUp || msg is MoveDown || msg is Deselect)
            ==> after.last_activity == Some(now),
{
}

// ---------------------------------------------------------------------------
// Marks and notifications

/// The first snapshot marks nothing as new and notifies of nothing.
pub proof fn first_snapshot_is_silent(
    before: AppView,
    payload: PollPayload,
    now: Instant,
    after: AppView,
)
    requires
        follows(before, Message::PollResult(payload), now, after),
        !(before.loading is Loaded),
    ensures
        after.notes == before.notes,
        after.new_prs.subset_of(before.new_prs),
        after.new_comments.subset_of(before.new_comments),
{
}

/// After a snapshot the marks are on pull requests of the list.
pub proof fn marks_are_on_the_list(
    before: AppView,
    payload: PollPayload,
    now: Instant,
    after: AppView,
)
    requires
        follows(before, Message::PollResult(payload), now, after),
    ensures
        after.new_prs.subset_of(key_set(after.prs)),
        after.new_comments.subset_of(key_set(after.prs)),
{
    listing_keeps_entries(
        before.incoming(pr_entries(payload.prs), payload.head_shas@),
        after.prs,
    );
}

/// After a later snapshot a pull request is marked as new exactly where it is in the list and was
/// marked or was not in the list.
pub proof fn new_ones_are_marked(
    before: AppView,
    payload: PollPayload,
    now: Instant,
    after: AppView,
    id: PrIdView,
)
    requires
        follows(before, Message::PollResult(payload), now, after),
        before.loading is Loaded,
    ensures
        after.new_prs.contains(id) <==> has_key(after.prs, id) && (before.new_prs.contains(id)
            || !has_key(before.prs, id)),
{
    let incoming = before.incoming(pr_entries(payload.prs), payload.head_shas@);
    listing_keeps_entries(incoming, after.prs);
    let came = |entry: (PrId, PullRequest)| is_missing(entry, before.prs);
    let new = added_entries(before.prs, incoming);
    lemma_filter_keys(incoming, came, id);
    let views = id_views(ids_of(new));
    assert(has_key(new, id) <==> views.contains(id)) by {
        if has_key(new, id) {
            let k = choose|k: int| is_key_at(new, id, k);
            assert(views[k] == id);
        }
        if views.contains(id) {
            let k = choose|k: int| 0 <= k < views.len() && views[k] == id;
            assert(is_key_at(new, id, k));
        }
    }
    assert(key_set(after.prs).contains(id) == key_set(incoming).contains(id));
    if has_key(incoming, id) && !has_key(before.prs, id) {
        let i = choose|i: int| is_key_at(incoming, id, i);
        assert(came(incoming[i]));
    }
}

proof fn lemma_flat_map_empty(
    entries: Seq<(PrId, PullRequest)>,
    told: spec_fn((PrId, PullRequest)) -> Seq<NoteView>,
)
    requires
        forall|entry: (PrId, PullRequest)| (#[trigger] told(entry)) == Seq::<NoteView>::empty(),
    ensures
        entries.flat_map(told) == Seq::<NoteView>::empty(),
    decreases entries.len(),
{
    if entries.len() == 0 {
        assert(entries.flat_map(told) =~= Seq::empty());
    } else {
        let rest = entries.drop_last();
        lemma_flat_map_empty(rest, told);
        rest.lemma_flat_map_push(told, entries.last());
        assert(entries =~= rest.push(entries.last()));
        assert(entries.flat_map(told) =~= Seq::empty());
    }
}

/// Where every event is switched off, no message leads to a notification.
pub proof fn no_events_no_notifications(before: AppView, msg: Message, now: Instant, after: AppView)
    requires
        follows(before, msg, now, after),
        before.events == Set::<NotifyEvent>::empty(),
    ensures
        after.notes == before.notes,
{
    let events = before.events;
    match msg {
        Message::PollResult(payload) => {
            let prs = before.prs;
            let incoming = before.incoming(pr_entries(payload.prs), payload.head_shas@);
            lemma_flat_map_empty(
                added_entries(prs, incoming),
                |entry: (PrId, PullRequest)| added_notes(entry, events),
            );
            lemma_flat_map_empty(
                updated_entries(prs, incoming),
                |entry: (PrId, PullRequest)| update_notes(prs, entry, events),
            );
            lemma_flat_map_empty(
                incoming,
                |entry: (PrId, PullRequest)|
                    comment_notes(prs, entry, events, before.username),
            );
            lemma_flat_map_empty(
                incoming,
                |entry: (PrId, PullRequest)| polled_ci_notes(prs, entry, events),
            );
            assert(change_notes(prs, incoming, events, before.username) =~= Seq::empty());
            assert(after.notes =~= before.notes);
        },
        Message::CiResult(payload) => {
            let updates = payload.statuses@;
            lemma_flat_map_empty(
                before.prs,
                |entry: (PrId, PullRequest)|
                    ci_notes(entry.1.ci_status, before.checked(entry, updates), events),
            );
            assert(after.notes =~= before.notes);
        },
        _ => {},
    }
}

/// Notifications are only ever added: no message takes one back.
pub proof fn notifications_are_only_added(
    before: AppView,
    msg: Message,
    now: Instant,
    after: AppView,
)
    requires
        follows(before, msg, now, after),
    ensures
        before.notes.len() <= after.notes.len(),
        after.notes.take(before.notes.len() as int) == before.notes,
{
    assert(after.notes.take(before.notes.len() as int) =~= before.notes);
}

// ---------------------------------------------------------------------------
// What each message does

proof fn lemma_others_keep_their_value(
    entries: Seq<(PrId, PullRequest)>,
    id: PrIdView,
    other: PrIdView,
)
    requires
        unique_keys(entries),
        has_key(entries, other),
        other != id,
    ensures
        unique_keys(without_key(entries, id)),
        has_key(without_key(entries, id), other),
        value_of(without_key(entries, id), other) == value_of(entries, other),
{
    let kept = |entry: (PrId, PullRequest)| is_other(entry, id);
    let rest = entries.filter(kept);
    lemma_filter_unique(entries, kept);
    let i = choose|i: int| is_key_at(entries, other, i);
    lemma_key_at(entries, other, i);
    assert(kept(entries[i]));
    entries.lemma_filter_contains(kept, i);
    let k = choose|k: int| 0 <= k < rest.len() && rest[k] == entries[i];
    assert(is_key_at(rest, other, k));
    lemma_key_at(rest, other, k);
}

proof fn lemma_filter_unique(
    entries: Seq<(PrId, PullRequest)>,
    kept: spec_fn((PrId, PullRequest)) -> bool,
)
    requires
        unique_keys(entries),
    ensures
        unique_keys(entries.filter(kept)),
    decreases entries.len(),
{
    if entries.len() == 0 {
        assert(entries.filter(kept) =~= entries);
    } else {
        let rest = entries.drop_last();
        lemma_filter_unique(rest, kept);
        assert(entries =~= rest.push(entries.last()));
        rest.lemma_filter_push(entries.last(), kept);
        let part = rest.filter(kept);
        let more = entries.filter(kept);
        assert forall|i: int, j: int|
            #![trigger more[i], more[j]]
            0 <= i < more.len() && 0 <= j < more.len() && i != j implies more[i].0@
            != more[j].0@ by {
            if i < part.len() {
                assert(part.contains(part[i]));
                rest.lemma_filter_contains_rev(kept, part[i]);
            }
            if j < part.len() {
                assert(part.contains(part[j]));
                rest.lemma_filter_contains_rev(kept, part[j]);
            }
            if i < part.len() && j < part.len() {
                assert(part[i].0@ != part[j].0@);
            } else if i < part.len() {
                let m = choose|m: int| 0 <= m < rest.len() && rest[m] == part[i];
                assert(entries[m].0@ != entries[entries.len() - 1].0@);
            } else if j < part.len() {
                let m = choose|m: int| 0 <= m < rest.len() && rest[m] == part[j];
                assert(entries[m].0@ != entries[entries.len() - 1].0@);
            }
        }
    }
}

/// A move down selects the next row, or the first one behind the last; a move up selects the row
/// before, or the last one before the first. Where nothing is selected, both select the first row.
pub proof fn moves_go_to_the_neighbour(
    before: AppView,
    msg: Message,
    now: Instant,
    after: AppView,
    target: int,
)
    requires
        follows(before, msg, now, after),
        before.screen is PrList,
        before.loading is Loaded,
        unique_keys(before.prs),
        before.rows().len() <= usize::MAX,
        after.rows().len() <= usize::MAX,
        before.selected is None && (msg is MoveDown || msg is MoveUp) && target == 0 || (
        before.selected is Some && before.selected->0 < before.rows().len() && ((msg is MoveDown
            && target == (if before.selected->0 + 1 < before.rows().len() {
            before.selected->0 + 1
        } else {
            0
        })) || (msg is MoveUp && target == (if before.selected->0 > 0 {
            before.selected->0 - 1
        } else {
            before.rows().len() - 1
        })))),
    ensures
        0 <= target < before.rows().len(),
        after.selected_row() == Some(before.rows()[target]),
        after.last_activity == Some(now),
        after.dirty,
{
    each_has_one_row(before);
    assert(after == before.moving(target, now));
    let row = before.rows()[target];
    assert(before.rows().contains(row));
    let focused = before.focusing(target, before.selected_id());
    assert(unique_keys(focused.prs) && focused.rows().contains(row)) by {
        match before.selected_id() {
            Some(previous) => {
                lemma_filter_unique(
                    before.prs,
                    |entry: (PrId, PullRequest)| is_other(entry, previous),
                );
                if let RowView::Pr(id) = row {
                    if id != previous {
                        lemma_others_keep_their_value(before.prs, previous, id);
                    }
                }
            },
            None => {},
        }
        each_has_one_row(focused);
    }
    assert(after.rows() == focused.rows());
    lemma_place_is_a_row(after.rows(), row);
}

/// A move takes the pull request that it leaves out of the list for good where that one is closed or
/// merged, and takes the marks from the pull request that it comes to. Nothing else changes.
pub proof fn moves_leave_the_rest_alone(
    before: AppView,
    msg: Message,
    now: Instant,
    after: AppView,
    target: int,
)
    requires
        follows(before, msg, now, after),
        before.screen is PrList,
        before.loading is Loaded,
        unique_keys(before.prs),
        msg is MoveDown && target == before.row_below() || msg is MoveUp && target
            == before.row_above(),
        0 <= target < before.rows().len(),
    ensures
        after == (AppView {
            prs: after.prs,
            selected: after.selected,
            new_prs: after.new_prs,
            new_comments: after.new_comments,
            dismissed: after.dismissed,
            last_activity: Some(now),
            dirty: true,
            ..before
        }),
        before.rows()[target] matches RowView::Pr(id) ==> after.new_prs == before.new_prs.remove(id)
            && after.new_comments == before.new_comments.remove(id),
        before.rows()[target] is Role ==> after.new_prs == before.new_prs && after.new_comments
            == before.new_comments,
        forall|k: int, p: PrIdView|
            #![trigger before.prs[k], before.dismissed.insert(p)]
            0 <= k < before.prs.len() && before.prs[k].0@ == p && before.selected_row() == Some(
                RowView::Pr(p),
            ) && before.rows()[target] != RowView::Pr(p) ==> if before.prs[k].1.state
                == PrState::Closed || before.prs[k].1.state == PrState::Merged {
                &&& after.dismissed == before.dismissed.insert(p)
                &&& forall|x: PrIdView| #[trigger]
                    has_key(after.prs, x) <==> has_key(before.prs, x) && x != p
            } else {
                after.dismissed == before.dismissed && after.prs == before.prs
            },
        !(before.selected_row() matches Some(row) && row is Pr) || before.selected_row() == Some(
            before.rows()[target],
        ) ==> after.dismissed == before.dismissed && after.prs == before.prs,
{
    assert forall|k: int, p: PrIdView|
        #![trigger before.prs[k], before.dismissed.insert(p)]
        0 <= k < before.prs.len() && before.prs[k].0@ == p && before.selected_row() == Some(
            RowView::Pr(p),
        ) && before.rows()[target] != RowView::Pr(p) implies (if before.prs[k].1.state
        == PrState::Closed || before.prs[k].1.state == PrState::Merged {
        &&& after.dismissed == before.dismissed.insert(p)
        &&& forall|x: PrIdView| #[trigger]
            has_key(after.prs, x) <==> has_key(before.prs, x) && x != p
    } else {
        after.dismissed == before.dismissed && after.prs == before.prs
    }) by {
        assert(is_key_at(before.prs, p, k));
        lemma_key_at(before.prs, p, k);
        if before.prs[k].1.state == PrState::Closed || before.prs[k].1.state == PrState::Merged {
            assert(after.prs == without_key(before.prs, p));
            assert forall|x: PrIdView| #[trigger] has_key(after.prs, x) <==> has_key(before.prs, x)
                && x != p by {
                others_stay(before.prs, p, x);
            }
        }
    }
}

/// While there is no list, moves do nothing.
pub proof fn moves_wait_for_the_list(before: AppView, msg: Message, now: Instant, after: AppView)
    requires
        follows(before, msg, now, after),
        before.screen is PrList,
        !(before.loading is Loaded),
        msg is MoveUp || msg is MoveDown,
    ensures
        after == before,
{
}

/// Opening asks for the address of the selected pull request and takes its marks. A mention then
/// leaves the list, waits to be dismissed, and the selection stays at its place, or goes to the last
/// row; any other stays, and so does the selection. On a header, or without a selection, nothing is
/// opened. Nothing else changes.
pub proof fn opening_opens_the_selected_one(
    before: AppView,
    now: Instant,
    after: AppView,
    k: int,
)
    requires
        follows(before, Message::OpenSelected, now, after),
        before.screen is PrList,
        unique_keys(before.prs),
        0 <= k < before.prs.len(),
        before.selected_row() == Some(RowView::Pr(before.prs[k].0@)),
        after.rows().len() <= usize::MAX,
    ensures
        ({
            let id = before.prs[k].0@;
            let pr = before.prs[k].1;
            &&& after.opens == before.opens.push(pr.url@)
            &&& after.new_prs == before.new_prs.remove(id)
            &&& after.new_comments == before.new_comments.remove(id)
            &&& after.last_activity == Some(now)
            &&& pr.role == PrRole::Mentioned ==> {
                &&& after.dismissals == before.dismissals.push(id)
                &&& forall|x: PrIdView| #[trigger]
                    has_key(after.prs, x) <==> has_key(before.prs, x) && x != id
                &&& after.selected == Some(
                    if before.selected->0 < after.rows().len() {
                        before.selected->0
                    } else {
                        (after.rows().len() - 1) as usize
                    },
                )
                &&& after.dirty
            }
            &&& pr.role != PrRole::Mentioned ==> {
                &&& after.dismissals == before.dismissals
                &&& after.prs == before.prs
                &&& after.selected == before.selected
                &&& after.dirty == (before.dirty || before.new_prs.contains(id)
                    || before.new_comments.contains(id))
            }
            &&& after == (AppView {
                prs: after.prs,
                selected: after.selected,
                opens: after.opens,
                dismissals: after.dismissals,
                new_prs: after.new_prs,
                new_comments: after.new_comments,
                dirty: after.dirty,
                last_activity: after.last_activity,
                ..before
            })
        }),
{
    let id = before.prs[k].0@;
    assert(is_key_at(before.prs, id, k));
    lemma_key_at(before.prs, id, k);
    if before.prs[k].1.role == PrRole::Mentioned {
        assert(after.prs == without_key(before.prs, id));
        assert forall|x: PrIdView| #[trigger] has_key(after.prs, x) <==> has_key(before.prs, x) && x
            != id by {
            others_stay(before.prs, id, x);
        }
        assert(after.rows().len() >= 3);
    }
}

/// Without a selected pull request nothing is opened; the input only counts as activity.
pub proof fn nothing_is_opened_without_a_selection(before: AppView, now: Instant, after: AppView)
    requires
        follows(before, Message::OpenSelected, now, after),
        before.screen is PrList,
        !(before.selected_row() matches Some(row) && row is Pr),
    ensures
        after == (AppView { last_activity: Some(now), ..before }),
{
}

/// Activating a pull request does what opening it does; activating a header toggles its group; and
/// without a selection the input only counts as activity.
pub proof fn activating_opens_or_toggles(
    before: AppView,
    now: Instant,
    after: AppView,
    opened: AppView,
)
    requires
        follows(before, Message::ActivateSelected, now, after),
        follows(before, Message::OpenSelected, now, opened),
        before.screen is PrList,
    ensures
        before.selected_row() matches Some(RowView::Pr(_)) ==> after == opened,
        before.selected_row() matches Some(RowView::Role(role)) ==> {
            &&& forall|other: PrRole| #[trigger]
                after.collapsed.contains(other) <==> (before.collapsed.contains(other) != (other
                    == role))
            &&& after.prs == before.prs
            &&& after.opens == before.opens
            &&& after.ui_state_dirty
            &&& after.dirty
            &&& after.last_activity == Some(now)
            &&& after == (AppView {
                collapsed: after.collapsed,
                selected: after.selected,
                ui_state_dirty: true,
                dirty: true,
                last_activity: Some(now),
                ..before
            })
        },
        before.selected_row() is None ==> after == (AppView { last_activity: Some(now), ..before }),
{
}

/// Giving the selection up takes the selected pull request out of the list for good where it is
/// closed or merged, and changes nothing else. Without a selection nothing changes at all.
pub proof fn giving_the_selection_up_drops_done_ones(
    before: AppView,
    now: Instant,
    after: AppView,
    k: int,
)
    requires
        follows(before, Message::Deselect, now, after),
        before.screen is PrList,
        unique_keys(before.prs),
    ensures
        after.selected is None,
        before.selected is None ==> after == before,
        before.selected is Some ==> after == (AppView {
            prs: after.prs,
            dismissed: after.dismissed,
            selected: None,
            dirty: true,
            ..before
        }),
        !(before.selected_row() matches Some(row) && row is Pr) ==> after.prs == before.prs
            && after.dismissed == before.dismissed,
        0 <= k < before.prs.len() && before.selected_row() == Some(RowView::Pr(before.prs[k].0@))
            ==> if before.prs[k].1.state == PrState::Closed || before.prs[k].1.state
            == PrState::Merged {
            &&& after.dismissed == before.dismissed.insert(before.prs[k].0@)
            &&& forall|x: PrIdView| #[trigger]
                has_key(after.prs, x) <==> has_key(before.prs, x) && x != before.prs[k].0@
        } else {
            after.dismissed == before.dismissed && after.prs == before.prs
        },
{
    if 0 <= k < before.prs.len() && before.selected_row() == Some(RowView::Pr(before.prs[k].0@)) {
        let id = before.prs[k].0@;
        assert(is_key_at(before.prs, id, k));
        lemma_key_at(before.prs, id, k);
        if before.prs[k].1.state == PrState::Closed || before.prs[k].1.state == PrState::Merged {
            assert forall|x: PrIdView| #[trigger] has_key(after.prs, x) <==> has_key(before.prs, x)
                && x != id by {
                others_stay(before.prs, id, x);
            }
        }
    }
}

/// Quitting, asking for help and asking for a refresh do just that.
pub proof fn plain_inputs_do_what_they_say(
    before: AppView,
    msg: Message,
    now: Instant,
    after: AppView,
)
    requires
        follows(before, msg, now, after),
    ensures
        msg is Quit ==> after == (AppView { should_quit: true, dirty: true, ..before }),
        before.screen is PrList && msg is ToggleHelp ==> after == (AppView {
            screen: crate::app::Screen::Help,
            last_activity: Some(now),
            dirty: true,
            ..before
        }),
        before.screen is PrList && msg is Refresh ==> after == (AppView {
            status: Some("Refreshing..."@),
            last_activity: Some(now),
            dirty: true,
            ..before
        }),
{
}

/// A failed poll is shown as the error of the last poll, in place of the status message, and changes
/// nothing else but that before the first snapshot it also stands in place of the list.
pub proof fn a_failed_poll_is_shown(before: AppView, what: String, now: Instant, after: AppView)
    requires
        follows(before, Message::PollError(what), now, after),
    ensures
        after == (AppView {
            poll_error: Some(what@),
            status: None,
            loading: after.loading,
            dirty: true,
            ..before
        }),
        before.loading is Initial || before.loading is Loading ==> after.loading
            == LoadingView::Error(what@),
        before.loading is Loaded || before.loading is Error ==> after.loading == before.loading,
{
}

/// The list takes up an entry of a snapshot exactly where its identity did not leave for good, and
/// it is open, or was in the list before. It comes as it is in the snapshot, but for its CI status:
/// where the snapshot has none, it keeps the one that it had, if its head commit is known before and
/// now and is the same.
pub proof fn snapshots_are_taken_up_entry_by_entry(
    before: AppView,
    entries: Seq<(PrId, PullRequest)>,
    entry: (PrId, PullRequest),
    heads: Map<PrIdView, String>,
    old_place: int,
)
    requires
        unique_keys(before.prs),
        (0 <= old_place < before.prs.len() && before.prs[old_place].0@ == entry.0@) || (old_place
            == -1 && forall|j: int|
            0 <= j < before.prs.len() ==> (#[trigger] before.prs[j]).0@ != entry.0@),
    ensures
        before.incoming(Seq::empty(), heads).len() == 0,
        ({
            let id = entry.0@;
            let known = old_place >= 0;
            let wanted = !before.dismissed.contains(id) && (entry.1.state == PrState::Open || (
            before.loading is Loaded && known));
            let keeps = known && entry.1.ci_status is None && before.head_shas.contains_key(id)
                && heads.contains_key(id) && before.head_shas[id]@ == heads[id]@;
            let status = if keeps {
                before.prs[old_place].1.ci_status
            } else {
                entry.1.ci_status
            };
            before.incoming(entries.push(entry), heads) =~= before.incoming(entries, heads)
                + if wanted {
                seq![(entry.0, PullRequest { ci_status: status, ..entry.1 })]
            } else {
                Seq::empty()
            }
        }),
{
    let accepted = |e: (PrId, PullRequest)| before.accepts(e);
    let kept = |e: (PrId, PullRequest)| (e.0, e.1.with_ci(before.kept_ci(e, heads)));
    let none = Seq::<(PrId, PullRequest)>::empty();
    assert(none.filter(accepted) =~= none);
    entries.lemma_filter_push(entry, accepted);
    if old_place >= 0 {
        assert(is_key_at(before.prs, entry.0@, old_place));
        lemma_key_at(before.prs, entry.0@, old_place);
    } else {
        assert(!has_key(before.prs, entry.0@));
    }
}

/// After a snapshot the list holds what it took up, in its order. The time of the poll, the head
/// commits and the number of the snapshot are kept, error and status message are cleared, and what
/// changed against the list before is told, but for the first snapshot. Screen, collapsed groups
/// and what waits to be opened or dismissed stay as they are.
pub proof fn snapshots_replace_the_list(
    before: AppView,
    payload: PollPayload,
    now: Instant,
    after: AppView,
)
    requires
        follows(before, Message::PollResult(payload), now, after),
    ensures
        ({
            let incoming = before.incoming(pr_entries(payload.prs), payload.head_shas@);
            &&& is_listing(incoming, after.prs)
            &&& after.last_poll == Some(payload.polled_at)
            &&& after.poll_error is None
            &&& after.status is None
            &&& after.head_shas == payload.head_shas@
            &&& after.generation == payload.generation
            &&& after.dirty
            &&& before.loading is Loaded ==> after.notes == before.notes + change_notes(
                before.prs,
                incoming,
                before.events,
                before.username,
            )
            &&& !(before.loading is Loaded) ==> after.notes == before.notes
            &&& after == (AppView {
                prs: after.prs,
                selected: after.selected,
                notes: after.notes,
                new_prs: after.new_prs,
                new_comments: after.new_comments,
                last_poll: after.last_poll,
                poll_error: None,
                status: None,
                loading: after.loading,
                head_shas: after.head_shas,
                generation: after.generation,
                dirty: true,
                ..before
            })
        }),
{
}

/// After a later snapshot a pull request is marked as commented exactly where it is in the list and
/// was marked, or is the user's own and has more comments than it had, the last one not by the user.
pub proof fn new_comments_are_marked(
    before: AppView,
    payload: PollPayload,
    now: Instant,
    after: AppView,
    i: int,
    j: int,
)
    requires
        follows(before, Message::PollResult(payload), now, after),
        unique_keys(before.prs),
        unique_keys(pr_entries(payload.prs)),
        0 <= i < after.prs.len(),
        0 <= j < before.prs.len(),
        before.prs[j].0@ == after.prs[i].0@,
    ensures
        after.new_comments.contains(after.prs[i].0@) <==> before.new_comments.contains(
            after.prs[i].0@,
        ) || (before.loading is Loaded && after.prs[i].1.role == PrRole::Author
            && after.prs[i].1.total_comments > before.prs[j].1.total_comments && (
        after.prs[i].1.last_commenter is None || after.prs[i].1.last_commenter->0@
            != before.username)),
{
    let entries = pr_entries(payload.prs);
    let heads = payload.head_shas@;
    let accepted = |e: (PrId, PullRequest)| before.accepts(e);
    let kept = |e: (PrId, PullRequest)| (e.0, e.1.with_ci(before.kept_ci(e, heads)));
    let incoming = before.incoming(entries, heads);
    let taken = entries.filter(accepted);
    lemma_filter_unique(entries, accepted);
    assert forall|a: int, b: int|
        #![trigger incoming[a], incoming[b]]
        0 <= a < incoming.len() && 0 <= b < incoming.len() && a != b implies incoming[a].0@
        != incoming[b].0@ by {
        assert(incoming[a] == kept(taken[a]));
        assert(incoming[b] == kept(taken[b]));
        assert(taken[a].0@ != taken[b].0@);
    }
    listing_keeps_entries(incoming, after.prs);
    assert(after.prs.contains(after.prs[i]));
    let m = choose|m: int| 0 <= m < incoming.len() && incoming[m] == after.prs[i];
    let id = after.prs[i].0@;
    assert(is_key_at(incoming, id, m));
    assert(key_set(incoming).contains(id));
    if before.loading is Loaded {
        marks_are_for_comments_by_others(before.prs, incoming, before.username, m, j);
    }
}

/// The CI result of the last snapshot gives each pull request of the list the status that it has for
/// its head commit, and tells the end of checks. Where it has none for that commit, the pull request
/// stays as it is; and nothing else changes.
pub proof fn ci_results_go_by_head_commit(
    before: AppView,
    payload: CiPayload,
    now: Instant,
    after: AppView,
    i: int,
)
    requires
        follows(before, Message::CiResult(payload), now, after),
        payload.generation == before.generation,
        0 <= i < before.prs.len(),
    ensures
        after.prs.len() == before.prs.len(),
        after.prs[i].0 == before.prs[i].0,
        ({
            let id = before.prs[i].0@;
            let fits = payload.statuses@.contains_key(id) && before.head_shas.contains_key(id)
                && payload.statuses@[id].head_sha@ == before.head_shas[id]@;
            after.prs[i].1 == if fits {
                PullRequest { ci_status: payload.statuses@[id].status, ..before.prs[i].1 }
            } else {
                before.prs[i].1
            }
        }),
        after == (AppView { prs: after.prs, notes: after.notes, dirty: true, ..before }),
        !(before.loading is Loaded) ==> after.notes == before.notes,
{
}

/// What a CI result tells is, pull request by pull request, the end of its checks against the status
/// that it had.
pub proof fn ci_results_tell_the_end_of_checks(
    before: AppView,
    payload: CiPayload,
    now: Instant,
    after: AppView,
)
    requires
        follows(before, Message::CiResult(payload), now, after),
        payload.generation == before.generation,
        before.loading is Loaded,
    ensures
        ({
            let told = |i: int| ci_notes(before.prs[i].1.ci_status, after.prs[i], before.events);
            after.notes == before.notes + Seq::new(before.prs.len(), told).flatten()
        }),
{
    let told = |i: int| ci_notes(before.prs[i].1.ci_status, after.prs[i], before.events);
    let says = |entry: (PrId, PullRequest)|
        ci_notes(
            entry.1.ci_status,
            before.checked(entry, payload.statuses@),
            before.events,
        );
    assert(before.prs.map_values(says) =~= Seq::new(before.prs.len(), told));
    assert(before.prs.flat_map(says) == before.prs.map_values(says).flatten());
}

/// The mentions that were opened are kept in the store with the time at which they are handed over,
/// beside what the store had.
pub proof fn opened_mentions_are_dismissed(
    dismissed: Map<PrIdView, Timestamp>,
    ids: Seq<PrIdView>,
    at: Timestamp,
    id: PrIdView,
)
    ensures
        with_dismissals(dismissed, ids, at).contains_key(id) <==> dismissed.contains_key(id)
            || ids.contains(id),
        ids.contains(id) ==> with_dismissals(dismissed, ids, at)[id] == at,
        !ids.contains(id) && dismissed.contains_key(id) ==> with_dismissals(dismissed, ids, at)[id]
            == dismissed[id],
    decreases ids.len(),
{
    if ids.len() > 0 {
        let rest = ids.drop_last();
        opened_mentions_are_dismissed(dismissed, rest, at, id);
        if ids.contains(id) {
            let i = choose|i: int| 0 <= i < ids.len() && ids[i] == id;
            if i < rest.len() {
                assert(rest[i] == id);
            }
        }
        if rest.contains(id) {
            let i = choose|i: int| 0 <= i < rest.len() && rest[i] == id;
            assert(ids[i] == id);
        }
        if ids.last() == id {
            assert(ids[ids.len() - 1] == id);
        }
    }
}

/// The selected row is the one at the selected place, where there is one; and the selected pull
/// request is that of the row.
pub proof fn the_selection_is_a_place_among_the_rows(app: AppView)
    ensures
        app.selected is None ==> app.selected_row() is None,
        app.selected matches Some(i) && i < app.rows().len() ==> app.selected_row() == Some(
            app.rows()[app.selected->0 as int],
        ),
        app.selected matches Some(i) && i >= app.rows().len() ==> app.selected_row() is None,
        app.selected_row() matches Some(RowView::Pr(id)) ==> app.selected_id() == Some(id),
        !(app.selected_row() matches Some(row) && row is Pr) ==> app.selected_id() is None,
{
}

/// A row is found at the first place at which it stands, and nowhere where it does not.
pub proof fn rows_are_found_at_their_first_place(rows: Seq<RowView>, row: RowView, i: int)
    requires
        rows.len() <= usize::MAX,
    ensures
        place_of(rows, row) is Some <==> rows.contains(row),
        0 <= i < rows.len() && rows[i] == row ==> place_of(rows, row) is Some && place_of(rows, row)->0
            <= i && rows[place_of(rows, row)->0 as int] == row,
{
    if rows.contains(row) {
        lemma_place_is_a_row(rows, row);
        let k = choose|k: int| is_first_at(rows, row, k);
        let first = rows.index_of_first(row)->0;
        rows.index_of_first_ensures(row);
        assert(is_first_at(rows, row, first));
        assert(is_first_at(rows, row, k));
    }
}

} // verus!
