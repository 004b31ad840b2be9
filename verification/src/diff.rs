//! What changed between two collections of pull requests.
use crate::ids::{has_key, is_key_at, lemma_key_at, unique_keys, value_of};
use crate::pr_map::{find_pr, pr_at, pr_count, pr_entries};
use crate::types::{PrId, PullRequest};
use indexmap::IndexMap;
use vstd::prelude::*;

verus! {

/// The identities that came, went, and changed.
#[derive(Debug)]
pub struct DiffResult {
    pub added: Vec<PrId>,
    pub removed: Vec<PrId>,
    pub updated: Vec<PrId>,
}

impl Default for DiffResult {
    fn default() -> (r: DiffResult)
        ensures
            r.added@.len() == 0,
            r.removed@.len() == 0,
            r.updated@.len() == 0,
    {
        DiffResult { added: Vec::new(), removed: Vec::new(), updated: Vec::new() }
    }
}

/// The identities of the entries, in order.
pub open spec fn ids_of(entries: Seq<(PrId, PullRequest)>) -> Seq<PrId> {
    entries.map_values(|entry: (PrId, PullRequest)| entry.0)
}

/// Whether an entry of the one collection is missing in the other.
pub open spec fn is_missing(entry: (PrId, PullRequest), entries: Seq<(PrId, PullRequest)>) -> bool {
    !has_key(entries, entry.0@)
}

/// The entries of `current` that `previous` does not have.
pub open spec fn added_entries(
    previous: Seq<(PrId, PullRequest)>,
    current: Seq<(PrId, PullRequest)>,
) -> Seq<(PrId, PullRequest)> {
    current.filter(|entry: (PrId, PullRequest)| is_missing(entry, previous))
}

/// Whether an entry is in `previous` with another time of its last update.
pub open spec fn is_update(entry: (PrId, PullRequest), previous: Seq<(PrId, PullRequest)>) -> bool {
    has_key(previous, entry.0@) && value_of(previous, entry.0@).updated_at != entry.1.updated_at
}

/// The entries of `current` that `previous` has with another time of their last update.
pub open spec fn updated_entries(
    previous: Seq<(PrId, PullRequest)>,
    current: Seq<(PrId, PullRequest)>,
) -> Seq<(PrId, PullRequest)> {
    current.filter(|entry: (PrId, PullRequest)| is_update(entry, previous))
}

/// What came, went and changed from `previous` to `current`. A pull request has changed where the
/// time of its last update has.
pub fn diff_pr_sets(
    previous: &IndexMap<PrId, PullRequest>,
    current: &IndexMap<PrId, PullRequest>,
) -> (r: DiffResult)
    ensures
        r.added@ == ids_of(added_entries(pr_entries(*previous), pr_entries(*current))),
        r.updated@ == ids_of(updated_entries(pr_entries(*previous), pr_entries(*current))),
        r.removed@ == ids_of(added_entries(pr_entries(*current), pr_entries(*previous))),
{
    let mut result = DiffResult::default();
    let ghost before = pr_entries(*previous);
    let ghost after = pr_entries(*current);
    let ghost came = |entry: (PrId, PullRequest)| is_missing(entry, before);
    let ghost changed = |entry: (PrId, PullRequest)| is_update(entry, before);
    let ghost went = |entry: (PrId, PullRequest)| is_missing(entry, after);
    let count = pr_count(current);
    assert(ids_of(after.take(0).filter(came)) =~= Seq::empty());
    assert(ids_of(after.take(0).filter(changed)) =~= Seq::empty());
    for i in 0..count
        invariant
            count == after.len(),
            before == pr_entries(*previous),
            after == pr_entries(*current),
            came == |entry: (PrId, PullRequest)| is_missing(entry, before),
            changed == |entry: (PrId, PullRequest)| is_update(entry, before),
            result.added@ == ids_of(after.take(i as int).filter(came)),
            result.updated@ == ids_of(after.take(i as int).filter(changed)),
            result.removed@.len() == 0,
    {
        proof {
            assert(after.take(i + 1) =~= after.take(i as int).push(after[i as int]));
            after.take(i as int).lemma_filter_push(after[i as int], came);
            after.take(i as int).lemma_filter_push(after[i as int], changed);
        }
        if let Some((id, new_pr)) = pr_at(current, i) {
            match find_pr(previous, id) {
                None => {
                    result.added.push(id.clone());
                },
                Some(old_pr) => {
                    if old_pr.updated_at != new_pr.updated_at {
                        result.updated.push(id.clone());
                    }
                },
            }
        }
        assert(result.added@ =~= ids_of(after.take(i + 1).filter(came)));
        assert(result.updated@ =~= ids_of(after.take(i + 1).filter(changed)));
    }
    assert(after.take(after.len() as int) =~= after);
    let count = pr_count(previous);
    assert(ids_of(before.take(0).filter(went)) =~= Seq::empty());
    assert(result.removed@ =~= Seq::empty());
    for i in 0..count
        invariant
            count == before.len(),
            before == pr_entries(*previous),
            after == pr_entries(*current),
            went == |entry: (PrId, PullRequest)| is_missing(entry, after),
            result.added@ == ids_of(added_entries(before, after)),
            result.updated@ == ids_of(updated_entries(before, after)),
            result.removed@ == ids_of(before.take(i as int).filter(went)),
    {
        proof {
            assert(before.take(i + 1) =~= before.take(i as int).push(before[i as int]));
            before.take(i as int).lemma_filter_push(before[i as int], went);
        }
        if let Some((id, _)) = pr_at(previous, i) {
            if find_pr(current, id).is_none() {
                result.removed.push(id.clone());
            }
        }
        assert(result.removed@ =~= ids_of(before.take(i + 1).filter(went)));
    }
    assert(before.take(before.len() as int) =~= before);
    result
}

/// Between a collection and itself nothing came, went or changed.
pub proof fn no_difference_to_itself(entries: Seq<(PrId, PullRequest)>)
    requires
        unique_keys(entries),
    ensures
        added_entries(entries, entries).len() == 0,
        updated_entries(entries, entries).len() == 0,
{
    let came = |entry: (PrId, PullRequest)| is_missing(entry, entries);
    let changed = |entry: (PrId, PullRequest)| is_update(entry, entries);
    assert forall|i: int| 0 <= i < entries.len() implies !came(#[trigger] entries[i]) && !changed(
        entries[i],
    ) by {
        assert(is_key_at(entries, entries[i].0@, i));
        lemma_key_at(entries, entries[i].0@, i);
    }
    if entries.filter(came).len() > 0 {
        entries.lemma_filter_pred(came, 0);
        entries.lemma_filter_contains_rev(came, entries.filter(came)[0]);
    }
    if entries.filter(changed).len() > 0 {
        entries.lemma_filter_pred(changed, 0);
        entries.lemma_filter_contains_rev(changed, entries.filter(changed)[0]);
    }
}

/// Taken entry by entry, in order: an entry came where no entry before has its identity, and changed
/// where one has, with another time of its last update. What went is what came the other way round.
pub proof fn entries_come_and_change_one_by_one(
    previous: Seq<(PrId, PullRequest)>,
    current: Seq<(PrId, PullRequest)>,
    entry: (PrId, PullRequest),
)
    ensures
        ids_of(added_entries(previous, Seq::empty())).len() == 0,
        ids_of(updated_entries(previous, Seq::empty())).len() == 0,
        (forall|j: int| 0 <= j < previous.len() ==> (#[trigger] previous[j]).0@ != entry.0@) ==> {
            &&& ids_of(added_entries(previous, current.push(entry))) == ids_of(
                added_entries(previous, current),
            ).push(entry.0)
            &&& ids_of(updated_entries(previous, current.push(entry))) == ids_of(
                updated_entries(previous, current),
            )
        },
{
    let came = |e: (PrId, PullRequest)| is_missing(e, previous);
    let changed = |e: (PrId, PullRequest)| is_update(e, previous);
    let none = Seq::<(PrId, PullRequest)>::empty();
    assert(none.filter(came) =~= none);
    assert(none.filter(changed) =~= none);
    current.lemma_filter_push(entry, came);
    current.lemma_filter_push(entry, changed);
    if forall|j: int| 0 <= j < previous.len() ==> (#[trigger] previous[j]).0@ != entry.0@ {
        assert(!has_key(previous, entry.0@));
        assert(ids_of(added_entries(previous, current.push(entry))) =~= ids_of(
            added_entries(previous, current),
        ).push(entry.0));
    }
}

/// A further entry whose identity is there already did not come. It changed exactly where the time
/// of its last update is another one.
pub proof fn known_entries_change_with_their_time(
    previous: Seq<(PrId, PullRequest)>,
    current: Seq<(PrId, PullRequest)>,
    entry: (PrId, PullRequest),
    j: int,
)
    requires
        unique_keys(previous),
        0 <= j < previous.len(),
        previous[j].0@ == entry.0@,
    ensures
        ids_of(added_entries(previous, current.push(entry))) == ids_of(
            added_entries(previous, current),
        ),
        ids_of(updated_entries(previous, current.push(entry))) == (if previous[j].1.updated_at.secs
            == entry.1.updated_at.secs && previous[j].1.updated_at.nanos
            == entry.1.updated_at.nanos {
            ids_of(updated_entries(previous, current))
        } else {
            ids_of(updated_entries(previous, current)).push(entry.0)
        }),
{
    let came = |e: (PrId, PullRequest)| is_missing(e, previous);
    let changed = |e: (PrId, PullRequest)| is_update(e, previous);
    lemma_key_at(previous, entry.0@, j);
    current.lemma_filter_push(entry, came);
    current.lemma_filter_push(entry, changed);
    assert(ids_of(updated_entries(previous, current.push(entry))) =~= (
    if previous[j].1.updated_at.secs == entry.1.updated_at.secs && previous[j].1.updated_at.nanos
        == entry.1.updated_at.nanos {
        ids_of(updated_entries(previous, current))
    } else {
        ids_of(updated_entries(previous, current)).push(entry.0)
    }));
}

} // verus!
