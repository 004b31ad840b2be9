//! The collection of pull requests: an `IndexMap` from identities to pull requests, which keeps its
//! entries in an order of their own, and the order in which the list shows them.
use crate::ids::{has_key, is_key_at, unique_keys, value_of, IdSet};
use crate::text::{lemma_text_order, lemma_text_transitive, text_before, text_less};
use crate::types::{PrId, PrIdView, PrRole, PullRequest};
use indexmap::IndexMap;
use std::cmp::Ordering;
use vstd::prelude::*;

verus! {

/// The map type of the `indexmap` crate.
#[verifier::external_type_specification]
#[verifier::external_body]
#[verifier::reject_recursive_types(K)]
#[verifier::reject_recursive_types(V)]
#[verifier::reject_recursive_types(S)]
pub struct ExIndexMap<K, V, S>(indexmap::IndexMap<K, V, S>);

/// The entries of the map, in its order.
pub uninterp spec fn pr_entries(prs: IndexMap<PrId, PullRequest>) -> Seq<(PrId, PullRequest)>;

/// Whether an entry has another key than `id`.
pub open spec fn is_other(entry: (PrId, PullRequest), id: PrIdView) -> bool {
    entry.0@ != id
}

/// The entries without the key `id`.
pub open spec fn without_key(
    entries: Seq<(PrId, PullRequest)>,
    id: PrIdView,
) -> Seq<(PrId, PullRequest)> {
    entries.filter(|entry: (PrId, PullRequest)| is_other(entry, id))
}

/// The entries after `id` was given the value `value`: a key that is there keeps its place, and a
/// new one goes to the end.
pub open spec fn with_entry(
    entries: Seq<(PrId, PullRequest)>,
    id: PrId,
    value: PullRequest,
) -> Seq<(PrId, PullRequest)> {
    if has_key(entries, id@) {
        let i = choose|i: int| is_key_at(entries, id@, i);
        entries.update(i, (entries[i].0, value))
    } else {
        entries.push((id, value))
    }
}

/// The keys of the entries, as a set.
pub open spec fn key_set(entries: Seq<(PrId, PullRequest)>) -> Set<PrIdView> {
    Set::new(|id: PrIdView| has_key(entries, id))
}

/// Calls `IndexMap::new`, which makes a map without entries.
#[verifier::external_body]
pub(crate) fn no_prs() -> (r: IndexMap<PrId, PullRequest>)
    ensures
        pr_entries(r) == Seq::<(PrId, PullRequest)>::empty(),
{
    IndexMap::new()
}

/// Calls `IndexMap::len`, which counts the entries.
#[verifier::external_body]
pub(crate) fn pr_count(prs: &IndexMap<PrId, PullRequest>) -> (r: usize)
    ensures
        r == pr_entries(*prs).len(),
{
    prs.len()
}

/// Calls `IndexMap::get_index`, which gives the entry at a position of the map's order.
#[verifier::external_body]
pub(crate) fn pr_at(prs: &IndexMap<PrId, PullRequest>, i: usize) -> (r: Option<
    (&PrId, &PullRequest),
>)
    ensures
        r is Some <==> i < pr_entries(*prs).len(),
        r matches Some(entry) ==> *entry.0 == pr_entries(*prs)[i as int].0 && *entry.1
            == pr_entries(*prs)[i as int].1,
{
    prs.get_index(i)
}

/// Calls `IndexMap::get`, which gives the value of the one entry that has an equal key.
#[verifier::external_body]
pub(crate) fn find_pr<'a>(prs: &'a IndexMap<PrId, PullRequest>, id: &PrId) -> (r: Option<
    &'a PullRequest,
>)
    ensures
        r is Some <==> has_key(pr_entries(*prs), id@),
        r matches Some(pr) ==> *pr == value_of(pr_entries(*prs), id@),
{
    prs.get(id)
}

/// Calls `IndexMap::insert`. A key that is there keeps its place and gets the new value; a new key
/// goes to the end with it. The map holds no key twice.
#[verifier::external_body]
pub(crate) fn put_pr(prs: &mut IndexMap<PrId, PullRequest>, id: PrId, pr: PullRequest)
    ensures
        pr_entries(*final(prs)) == with_entry(pr_entries(*old(prs)), id, pr),
        unique_keys(pr_entries(*final(prs))),
{
    prs.insert(id, pr);
}

/// Calls `IndexMap::shift_remove`, which takes the entry of a key out and keeps the order of the
/// others. The map holds no key twice.
#[verifier::external_body]
pub(crate) fn drop_pr(prs: &mut IndexMap<PrId, PullRequest>, id: &PrId)
    ensures
        pr_entries(*final(prs)) == without_key(pr_entries(*old(prs)), id@),
        unique_keys(pr_entries(*final(prs))),
{
    prs.shift_remove(id);
}

/// Calls `IndexMap::retain`, which asks `keep` of every entry and keeps, in their order, those for
/// which it answers `true`. The map holds no key twice.
#[verifier::external_body]
pub(crate) fn keep_prs<F: Fn(&PrId, &PullRequest) -> bool>(
    prs: &mut IndexMap<PrId, PullRequest>,
    keep: F,
)
    requires
        forall|id: &PrId, pr: &PullRequest| call_requires(keep, (id, pr)),
    ensures
        forall|kept: spec_fn((PrId, PullRequest)) -> bool|
            (forall|id: PrId, pr: PullRequest, answer: bool|
                call_ensures(keep, (&id, &pr), answer) ==> answer == kept((id, pr)))
                ==> pr_entries(*final(prs)) == #[trigger] pr_entries(*old(prs)).filter(kept),
        unique_keys(pr_entries(*final(prs))),
{
    prs.retain(|id, pr| keep(id, pr));
}

/// The identities of the pull requests.
pub fn keys_of_prs(prs: &IndexMap<PrId, PullRequest>) -> (r: IdSet)
    ensures
        r.wf(),
        r@ == key_set(pr_entries(*prs)),
{
    let ghost entries = pr_entries(*prs);
    let mut keys = IdSet::new();
    let count = pr_count(prs);
    for i in 0..count
        invariant
            keys.wf(),
            entries == pr_entries(*prs),
            count == entries.len(),
            forall|id: PrIdView|
                keys@.contains(id) <==> exists|j: int| j < i && is_key_at(entries, id, j),
    {
        let ghost before = keys@;
        if let Some((id, _)) = pr_at(prs, i) {
            keys.insert(id.clone());
        }
        assert forall|id: PrIdView|
            keys@.contains(id) <==> exists|j: int| j < i + 1 && is_key_at(entries, id, j) by {
            if before.contains(id) {
                let j = choose|j: int| j < i && is_key_at(entries, id, j);
                assert(j < i + 1 && is_key_at(entries, id, j));
            }
            if id == entries[i as int].0@ {
                assert(is_key_at(entries, id, i as int));
            }
        }
    }
    assert(keys@ =~= key_set(entries));
    keys
}

// ---------------------------------------------------------------------------
// The order of the list

/// The place of a role among the groups of the list.
pub open spec fn rank(role: PrRole) -> u8 {
    match role {
        PrRole::Author => 0,
        PrRole::ReviewRequested => 1,
        PrRole::Mentioned => 2,
    }
}

/// The place of a role among the groups of the list.
pub fn role_rank(role: PrRole) -> (r: u8)
    ensures
        r == rank(role),
{
    match role {
        PrRole::Author => 0,
        PrRole::ReviewRequested => 1,
        PrRole::Mentioned => 2,
    }
}

/// Whether the first entry stands before the second in the list: by role, then by repository, then
/// by number, then by owner, the last three descending.
pub open spec fn listed_before(a: (PrId, PullRequest), b: (PrId, PullRequest)) -> bool {
    if rank(a.1.role) != rank(b.1.role) {
        rank(a.1.role) < rank(b.1.role)
    } else if a.0.repo@ != b.0.repo@ {
        text_less(b.0.repo@, a.0.repo@)
    } else if a.0.number != b.0.number {
        b.0.number < a.0.number
    } else {
        text_less(b.0.owner@, a.0.owner@)
    }
}

/// Which of two entries stands first in the list.
pub fn list_order(id_a: &PrId, pr_a: &PullRequest, id_b: &PrId, pr_b: &PullRequest) -> (r: Ordering)
    ensures
        r is Less <==> listed_before((*id_a, *pr_a), (*id_b, *pr_b)),
        r is Greater <==> listed_before((*id_b, *pr_b), (*id_a, *pr_a)),
{
    proof {
        lemma_text_order(id_a.repo@, id_b.repo@);
        lemma_text_order(id_a.owner@, id_b.owner@);
    }
    let rank_a: u8 = role_rank(pr_a.role);
    let rank_b: u8 = role_rank(pr_b.role);
    if rank_a < rank_b {
        Ordering::Less
    } else if rank_b < rank_a {
        Ordering::Greater
    } else if text_before(id_b.repo.as_str(), id_a.repo.as_str()) {
        Ordering::Less
    } else if text_before(id_a.repo.as_str(), id_b.repo.as_str()) {
        Ordering::Greater
    } else if id_b.number < id_a.number {
        Ordering::Less
    } else if id_a.number < id_b.number {
        Ordering::Greater
    } else if text_before(id_b.owner.as_str(), id_a.owner.as_str()) {
        Ordering::Less
    } else if text_before(id_a.owner.as_str(), id_b.owner.as_str()) {
        Ordering::Greater
    } else {
        Ordering::Equal
    }
}

/// Whether the entries stand in the order of the list.
pub open spec fn in_list_order(entries: Seq<(PrId, PullRequest)>) -> bool {
    forall|i: int, j: int|
        #![trigger entries[i], entries[j]]
        0 <= i < j < entries.len() ==> !listed_before(entries[j], entries[i])
}

/// Whether `sorted` holds the entries of `entries` in the order of the list.
pub open spec fn is_listing(
    entries: Seq<(PrId, PullRequest)>,
    sorted: Seq<(PrId, PullRequest)>,
) -> bool {
    &&& sorted.to_multiset() == entries.to_multiset()
    &&& in_list_order(sorted)
    &&& unique_keys(sorted)
}

/// Calls `IndexMap::sort_by` with the order of the list, which rearranges the entries and puts none
/// after one that compares as greater. The map holds no key twice.
#[verifier::external_body]
pub(crate) fn sort_prs(prs: &mut IndexMap<PrId, PullRequest>)
    ensures
        is_listing(pr_entries(*old(prs)), pr_entries(*final(prs))),
{
    prs.sort_by(|id_a, pr_a, id_b, pr_b| list_order(id_a, pr_a, id_b, pr_b));
}

/// The order of the list is a strict order, and total on entries of different keys.
pub proof fn list_order_is_total(
    a: (PrId, PullRequest),
    b: (PrId, PullRequest),
    c: (PrId, PullRequest),
)
    ensures
        !listed_before(a, a),
        listed_before(a, b) && listed_before(b, c) ==> listed_before(a, c),
        a.0@ != b.0@ ==> listed_before(a, b) || listed_before(b, a),
        !(listed_before(a, b) && listed_before(b, a)),
{
    lemma_text_order(a.0.repo@, b.0.repo@);
    lemma_text_order(a.0.owner@, b.0.owner@);
    lemma_text_order(b.0.repo@, c.0.repo@);
    lemma_text_order(b.0.owner@, c.0.owner@);
    lemma_text_order(a.0.repo@, c.0.repo@);
    lemma_text_order(a.0.owner@, c.0.owner@);
    if text_less(c.0.repo@, b.0.repo@) && text_less(b.0.repo@, a.0.repo@) {
        lemma_text_transitive(c.0.repo@, b.0.repo@, a.0.repo@);
    }
    if text_less(c.0.owner@, b.0.owner@) && text_less(b.0.owner@, a.0.owner@) {
        lemma_text_transitive(c.0.owner@, b.0.owner@, a.0.owner@);
    }
    if a.0@ != b.0@ {
        assert(a.0.repo@ != b.0.repo@ || a.0.owner@ != b.0.owner@ || a.0.number != b.0.number) by {
            if a.0.repo@ == b.0.repo@ && a.0.owner@ == b.0.owner@ && a.0.number == b.0.number {
                assert(a.0@ =~= b.0@);
            }
        }
    }
}

/// Entries can be put into the order of the list in one way only.
pub proof fn listing_is_unique(
    entries: Seq<(PrId, PullRequest)>,
    one: Seq<(PrId, PullRequest)>,
    other: Seq<(PrId, PullRequest)>,
)
    requires
        is_listing(entries, one),
        is_listing(entries, other),
    ensures
        one == other,
{
    lemma_listing_unique(one, other);
}

proof fn lemma_listing_unique(one: Seq<(PrId, PullRequest)>, other: Seq<(PrId, PullRequest)>)
    requires
        one.to_multiset() == other.to_multiset(),
        in_list_order(one),
        in_list_order(other),
        unique_keys(one),
        unique_keys(other),
    ensures
        one == other,
    decreases one.len(),
{
    broadcast use vstd::seq_lib::group_to_multiset_ensures;
    one.to_multiset_ensures();
    other.to_multiset_ensures();
    assert(one.len() == other.len());
    if one.len() == 0 {
        assert(one =~= other);
    } else {
        let a = one.last();
        let b = other.last();
        assert(one.contains(a));
        assert(other.to_multiset().count(a) > 0);
        assert(other.contains(a));
        assert(other.contains(b));
        assert(one.to_multiset().count(b) > 0);
        assert(one.contains(b));
        let i = choose|i: int| 0 <= i < other.len() && other[i] == a;
        let j = choose|j: int| 0 <= j < one.len() && one[j] == b;
        if a != b {
            assert(i < other.len() - 1);
            assert(j < one.len() - 1);
            assert(!listed_before(b, a));
            assert(!listed_before(a, b));
            assert(one[j].0@ != one[one.len() - 1].0@);
            list_order_is_total(a, b, b);
            assert(false);
        }
        let one_rest = one.drop_last();
        let other_rest = other.drop_last();
        assert(one =~= one_rest.push(a));
        assert(other =~= other_rest.push(b));
        assert(one_rest.to_multiset() =~= one.to_multiset().remove(a));
        assert(other_rest.to_multiset() =~= other.to_multiset().remove(a));
        lemma_listing_unique(one_rest, other_rest);
    }
}

/// An entry of a listing is an entry of what was listed, and the other way round.
pub proof fn listing_keeps_entries(
    entries: Seq<(PrId, PullRequest)>,
    sorted: Seq<(PrId, PullRequest)>,
)
    requires
        is_listing(entries, sorted),
    ensures
        sorted.len() == entries.len(),
        forall|entry: (PrId, PullRequest)| #[trigger]
            sorted.contains(entry) <==> entries.contains(entry),
        key_set(sorted) == key_set(entries),
{
    sorted.to_multiset_ensures();
    entries.to_multiset_ensures();
    assert forall|entry: (PrId, PullRequest)| #[trigger] sorted.contains(entry)
        <==> entries.contains(entry) by {
        assert(sorted.to_multiset().count(entry) == entries.to_multiset().count(entry));
    }
    assert forall|id: PrIdView| has_key(sorted, id) <==> has_key(entries, id) by {
        if has_key(sorted, id) {
            let i = choose|i: int| is_key_at(sorted, id, i);
            assert(sorted.contains(sorted[i]));
            let j = choose|j: int| 0 <= j < entries.len() && entries[j] == sorted[i];
            assert(is_key_at(entries, id, j));
        }
        if has_key(entries, id) {
            let i = choose|i: int| is_key_at(entries, id, i);
            assert(entries.contains(entries[i]));
            assert(sorted.contains(entries[i]));
            let j = choose|j: int| 0 <= j < sorted.len() && sorted[j] == entries[i];
            assert(is_key_at(sorted, id, j));
        }
    }
    assert(key_set(sorted) =~= key_set(entries));
}

/// One entry stands before another where it is of an earlier group: the own ones, then the reviews,
/// then the mentions. Within a group the greater repository name goes first, then the greater
/// number, then the greater owner name.
pub proof fn entries_are_ordered_by_group_and_name(
    a: (PrId, PullRequest),
    b: (PrId, PullRequest),
)
    ensures
        a.1.role == PrRole::Author && b.1.role != PrRole::Author ==> listed_before(a, b)
            && !listed_before(b, a),
        a.1.role == PrRole::ReviewRequested && b.1.role == PrRole::Mentioned ==> listed_before(a, b)
            && !listed_before(b, a),
        a.1.role == b.1.role && text_less(b.0.repo@, a.0.repo@) ==> listed_before(a, b)
            && !listed_before(b, a),
        a.1.role == b.1.role && a.0.repo@ == b.0.repo@ && a.0.number > b.0.number ==> listed_before(
            a,
            b,
        ) && !listed_before(b, a),
        a.1.role == b.1.role && a.0.repo@ == b.0.repo@ && a.0.number == b.0.number && text_less(
            b.0.owner@,
            a.0.owner@,
        ) ==> listed_before(a, b) && !listed_before(b, a),
{
    lemma_text_order(a.0.repo@, b.0.repo@);
    lemma_text_order(a.0.owner@, b.0.owner@);
}

/// In the list no own one stands behind another group, and no review behind a mention; and within a
/// group repositories, and their numbers, go down.
pub proof fn the_list_is_grouped_and_goes_down(
    entries: Seq<(PrId, PullRequest)>,
    sorted: Seq<(PrId, PullRequest)>,
    i: int,
    j: int,
)
    requires
        is_listing(entries, sorted),
        0 <= i < j < sorted.len(),
    ensures
        sorted[j].1.role == PrRole::Author ==> sorted[i].1.role == PrRole::Author,
        sorted[i].1.role == PrRole::Mentioned ==> sorted[j].1.role == PrRole::Mentioned,
        sorted[i].1.role == sorted[j].1.role ==> !text_less(sorted[i].0.repo@, sorted[j].0.repo@),
        sorted[i].1.role == sorted[j].1.role && sorted[i].0.repo@ == sorted[j].0.repo@
            ==> sorted[i].0.number >= sorted[j].0.number,
        sorted[i].1.role == sorted[j].1.role && sorted[i].0.repo@ == sorted[j].0.repo@
            && sorted[i].0.number == sorted[j].0.number ==> text_less(
            sorted[j].0.owner@,
            sorted[i].0.owner@,
        ),
{
    let a = sorted[i];
    let b = sorted[j];
    assert(!listed_before(b, a));
    entries_are_ordered_by_group_and_name(b, a);
    lemma_text_order(a.0.repo@, b.0.repo@);
    lemma_text_order(a.0.owner@, b.0.owner@);
    assert(a.0@ != b.0@);
    if a.0.repo@ == b.0.repo@ && a.0.number == b.0.number && a.0.owner@ == b.0.owner@ {
        assert(a.0@ =~= b.0@);
    }
}

} // verus!
