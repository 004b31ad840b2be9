//! Sets and maps over the identities of pull requests.
use crate::types::{PrId, PrIdView};
use vstd::prelude::*;

verus! {

/// The identities that a sequence of them stands for.
pub open spec fn id_views(ids: Seq<PrId>) -> Seq<PrIdView> {
    ids.map_values(|id: PrId| id@)
}

/// A set of identities. They are kept in the order in which they came in, each of them once.
#[derive(Debug)]
pub struct IdSet {
    ids: Vec<PrId>,
}

impl View for IdSet {
    type V = Set<PrIdView>;

    closed spec fn view(&self) -> Set<PrIdView> {
        id_views(self.ids@).to_set()
    }
}

impl IdSet {
    /// No identity is kept twice.
    pub closed spec fn wf(&self) -> bool {
        id_views(self.ids@).no_duplicates()
    }

    /// The identities in the order in which they came in.
    pub closed spec fn order(&self) -> Seq<PrIdView> {
        id_views(self.ids@)
    }

    /// The order lists the members, each of them once.
    pub proof fn order_lists_members(&self)
        requires
            self.wf(),
        ensures
            self.order().no_duplicates(),
            self.order().to_set() == self@,
            self@.finite(),
            self@.len() == self.order().len(),
    {
        self.order().unique_seq_to_set();
    }

    /// The empty set.
    pub fn new() -> (r: IdSet)
        ensures
            r.wf(),
            r@ == Set::<PrIdView>::empty(),
            r.order() == Seq::<PrIdView>::empty(),
    {
        let r = IdSet { ids: Vec::new() };
        assert(id_views(r.ids@) =~= Seq::empty());
        assert(r@ =~= Set::empty());
        r
    }

    fn position(&self, id: &PrId) -> (r: Option<usize>)
        ensures
            r matches Some(i) ==> i < self.ids@.len() && self.ids@[i as int]@ == id@,
            r is Some <==> self@.contains(id@),
    {
        for i in 0..self.ids.len()
            invariant
                forall|j: int| 0 <= j < i ==> #[trigger] self.ids@[j]@ != id@,
        {
            if self.ids[i] == *id {
                assert(id_views(self.ids@)[i as int] == id@);
                return Some(i);
            }
        }
        proof {
            if self@.contains(id@) {
                let j = choose|j: int| 0 <= j < self.ids@.len() && id_views(self.ids@)[j] == id@;
                assert(self.ids@[j]@ == id@);
            }
        }
        None
    }

    pub fn contains(&self, id: &PrId) -> (r: bool)
        ensures
            r == self@.contains(id@),
    {
        self.position(id).is_some()
    }

    pub fn len(&self) -> (r: usize)
        requires
            self.wf(),
        ensures
            r == self@.len(),
    {
        proof {
            self.order_lists_members();
        }
        self.ids.len()
    }

    pub fn is_empty(&self) -> (r: bool)
        ensures
            r == (self@ == Set::<PrIdView>::empty()),
    {
        proof {
            if self.ids@.len() == 0 {
                assert(self@ =~= Set::empty());
            } else {
                assert(id_views(self.ids@)[0] == self.ids@[0]@);
                assert(self@.contains(self.ids@[0]@));
            }
        }
        self.ids.len() == 0
    }

    /// Adds `id`, and says whether it was missing.
    pub fn insert(&mut self, id: PrId) -> (r: bool)
        requires
            old(self).wf(),
        ensures
            final(self).wf(),
            final(self)@ == old(self)@.insert(id@),
            r == !old(self)@.contains(id@),
            final(self).order() == if r {
                old(self).order().push(id@)
            } else {
                old(self).order()
            },
    {
        if self.contains(&id) {
            assert(self@.insert(id@) =~= self@);
            return false;
        }
        let ghost before = id_views(self.ids@);
        let ghost member = id@;
        self.ids.push(id);
        proof {
            assert(id_views(self.ids@) =~= before.push(member));
            before.lemma_push_to_set_commute(member);
            assert forall|i: int, j: int|
                0 <= i < self.ids@.len() && 0 <= j < self.ids@.len() && i != j implies id_views(
                self.ids@,
            )[i] != id_views(self.ids@)[j] by {
                if i == before.len() {
                    assert(before.contains(before[j]));
                } else if j == before.len() {
                    assert(before.contains(before[i]));
                }
            }
        }
        true
    }

    /// Takes `id` out, and says whether it was there.
    pub fn remove(&mut self, id: &PrId) -> (r: bool)
        requires
            old(self).wf(),
        ensures
            final(self).wf(),
            final(self)@ == old(self)@.remove(id@),
            r == old(self)@.contains(id@),
    {
        match self.position(id) {
            None => {
                assert(self@.remove(id@) =~= self@);
                false
            },
            Some(i) => {
                let ghost before = id_views(self.ids@);
                self.ids.remove(i);
                proof {
                    let after = id_views(self.ids@);
                    assert(after =~= before.remove(i as int));
                    assert forall|x: PrIdView| after.to_set().contains(x) <==> before.to_set().remove(
                        id@,
                    ).contains(x) by {
                        if after.contains(x) {
                            let j = choose|j: int| 0 <= j < after.len() && after[j] == x;
                            let k = if j < i { j } else { j + 1 };
                            assert(before[k] == x);
                            assert(before[k] != before[i as int]);
                        }
                        if before.contains(x) && x != id@ {
                            let j = choose|j: int| 0 <= j < before.len() && before[j] == x;
                            let k = if j < i { j } else { j - 1 };
                            assert(after[k] == x);
                        }
                    }
                    assert(self@ =~= old(self)@.remove(id@));
                }
                true
            },
        }
    }

    /// Takes every identity out that `keep` does not hold.
    pub fn retain_in(&mut self, keep: &IdSet)
        requires
            old(self).wf(),
        ensures
            final(self).wf(),
            final(self)@ == old(self)@.intersect(keep@),
    {
        let mut kept = IdSet::new();
        let ghost before = id_views(self.ids@);
        assert(before.take(0).to_set() =~= Set::empty());
        assert(before.take(0).to_set().intersect(keep@) =~= Set::empty());
        for i in 0..self.ids.len()
            invariant
                kept.wf(),
                before == id_views(self.ids@),
                kept@ == before.take(i as int).to_set().intersect(keep@),
        {
            proof {
                assert(before[i as int] == self.ids@[i as int]@);
                assert(before.take(i + 1) =~= before.take(i as int).push(before[i as int]));
                before.take(i as int).lemma_push_to_set_commute(before[i as int]);
            }
            if keep.contains(&self.ids[i]) {
                kept.insert(self.ids[i].clone());
            }
            assert(kept@ =~= before.take(i + 1).to_set().intersect(keep@));
        }
        assert(before.take(before.len() as int) =~= before);
        *self = kept;
    }

    /// The members, in the order in which they came in.
    pub fn to_vec(&self) -> (r: Vec<PrId>)
        ensures
            id_views(r@) == self.order(),
    {
        let mut out: Vec<PrId> = Vec::new();
        for i in 0..self.ids.len()
            invariant
                out@ == self.ids@.take(i as int),
        {
            out.push(self.ids[i].clone());
            assert(self.ids@.take(i + 1) =~= self.ids@.take(i as int).push(self.ids@[i as int]));
        }
        assert(self.ids@.take(self.ids@.len() as int) =~= self.ids@);
        out
    }
}

impl Clone for IdSet {
    fn clone(&self) -> (r: IdSet)
        ensures
            r@ == self@,
            r.order() == self.order(),
            self.wf() ==> r.wf(),
    {
        IdSet { ids: self.to_vec() }
    }
}

/// The keys of a sequence of entries.
pub open spec fn keys_of<V>(entries: Seq<(PrId, V)>) -> Seq<PrIdView> {
    entries.map_values(|entry: (PrId, V)| entry.0@)
}

/// Where the key `id` stands among the entries.
pub open spec fn is_key_at<V>(entries: Seq<(PrId, V)>, id: PrIdView, i: int) -> bool {
    0 <= i < entries.len() && entries[i].0@ == id
}

/// No key occurs twice.
pub open spec fn unique_keys<V>(entries: Seq<(PrId, V)>) -> bool {
    forall|i: int, j: int|
        #![trigger entries[i], entries[j]]
        0 <= i < entries.len() && 0 <= j < entries.len() && i != j ==> entries[i].0@
            != entries[j].0@
}

pub open spec fn has_key<V>(entries: Seq<(PrId, V)>, id: PrIdView) -> bool {
    exists|i: int| is_key_at(entries, id, i)
}

/// The value that the key `id` has.
pub open spec fn value_of<V>(entries: Seq<(PrId, V)>, id: PrIdView) -> V {
    entries[choose|i: int| is_key_at(entries, id, i)].1
}

/// A key that stands at `i` is the key of the value there.
pub proof fn lemma_key_at<V>(entries: Seq<(PrId, V)>, id: PrIdView, i: int)
    requires
        unique_keys(entries),
        is_key_at(entries, id, i),
    ensures
        has_key(entries, id),
        value_of(entries, id) == entries[i].1,
{
    let j = choose|j: int| is_key_at(entries, id, j);
    assert(entries[i].0@ == entries[j].0@);
}

/// A map from identities to values of one type.
#[derive(Debug)]
pub struct IdMap<V> {
    entries: Vec<(PrId, V)>,
}

impl<V> View for IdMap<V> {
    type V = Map<PrIdView, V>;

    closed spec fn view(&self) -> Map<PrIdView, V> {
        Map::new(
            |id: PrIdView| has_key(self.entries@, id),
            |id: PrIdView| value_of(self.entries@, id),
        )
    }
}

impl<V> IdMap<V> {
    /// No key occurs twice.
    pub closed spec fn wf(&self) -> bool {
        unique_keys(self.entries@)
    }

    /// The entries in the order in which their keys came in.
    pub closed spec fn order(&self) -> Seq<(PrId, V)> {
        self.entries@
    }

    /// The order lists the entries, each of them once.
    pub proof fn order_lists_entries(&self)
        requires
            self.wf(),
        ensures
            unique_keys(self.order()),
            forall|id: PrIdView| #[trigger]
                self@.contains_key(id) <==> has_key(self.order(), id),
            forall|id: PrIdView| self@.contains_key(id) ==> #[trigger] self@[id] == value_of(
                self.order(),
                id,
            ),
            forall|i: int|
                0 <= i < self.order().len() ==> self@.contains_key(
                    (#[trigger] self.order()[i]).0@,
                ) && self@[self.order()[i].0@] == self.order()[i].1,
    {
        assert forall|i: int| 0 <= i < self.order().len() implies self@.contains_key(
            (#[trigger] self.order()[i]).0@,
        ) && self@[self.order()[i].0@] == self.order()[i].1 by {
            lemma_key_at(self.entries@, self.entries@[i].0@, i);
        }
    }

    /// The empty map.
    pub fn new() -> (r: IdMap<V>)
        ensures
            r.wf(),
            r@ == Map::<PrIdView, V>::empty(),
            r.order() == Seq::<(PrId, V)>::empty(),
    {
        let r = IdMap { entries: Vec::new() };
        assert(r@ =~= Map::empty());
        r
    }

    fn position(&self, id: &PrId) -> (r: Option<usize>)
        ensures
            r matches Some(i) ==> is_key_at(self.entries@, id@, i as int),
            r is Some <==> has_key(self.entries@, id@),
    {
        for i in 0..self.entries.len()
            invariant
                forall|j: int| 0 <= j < i ==> (#[trigger] self.entries@[j]).0@ != id@,
        {
            if self.entries[i].0 == *id {
                assert(is_key_at(self.entries@, id@, i as int));
                return Some(i);
            }
        }
        None
    }

    pub fn contains_key(&self, id: &PrId) -> (r: bool)
        ensures
            r == self@.contains_key(id@),
    {
        self.position(id).is_some()
    }

    pub fn get(&self, id: &PrId) -> (r: Option<&V>)
        requires
            self.wf(),
        ensures
            r is Some <==> self@.contains_key(id@),
            r matches Some(value) ==> *value == self@[id@],
    {
        match self.position(id) {
            None => None,
            Some(i) => {
                proof {
                    lemma_key_at(self.entries@, id@, i as int);
                }
                Some(&self.entries[i].1)
            },
        }
    }

    pub fn len(&self) -> (r: usize)
        ensures
            r == self.order().len(),
            self.wf() ==> self@.dom().finite() && r == self@.dom().len(),
    {
        proof {
            if self.wf() {
                let keys = keys_of(self.entries@);
                assert forall|id: PrIdView| keys.contains(id) <==> self@.dom().contains(id) by {
                    if keys.contains(id) {
                        let i = choose|i: int| 0 <= i < keys.len() && keys[i] == id;
                        assert(is_key_at(self.entries@, id, i));
                    }
                    if has_key(self.entries@, id) {
                        let i = choose|i: int| is_key_at(self.entries@, id, i);
                        assert(keys[i] == id);
                    }
                }
                assert(keys.to_set() =~= self@.dom());
                assert(keys.no_duplicates());
                keys.unique_seq_to_set();
            }
        }
        self.entries.len()
    }

    pub fn is_empty(&self) -> (r: bool)
        ensures
            r == (self@ == Map::<PrIdView, V>::empty()),
    {
        proof {
            if self.entries@.len() == 0 {
                assert(self@ =~= Map::empty());
            } else {
                assert(is_key_at(self.entries@, self.entries@[0].0@, 0));
                assert(self@.contains_key(self.entries@[0].0@));
            }
        }
        self.entries.len() == 0
    }

    /// The entry at `i` in the order in which the keys came in.
    pub fn entry(&self, i: usize) -> (r: (&PrId, &V))
        requires
            i < self.order().len(),
        ensures
            *r.0 == self.order()[i as int].0,
            *r.1 == self.order()[i as int].1,
    {
        let entry = &self.entries[i];
        (&entry.0, &entry.1)
    }

    /// Gives the key `id` the value `value`, in place of one that it may have.
    pub fn insert(&mut self, id: PrId, value: V)
        requires
            old(self).wf(),
        ensures
            final(self).wf(),
            final(self)@ == old(self)@.insert(id@, value),
    {
        let ghost before = self.entries@;
        let ghost key = id@;
        match self.position(&id) {
            Some(i) => {
                self.entries[i] = (id, value);
                let ghost after = self.entries@;
                proof {
                    assert(after =~= before.update(i as int, (id, value)));
                    assert forall|x: PrIdView| has_key(after, x) == has_key(before, x) by {
                        if has_key(before, x) {
                            let j = choose|j: int| is_key_at(before, x, j);
                            assert(is_key_at(after, x, j));
                        }
                        if has_key(after, x) {
                            let j = choose|j: int| is_key_at(after, x, j);
                            assert(is_key_at(before, x, j));
                        }
                    }
                    assert forall|x: PrIdView| has_key(after, x) implies #[trigger] value_of(after, x)
                        == (if x == key {
                        value
                    } else {
                        value_of(before, x)
                    }) by {
                        let j = choose|j: int| is_key_at(after, x, j);
                        assert(is_key_at(before, x, j));
                        lemma_key_at(before, x, j);
                        assert(is_key_at(after, key, i as int));
                        if x == key && j != i {
                            assert(before[i as int].0@ == before[j].0@);
                        }
                    }
                }
                assert(self@ =~= old(self)@.insert(key, value));
            },
            None => {
                self.entries.push((id, value));
                let ghost after = self.entries@;
                proof {
                    assert(after =~= before.push((id, value)));
                    assert(is_key_at(after, key, before.len() as int));
                    assert(unique_keys(after)) by {
                        assert forall|i: int, j: int|
                            #![trigger after[i], after[j]]
                            0 <= i < after.len() && 0 <= j < after.len() && i != j implies after[i].0@
                            != after[j].0@ by {
                            if i == before.len() {
                                assert(!is_key_at(before, key, j));
                            } else if j == before.len() {
                                assert(!is_key_at(before, key, i));
                            } else {
                                assert(before[i].0@ != before[j].0@);
                            }
                        }
                    }
                    assert forall|x: PrIdView|
                        has_key(after, x) == (x == key || has_key(before, x)) by {
                        if has_key(before, x) {
                            let j = choose|j: int| is_key_at(before, x, j);
                            assert(is_key_at(after, x, j));
                        }
                        if has_key(after, x) {
                            let j = choose|j: int| is_key_at(after, x, j);
                            if j < before.len() {
                                assert(is_key_at(before, x, j));
                            }
                        }
                    }
                    assert forall|x: PrIdView| has_key(after, x) implies #[trigger] value_of(after, x)
                        == (if x == key {
                        value
                    } else {
                        value_of(before, x)
                    }) by {
                        if x == key {
                            lemma_key_at(after, key, before.len() as int);
                        } else {
                            let j = choose|j: int| is_key_at(before, x, j);
                            assert(is_key_at(after, x, j));
                            lemma_key_at(after, x, j);
                            lemma_key_at(before, x, j);
                        }
                    }
                }
                assert(self@ =~= old(self)@.insert(key, value));
            },
        }
    }

    /// Takes the key `id` out, and says whether it was there.
    pub fn remove(&mut self, id: &PrId) -> (r: bool)
        requires
            old(self).wf(),
        ensures
            final(self).wf(),
            final(self)@ == old(self)@.remove(id@),
            r == old(self)@.contains_key(id@),
    {
        let ghost before = self.entries@;
        match self.position(id) {
            None => {
                assert(self@ =~= old(self)@.remove(id@));
                false
            },
            Some(i) => {
                self.entries.remove(i);
                let ghost after = self.entries@;
                proof {
                    lemma_entry_removed(before, id@, i as int);
                    assert(after =~= before.remove(i as int));
                }
                assert(self@ =~= old(self)@.remove(id@));
                true
            },
        }
    }

    /// Takes every key out that `keep` does not hold, and says whether there was one.
    pub fn retain_in(&mut self, keep: &IdSet) -> (r: bool)
        requires
            old(self).wf(),
        ensures
            final(self).wf(),
            final(self)@ == old(self)@.restrict(keep@),
            r == !old(self)@.dom().subset_of(keep@),
    {
        let keys = self.keys();
        let ids = keys.to_vec();
        let ghost all = keys.order();
        proof {
            keys.order_lists_members();
        }
        let mut dropped = false;
        for i in 0..ids.len()
            invariant
                self.wf(),
                all == id_views(ids@),
                forall|id: PrIdView| #[trigger]
                    self@.contains_key(id) <==> old(self)@.contains_key(id) && (keep@.contains(id)
                        || !all.take(i as int).contains(id)),
                forall|id: PrIdView| #[trigger]
                    self@.contains_key(id) ==> self@[id] == old(self)@[id],
                forall|j: int| 0 <= j < all.len() ==> old(self)@.contains_key(#[trigger] all[j]),
                dropped == !all.take(i as int).to_set().subset_of(keep@),
        {
            let ghost id = ids@[i as int]@;
            let ghost before = self@;
            assert(id == all[i as int]);
            assert(all.take(i + 1) =~= all.take(i as int).push(id));
            if !keep.contains(&ids[i]) {
                self.remove(&ids[i]);
                dropped = true;
            }
            proof {
                all.take(i as int).lemma_push_to_set_commute(id);
                assert forall|x: PrIdView| all.take(i + 1).contains(x) <==> all.take(
                    i as int,
                ).contains(x) || x == id by {
                    assert(all.take(i + 1).to_set().contains(x) == all.take(i + 1).contains(x));
                    assert(all.take(i as int).to_set().contains(x) == all.take(i as int).contains(
                        x,
                    ));
                }
                if !keep@.contains(id) {
                    assert(all.take(i + 1).to_set().contains(id));
                }
            }
        }
        proof {
            assert(all.take(all.len() as int) =~= all);
            assert forall|x: PrIdView| old(self)@.contains_key(x) implies all.contains(x) by {
                assert(all.to_set().contains(x));
            }
            assert(self@ =~= old(self)@.restrict(keep@));
            assert(all.to_set() =~= old(self)@.dom());
        }
        dropped
    }

    /// The keys, as a set.
    pub fn keys(&self) -> (r: IdSet)
        requires
            self.wf(),
        ensures
            r.wf(),
            r@ == self@.dom(),
            r.order() == keys_of(self.order()),
    {
        let mut out = IdSet::new();
        assert(keys_of(self.entries@.take(0)) =~= Seq::empty());
        for i in 0..self.entries.len()
            invariant
                self.wf(),
                out.wf(),
                out.order() == keys_of(self.entries@.take(i as int)),
        {
            let ghost seen = self.entries@.take(i as int);
            let missing = out.insert(self.entries[i].0.clone());
            proof {
                assert(self.entries@.take(i + 1) =~= seen.push(self.entries@[i as int]));
                assert(keys_of(self.entries@.take(i + 1)) =~= keys_of(seen).push(
                    self.entries@[i as int].0@,
                ));
                if !missing {
                    // The key would stand among those before it.
                    assert(keys_of(seen).contains(self.entries@[i as int].0@)) by {
                        IdSet::lemma_member_in_order(out);
                    }
                    let j = choose|j: int|
                        0 <= j < keys_of(seen).len() && keys_of(seen)[j]
                            == self.entries@[i as int].0@;
                    assert(self.entries@[j].0@ == self.entries@[i as int].0@);
                }
            }
        }
        proof {
            assert(self.entries@.take(self.entries@.len() as int) =~= self.entries@);
            out.order_lists_members();
            assert forall|x: PrIdView| out@.contains(x) <==> self@.dom().contains(x) by {
                if out@.contains(x) {
                    let j = choose|j: int|
                        0 <= j < keys_of(self.entries@).len() && keys_of(self.entries@)[j] == x;
                    assert(is_key_at(self.entries@, x, j));
                }
                if has_key(self.entries@, x) {
                    let j = choose|j: int| is_key_at(self.entries@, x, j);
                    assert(keys_of(self.entries@)[j] == x);
                }
            }
            assert(out@ =~= self@.dom());
        }
        out
    }
}

impl<V: Copy> IdMap<V> {
    /// Another map with the same entries.
    pub fn copied(&self) -> (r: IdMap<V>)
        requires
            self.wf(),
        ensures
            r.wf(),
            r@ == self@,
    {
        let mut entries: Vec<(PrId, V)> = Vec::new();
        for i in 0..self.entries.len()
            invariant
                entries@ == self.entries@.take(i as int),
        {
            entries.push((self.entries[i].0.clone(), self.entries[i].1));
            assert(self.entries@.take(i + 1) =~= self.entries@.take(i as int).push(
                self.entries@[i as int],
            ));
        }
        assert(self.entries@.take(self.entries@.len() as int) =~= self.entries@);
        IdMap { entries }
    }
}

impl IdSet {
    proof fn lemma_member_in_order(set: IdSet)
        ensures
            forall|x: PrIdView| set@.contains(x) <==> set.order().contains(x),
    {
    }
}

/// Without the entry at `i`, every other key keeps its value.
pub proof fn lemma_entry_removed<V>(entries: Seq<(PrId, V)>, id: PrIdView, i: int)
    requires
        unique_keys(entries),
        is_key_at(entries, id, i),
    ensures
        unique_keys(entries.remove(i)),
        forall|x: PrIdView| #[trigger]
            has_key(entries.remove(i), x) <==> x != id && has_key(entries, x),
        forall|x: PrIdView|
            has_key(entries.remove(i), x) ==> #[trigger] value_of(entries.remove(i), x)
                == value_of(entries, x),
{
    let after = entries.remove(i);
    assert forall|a: int, b: int|
        #![trigger after[a], after[b]]
        0 <= a < after.len() && 0 <= b < after.len() && a != b implies after[a].0@ != after[b].0@ by {
        let c = if a < i { a } else { a + 1 };
        let d = if b < i { b } else { b + 1 };
        assert(entries[c].0@ != entries[d].0@);
    }
    assert forall|x: PrIdView| #[trigger] has_key(after, x) <==> x != id && has_key(entries, x) by {
        if has_key(after, x) {
            let a = choose|a: int| is_key_at(after, x, a);
            let c = if a < i { a } else { a + 1 };
            assert(is_key_at(entries, x, c));
            assert(entries[c].0@ != entries[i].0@);
        }
        if x != id && has_key(entries, x) {
            let c = choose|c: int| is_key_at(entries, x, c);
            let a = if c < i { c } else { c - 1 };
            assert(is_key_at(after, x, a));
        }
    }
    assert forall|x: PrIdView| has_key(after, x) implies #[trigger] value_of(after, x) == value_of(
        entries,
        x,
    ) by {
        let a = choose|a: int| is_key_at(after, x, a);
        let c = if a < i { a } else { a + 1 };
        lemma_key_at(after, x, a);
        assert(is_key_at(entries, x, c));
        lemma_key_at(entries, x, c);
    }
}

} // verus!
