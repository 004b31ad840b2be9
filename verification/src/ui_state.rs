//! The state of the screen that outlives the program: which groups are collapsed.
use crate::error::{AppError, ErrorView};
use crate::types::{PrRole, RoleSet};
use vstd::prelude::*;
use vstd::string::*;

verus! {

/// The collapsed groups as they were last loaded or saved.
#[derive(Debug)]
pub struct UiStateStore {
    collapsed_roles: RoleSet,
}

impl View for UiStateStore {
    type V = Set<PrRole>;

    closed spec fn view(&self) -> Set<PrRole> {
        self.collapsed_roles@
    }
}

/// What is said of a state that cannot be read.
pub open spec fn unreadable_state_text(path: Seq<char>, what: Seq<char>) -> Seq<char> {
    "Failed to parse "@ + path + ": "@ + what
}

/// The error for a state that cannot be read.
pub fn unreadable_state(path: &str, what: &str) -> (r: AppError)
    ensures
        r@ == ErrorView::Config(unreadable_state_text(path@, what@)),
{
    let mut out = "Failed to parse ".to_owned();
    out.append(path);
    out.append(": ");
    out.append(what);
    AppError::Config(out)
}

/// The set of the given roles, none of which may be there twice.
pub fn distinct_roles(roles: &Vec<PrRole>) -> (r: Result<RoleSet, String>)
    ensures
        r is Ok <==> roles@.no_duplicates(),
        r matches Ok(set) ==> set@ == roles@.to_set(),
        r matches Err(what) ==> what@ == "collapsed_roles contains a duplicate role"@,
{
    let mut set = RoleSet::new();
    assert(roles@.take(0).to_set() =~= Set::empty());
    for i in 0..roles.len()
        invariant
            set@ == roles@.take(i as int).to_set(),
            roles@.take(i as int).no_duplicates(),
    {
        let ghost seen = roles@.take(i as int);
        let ghost role = roles@[i as int];
        let missing = set.insert(roles[i]);
        proof {
            assert(roles@.take(i + 1) =~= seen.push(role));
            seen.lemma_push_to_set_commute(role);
        }
        if !missing {
            proof {
                assert(seen.contains(role));
                let j = choose|j: int| 0 <= j < seen.len() && seen[j] == role;
                assert(roles@[j] == roles@[i as int]);
            }
            return Err("collapsed_roles contains a duplicate role".to_owned());
        }
        assert(!seen.contains(role));
        let ghost grown = roles@.take(i + 1);
        assert forall|a: int, b: int|
            #![trigger grown[a], grown[b]]
            0 <= a < i + 1 && 0 <= b < i + 1 && a != b implies grown[a] != grown[b] by {
            if a == i {
                assert(seen.contains(seen[b]));
            } else if b == i {
                assert(seen.contains(seen[a]));
            } else {
                assert(seen[a] != seen[b]);
            }
        }
    }
    assert(roles@.take(roles@.len() as int) =~= roles@);
    Ok(set)
}

/// The roles of a set, in the order of their groups.
pub open spec fn listed_roles(roles: Set<PrRole>) -> Seq<PrRole> {
    seq![PrRole::Author, PrRole::ReviewRequested, PrRole::Mentioned].filter(
        |role: PrRole| roles.contains(role),
    )
}

fn list_roles(roles: &RoleSet) -> (r: Vec<PrRole>)
    ensures
        r@ == listed_roles(roles@),
{
    let order: Vec<PrRole> = vec![PrRole::Author, PrRole::ReviewRequested, PrRole::Mentioned];
    let mut out: Vec<PrRole> = Vec::new();
    let ghost all = seq![PrRole::Author, PrRole::ReviewRequested, PrRole::Mentioned];
    let ghost there = |role: PrRole| roles@.contains(role);
    assert(order@ =~= all);
    assert(all.take(0).filter(there) =~= Seq::empty());
    for i in 0..order.len()
        invariant
            order@ == all,
            there == |role: PrRole| roles@.contains(role),
            out@ == all.take(i as int).filter(there),
    {
        proof {
            assert(all.take(i + 1) =~= all.take(i as int).push(all[i as int]));
            all.take(i as int).lemma_filter_push(all[i as int], there);
        }
        if roles.contains(&order[i]) {
            out.push(order[i]);
        }
    }
    assert(all.take(all.len() as int) =~= all);
    out
}

impl UiStateStore {
    /// The state that a file holds as a list of roles; without a file every group is unfolded.
    pub fn load_from(roles: Option<&Vec<PrRole>>) -> (r: Result<UiStateStore, String>)
        ensures
            r is Ok <==> (roles matches Some(list) ==> list@.no_duplicates()),
            r matches Ok(store) ==> store@ == (match roles {
                Some(list) => list@.to_set(),
                None => Set::<PrRole>::empty(),
            }),
            r matches Err(what) ==> what@ == "collapsed_roles contains a duplicate role"@,
    {
        match roles {
            None => Ok(UiStateStore { collapsed_roles: RoleSet::new() }),
            Some(list) => match distinct_roles(list) {
                Ok(collapsed_roles) => Ok(UiStateStore { collapsed_roles }),
                Err(what) => Err(what),
            },
        }
    }

    /// The collapsed groups.
    pub fn collapsed_roles(&self) -> (r: &RoleSet)
        ensures
            r@ == self@,
    {
        &self.collapsed_roles
    }

    /// Takes up the collapsed groups, and gives the list of roles to save.
    pub fn save(&mut self, collapsed_roles: &RoleSet) -> (r: Vec<PrRole>)
        ensures
            final(self)@ == collapsed_roles@,
            r@ == listed_roles(collapsed_roles@),
    {
        self.collapsed_roles = *collapsed_roles;
        list_roles(collapsed_roles)
    }
}

/// The list of roles that is saved is one that can be loaded, and gives the same groups.
pub proof fn saved_roles_are_loaded(roles: Set<PrRole>)
    ensures
        listed_roles(roles).no_duplicates(),
        listed_roles(roles).to_set() == roles,
{
    let there = |role: PrRole| roles.contains(role);
    let none = Seq::<PrRole>::empty();
    let one = none.push(PrRole::Author);
    let two = one.push(PrRole::ReviewRequested);
    let all = two.push(PrRole::Mentioned);
    assert(all =~= seq![PrRole::Author, PrRole::ReviewRequested, PrRole::Mentioned]);
    assert(none.filter(there) =~= none);
    none.lemma_filter_push(PrRole::Author, there);
    one.lemma_filter_push(PrRole::ReviewRequested, there);
    two.lemma_filter_push(PrRole::Mentioned, there);
    let list = listed_roles(roles);
    assert forall|role: PrRole| list.contains(role) <==> roles.contains(role) by {
        if roles.contains(role) {
            let i: int = match role {
                PrRole::Author => 0,
                PrRole::ReviewRequested => 1,
                PrRole::Mentioned => 2,
            };
            assert(all[i] == role);
            all.lemma_filter_contains(there, i);
        }
        if list.contains(role) {
            let i = choose|i: int| 0 <= i < list.len() && list[i] == role;
            all.lemma_filter_pred(there, i);
        }
    }
    assert(list.to_set() =~= roles);
}

/// The saved roles stand in the order of their groups: the own ones, then the reviews, then the
/// mentions.
pub proof fn saved_roles_are_in_order(roles: Set<PrRole>)
    ensures
        listed_roles(roles) == (if roles.contains(PrRole::Author) {
            seq![PrRole::Author]
        } else {
            Seq::empty()
        }) + (if roles.contains(PrRole::ReviewRequested) {
            seq![PrRole::ReviewRequested]
        } else {
            Seq::empty()
        }) + (if roles.contains(PrRole::Mentioned) {
            seq![PrRole::Mentioned]
        } else {
            Seq::empty()
        }),
{
    let there = |role: PrRole| roles.contains(role);
    let none = Seq::<PrRole>::empty();
    let one = none.push(PrRole::Author);
    let two = one.push(PrRole::ReviewRequested);
    assert(two.push(PrRole::Mentioned) =~= seq![
        PrRole::Author,
        PrRole::ReviewRequested,
        PrRole::Mentioned,
    ]);
    assert(none.filter(there) =~= none);
    none.lemma_filter_push(PrRole::Author, there);
    one.lemma_filter_push(PrRole::ReviewRequested, there);
    two.lemma_filter_push(PrRole::Mentioned, there);
    assert(listed_roles(roles) =~= (if roles.contains(PrRole::Author) {
        seq![PrRole::Author]
    } else {
        Seq::empty()
    }) + (if roles.contains(PrRole::ReviewRequested) {
        seq![PrRole::ReviewRequested]
    } else {
        Seq::empty()
    }) + (if roles.contains(PrRole::Mentioned) {
        seq![PrRole::Mentioned]
    } else {
        Seq::empty()
    }));
}

/// What is said of a state that cannot be read names the file and the fault.
pub proof fn unreadable_states_are_named(path: Seq<char>, what: Seq<char>)
    ensures
        unreadable_state_text(path, what) == "Failed to parse "@ + path + seq![':', ' '] + what,
{
    reveal_strlit(": ");
    assert(": "@ =~= seq![':', ' ']);
}

} // verus!
