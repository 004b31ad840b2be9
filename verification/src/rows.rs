//! The rows of the list: for each role a header, and below it, unless the group is collapsed, its
//! pull requests.

use crate::pr_map::{pr_at, pr_count, pr_entries};
use crate::types::{PrId, PrIdView, PrRole, PullRequest, RoleSet};
use indexmap::IndexMap;
use vstd::prelude::*;

verus! {

/// The roles in the order of their groups.
pub const ROLE_ORDER: [PrRole; 3] = [PrRole::Author, PrRole::ReviewRequested, PrRole::Mentioned];

/// A row of the list.
#[derive(Debug, Eq)]
pub enum VisibleRow {
    Role(PrRole),
    Pr(PrId),
}

/// What a [`VisibleRow`] stands for.
pub enum RowView {
    Role(PrRole),
    Pr(PrIdView),
}

impl View for VisibleRow {
    type V = RowView;

    open spec fn view(&self) -> RowView {
        match self {
            VisibleRow::Role(role) => RowView::Role(*role),
            VisibleRow::Pr(id) => RowView::Pr(id@),
        }
    }
}

impl PartialEq for VisibleRow {
    fn eq(&self, other: &VisibleRow) -> (r: bool) {
        match (self, other) {
            (VisibleRow::Role(a), VisibleRow::Role(b)) => *a == *b,
            (VisibleRow::Pr(a), VisibleRow::Pr(b)) => *a == *b,
            _ => false,
        }
    }
}

impl vstd::std_specs::cmp::PartialEqSpecImpl for VisibleRow {
    open spec fn obeys_eq_spec() -> bool {
        true
    }

    open spec fn eq_spec(&self, other: &VisibleRow) -> bool {
        self@ == other@
    }
}

impl Clone for VisibleRow {
    fn clone(&self) -> (r: VisibleRow)
        ensures
            r == *self,
    {
        match self {
            VisibleRow::Role(role) => VisibleRow::Role(*role),
            VisibleRow::Pr(id) => VisibleRow::Pr(id.clone()),
        }
    }
}

/// What a sequence of rows stands for.
pub open spec fn row_views(rows: Seq<VisibleRow>) -> Seq<RowView> {
    rows.map_values(|row: VisibleRow| row@)
}

/// The rows of the pull requests in which the user has the given role.
pub open spec fn pr_rows(prs: Seq<(PrId, PullRequest)>, role: PrRole) -> Seq<RowView> {
    prs.filter(|entry: (PrId, PullRequest)| entry.1.role == role).map_values(
        |entry: (PrId, PullRequest)| RowView::Pr(entry.0@),
    )
}

/// The rows of one group.
pub open spec fn group_rows(
    prs: Seq<(PrId, PullRequest)>,
    collapsed: Set<PrRole>,
    role: PrRole,
) -> Seq<RowView> {
    seq![RowView::Role(role)] + if collapsed.contains(role) {
        Seq::empty()
    } else {
        pr_rows(prs, role)
    }
}

/// The rows of the list.
pub open spec fn rows_of(prs: Seq<(PrId, PullRequest)>, collapsed: Set<PrRole>) -> Seq<RowView> {
    group_rows(prs, collapsed, PrRole::Author) + group_rows(
        prs,
        collapsed,
        PrRole::ReviewRequested,
    ) + group_rows(prs, collapsed, PrRole::Mentioned)
}

/// Whether `row` stands at `i` for the first time.
pub open spec fn is_first_at(rows: Seq<RowView>, row: RowView, i: int) -> bool {
    &&& 0 <= i < rows.len()
    &&& rows[i] == row
    &&& forall|j: int| 0 <= j < i ==> rows[j] != row
}

/// Where `row` stands first.
pub open spec fn place_of(rows: Seq<RowView>, row: RowView) -> Option<usize> {
    if rows.contains(row) {
        Some((choose|i: int| is_first_at(rows, row, i)) as usize)
    } else {
        None
    }
}

proof fn lemma_first_at(rows: Seq<RowView>, row: RowView, i: int)
    requires
        is_first_at(rows, row, i),
        i <= usize::MAX,
    ensures
        place_of(rows, row) == Some(i as usize),
{
    let k = choose|k: int| is_first_at(rows, row, k);
    assert(rows.contains(row));
    assert(rows[k] == row && rows[i] == row);
}

/// Where `row` stands first among `rows`.
pub fn position_of(rows: &Vec<VisibleRow>, row: &VisibleRow) -> (r: Option<usize>)
    ensures
        r == place_of(row_views(rows@), row@),
{
    let ghost views = row_views(rows@);
    for i in 0..rows.len()
        invariant
            views == row_views(rows@),
            forall|j: int| 0 <= j < i ==> views[j] != row@,
    {
        assert(views[i as int] == rows@[i as int]@);
        if rows[i] == *row {
            proof {
                lemma_first_at(views, row@, i as int);
            }
            return Some(i);
        }
    }
    assert(!views.contains(row@));
    None
}

fn push_group(
    rows: &mut Vec<VisibleRow>,
    prs: &IndexMap<PrId, PullRequest>,
    collapsed: &RoleSet,
    role: PrRole,
)
    ensures
        row_views(final(rows)@) == row_views(old(rows)@) + group_rows(
            pr_entries(*prs),
            collapsed@,
            role,
        ),
{
    let ghost before = row_views(rows@);
    let ghost entries = pr_entries(*prs);
    let ghost shown = |entry: (PrId, PullRequest)| entry.1.role == role;
    rows.push(VisibleRow::Role(role));
    assert(row_views(rows@) =~= before.push(RowView::Role(role)));
    if collapsed.contains(&role) {
        assert(row_views(rows@) =~= before + group_rows(entries, collapsed@, role));
        return;
    }
    let ghost headed = row_views(rows@);
    let count = pr_count(prs);
    assert(pr_rows(entries.take(0), role) =~= Seq::empty()) by {
        assert(entries.take(0).filter(shown) =~= Seq::empty());
    }
    for i in 0..count
        invariant
            count == entries.len(),
            entries == pr_entries(*prs),
            shown == |entry: (PrId, PullRequest)| entry.1.role == role,
            row_views(rows@) == headed + pr_rows(entries.take(i as int), role),
    {
        let ghost step = row_views(rows@);
        proof {
            assert(entries.take(i + 1) =~= entries.take(i as int).push(entries[i as int]));
            entries.take(i as int).lemma_filter_push(entries[i as int], shown);
        }
        if let Some((id, pr)) = pr_at(prs, i) {
            if pr.role == role {
                rows.push(VisibleRow::Pr(id.clone()));
                assert(row_views(rows@) =~= step.push(RowView::Pr(id@)));
                assert(pr_rows(entries.take(i + 1), role) =~= pr_rows(
                    entries.take(i as int),
                    role,
                ).push(RowView::Pr(id@)));
            }
        }
        assert(row_views(rows@) =~= headed + pr_rows(entries.take(i + 1), role));
    }
    assert(entries.take(entries.len() as int) =~= entries);
    assert(row_views(rows@) =~= before + group_rows(entries, collapsed@, role));
}

/// The rows of the list.
pub fn build_rows(prs: &IndexMap<PrId, PullRequest>, collapsed: &RoleSet) -> (r: Vec<VisibleRow>)
    ensures
        row_views(r@) == rows_of(pr_entries(*prs), collapsed@),
{
    let mut rows: Vec<VisibleRow> = Vec::new();
    assert(row_views(rows@) =~= Seq::empty());
    push_group(&mut rows, prs, collapsed, PrRole::Author);
    push_group(&mut rows, prs, collapsed, PrRole::ReviewRequested);
    push_group(&mut rows, prs, collapsed, PrRole::Mentioned);
    assert(row_views(rows@) =~= rows_of(pr_entries(*prs), collapsed@));
    rows
}

/// Which row of a list is selected.
#[derive(Debug, Clone, Copy, PartialEq, Eq)]
pub struct ListState {
    pub selected: Option<usize>,
}

impl Default for ListState {
    fn default() -> (r: ListState)
        ensures
            r.selected is None,
    {
        ListState { selected: None }
    }
}

impl ListState {
    pub fn selected(&self) -> (r: Option<usize>)
        ensures
            r == self.selected,
    {
        self.selected
    }

    pub fn select(&mut self, index: Option<usize>)
        ensures
            final(self).selected == index,
    {
        self.selected = index;
    }
}

/// The rows are three groups, each with its header first: the own pull requests, those to review,
/// and the mentions. Under a header that is not collapsed stand the pull requests of its role, in
/// the order of the list.
pub proof fn rows_stand_under_their_headers(
    prs: Seq<(PrId, PullRequest)>,
    collapsed: Set<PrRole>,
)
    ensures
        ({
            let own = prs.filter(|entry: (PrId, PullRequest)| entry.1.role == PrRole::Author);
            let reviews = prs.filter(
                |entry: (PrId, PullRequest)| entry.1.role == PrRole::ReviewRequested,
            );
            let mentions = prs.filter(
                |entry: (PrId, PullRequest)| entry.1.role == PrRole::Mentioned,
            );
            let first: int = if collapsed.contains(PrRole::Author) {
                0
            } else {
                own.len() as int
            };
            let second: int = if collapsed.contains(PrRole::ReviewRequested) {
                0
            } else {
                reviews.len() as int
            };
            let third: int = if collapsed.contains(PrRole::Mentioned) {
                0
            } else {
                mentions.len() as int
            };
            let rows = rows_of(prs, collapsed);
            &&& rows.len() == 3 + first + second + third
            &&& rows[0] == RowView::Role(PrRole::Author)
            &&& rows[1 + first] == RowView::Role(PrRole::ReviewRequested)
            &&& rows[2 + first + second] == RowView::Role(PrRole::Mentioned)
            &&& forall|i: int|
                #![trigger own[i]]
                0 <= i < first ==> rows[1 + i] == RowView::Pr(own[i].0@)
            &&& forall|i: int|
                #![trigger reviews[i]]
                0 <= i < second ==> rows[2 + first + i] == RowView::Pr(reviews[i].0@)
            &&& forall|i: int|
                #![trigger mentions[i]]
                0 <= i < third ==> rows[3 + first + second + i] == RowView::Pr(mentions[i].0@)
        }),
{
    let own = prs.filter(|entry: (PrId, PullRequest)| entry.1.role == PrRole::Author);
    let reviews = prs.filter(|entry: (PrId, PullRequest)| entry.1.role == PrRole::ReviewRequested);
    let mentions = prs.filter(|entry: (PrId, PullRequest)| entry.1.role == PrRole::Mentioned);
    lemma_pr_rows_of(prs, PrRole::Author);
    lemma_pr_rows_of(prs, PrRole::ReviewRequested);
    lemma_pr_rows_of(prs, PrRole::Mentioned);
    assert(pr_rows(prs, PrRole::Author).len() == own.len());
    assert(pr_rows(prs, PrRole::ReviewRequested).len() == reviews.len());
    assert(pr_rows(prs, PrRole::Mentioned).len() == mentions.len());
    let a = group_rows(prs, collapsed, PrRole::Author);
    let b = group_rows(prs, collapsed, PrRole::ReviewRequested);
    let c = group_rows(prs, collapsed, PrRole::Mentioned);
    assert(rows_of(prs, collapsed) == a + b + c);
    assert(a[0] == RowView::Role(PrRole::Author));
    assert(b[0] == RowView::Role(PrRole::ReviewRequested));
    assert(c[0] == RowView::Role(PrRole::Mentioned));
}

proof fn lemma_pr_rows_of(prs: Seq<(PrId, PullRequest)>, role: PrRole)
    ensures
        ({
            let part = prs.filter(|entry: (PrId, PullRequest)| entry.1.role == role);
            &&& pr_rows(prs, role).len() == part.len()
            &&& forall|i: int|
                #![trigger part[i]]
                0 <= i < part.len() ==> pr_rows(prs, role)[i] == RowView::Pr(part[i].0@)
        }),
{
}

} // verus!
