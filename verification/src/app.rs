//! The state of the program, and how messages change it.
use crate::alerts::{change_notes, ci_notes, commented_ids, note_views, push_change, push_ci};
use crate::app_laws::toggling_turns_one_group;
use crate::colors::ColorScheme;
use crate::config::{EventSet, NotifyEvent};
use crate::diff::{added_entries, diff_pr_sets, ids_of};
use crate::dismiss::{DismissStore, StoreView};
use crate::ids::{has_key, id_views, is_key_at, unique_keys, value_of, IdMap, IdSet};
use crate::notify::{NoteView, Notification};
use crate::poller::{CiPayload, CiUpdate, PollPayload};
use crate::pr_map::{
    drop_pr, find_pr, is_listing, keep_prs, key_set, keys_of_prs, no_prs, pr_at, pr_count,
    pr_entries, put_pr, sort_prs, without_key,
};
use crate::rows::{
    build_rows, place_of, position_of, pr_rows, row_views, rows_of, ListState, RowView, VisibleRow,
};
use crate::text::same_text;
use crate::timestamp::Timestamp;
use crate::types::{CiStatus, PrId, PrIdView, PrRole, PrState, PullRequest, RoleSet};
use indexmap::IndexMap;
use std::time::Instant;
use vstd::prelude::*;
use vstd::string::*;

verus! {

/// A reading of the monotonic clock of the standard library.
#[verifier::external_type_specification]
#[verifier::external_body]
pub struct ExInstant(std::time::Instant);

/// `Instant::now` reads the clock. Nothing is said of the reading.
pub assume_specification[ std::time::Instant::now ]() -> std::time::Instant;

/// What the screen shows.
#[derive(Debug, Clone, Copy, PartialEq, Eq, Structural)]
pub enum Screen {
    PrList,
    Help,
}

/// How far the first poll has come.
#[derive(Debug)]
pub enum LoadingState {
    Initial,
    Loading,
    Loaded,
    Error(String),
}

/// What a [`LoadingState`] stands for.
pub enum LoadingView {
    Initial,
    Loading,
    Loaded,
    Error(Seq<char>),
}

impl View for LoadingState {
    type V = LoadingView;

    open spec fn view(&self) -> LoadingView {
        match self {
            LoadingState::Initial => LoadingView::Initial,
            LoadingState::Loading => LoadingView::Loading,
            LoadingState::Loaded => LoadingView::Loaded,
            LoadingState::Error(what) => LoadingView::Error(what@),
        }
    }
}

/// What the state reacts to.
pub enum Message {
    Quit,
    MoveUp,
    MoveDown,
    ActivateSelected,
    OpenSelected,
    ToggleHelp,
    Refresh,
    Deselect,
    PollResult(PollPayload),
    PollError(String),
    CiResult(CiPayload),
}

/// The state of the program.
pub struct App {
    pub prs: IndexMap<PrId, PullRequest>,
    pub list_state: ListState,
    pub visible_rows: Vec<VisibleRow>,
    pub collapsed_roles: RoleSet,
    pub ui_state_dirty: bool,
    pub screen: Screen,
    pub loading: LoadingState,
    pub last_poll: Option<Timestamp>,
    pub poll_error: Option<String>,
    /// Pull requests that appeared and have not been looked at.
    pub new_pr_ids: IdSet,
    /// Pull requests with comments that have not been looked at.
    pub new_comment_pr_ids: IdSet,
    /// Closed and merged pull requests that left the list for good.
    pub dismissed_ids: IdSet,
    pub should_quit: bool,
    pub status_message: Option<String>,
    pub dirty: bool,
    pub last_activity: Option<Instant>,
    pub pending_notifications: Vec<Notification>,
    /// Mentions that were opened, to be kept in the dismissal store.
    pub pending_dismissals: Vec<PrId>,
    /// Addresses to open in the browser.
    pub pending_opens: Vec<String>,
    pub notify_events: EventSet,
    pub colors: ColorScheme,
    pub username: String,
    /// The head commits of the last snapshot.
    pub head_shas: IdMap<String>,
    /// The number of the last snapshot.
    pub generation: u64,
}

/// What an [`App`] stands for. Its rows follow from its pull requests and its collapsed groups.
#[verifier::ext_equal]
pub struct AppView {
    pub prs: Seq<(PrId, PullRequest)>,
    pub selected: Option<usize>,
    pub collapsed: Set<PrRole>,
    pub ui_state_dirty: bool,
    pub screen: Screen,
    pub loading: LoadingView,
    pub last_poll: Option<Timestamp>,
    pub poll_error: Option<Seq<char>>,
    pub new_prs: Set<PrIdView>,
    pub new_comments: Set<PrIdView>,
    pub dismissed: Set<PrIdView>,
    pub should_quit: bool,
    pub status: Option<Seq<char>>,
    pub dirty: bool,
    pub last_activity: Option<Instant>,
    pub notes: Seq<NoteView>,
    pub dismissals: Seq<PrIdView>,
    pub opens: Seq<Seq<char>>,
    pub events: Set<NotifyEvent>,
    pub colors: ColorScheme,
    pub username: Seq<char>,
    pub head_shas: Map<PrIdView, String>,
    pub generation: u64,
}

pub open spec fn text_of(text: Option<String>) -> Option<Seq<char>> {
    match text {
        Some(text) => Some(text@),
        None => None,
    }
}

impl View for App {
    type V = AppView;

    open spec fn view(&self) -> AppView {
        AppView {
            prs: pr_entries(self.prs),
            selected: self.list_state.selected,
            collapsed: self.collapsed_roles@,
            ui_state_dirty: self.ui_state_dirty,
            screen: self.screen,
            loading: self.loading@,
            last_poll: self.last_poll,
            poll_error: text_of(self.poll_error),
            new_prs: self.new_pr_ids@,
            new_comments: self.new_comment_pr_ids@,
            dismissed: self.dismissed_ids@,
            should_quit: self.should_quit,
            status: text_of(self.status_message),
            dirty: self.dirty,
            last_activity: self.last_activity,
            notes: note_views(self.pending_notifications@),
            dismissals: id_views(self.pending_dismissals@),
            opens: self.pending_opens@.map_values(|url: String| url@),
            events: self.notify_events@,
            colors: self.colors,
            username: self.username@,
            head_shas: self.head_shas@,
            generation: self.generation,
        }
    }
}

/// Whether the two snapshots know the head commit of a pull request, and know the same.
pub open spec fn same_head(
    one: Map<PrIdView, String>,
    other: Map<PrIdView, String>,
    id: PrIdView,
) -> bool {
    one.contains_key(id) && other.contains_key(id) && one[id]@ == other[id]@
}

impl AppView {
    /// The rows of the list.
    pub open spec fn rows(self) -> Seq<RowView> {
        rows_of(self.prs, self.collapsed)
    }

    /// The selected row.
    pub open spec fn selected_row(self) -> Option<RowView> {
        match self.selected {
            Some(i) if i < self.rows().len() => Some(self.rows()[i as int]),
            _ => None,
        }
    }

    /// The selected pull request.
    pub open spec fn selected_id(self) -> Option<PrIdView> {
        match self.selected_row() {
            Some(RowView::Pr(id)) => Some(id),
            _ => None,
        }
    }

    /// With the given row selected, where there is such a row.
    pub open spec fn selecting(self, row: Option<RowView>) -> AppView {
        AppView {
            selected: match row {
                Some(row) => place_of(self.rows(), row),
                None => None,
            },
            ..self
        }
    }

    /// Whether the list holds the pull request and it is closed or merged.
    pub open spec fn is_done(self, id: PrIdView) -> bool {
        has_key(self.prs, id) && !(value_of(self.prs, id).state is Open)
    }

    /// Without the pull request for good, where it is closed or merged.
    pub open spec fn dismissing(self, id: PrIdView) -> AppView {
        if self.is_done(id) {
            AppView {
                dismissed: self.dismissed.insert(id),
                prs: without_key(self.prs, id),
                ..self
            }
        } else {
            self
        }
    }

    /// After an input at the time `now` that calls for a redraw.
    pub open spec fn touched(self, now: Instant) -> AppView {
        AppView { last_activity: Some(now), dirty: true, ..self }
    }

    /// With the focus on the row `target`, away from the pull request `previous`. A closed or merged
    /// pull request that loses the focus leaves the list; the one that gets it loses its marks.
    pub open spec fn focusing(self, target: int, previous: Option<PrIdView>) -> AppView {
        let row = if 0 <= target < self.rows().len() {
            Some(self.rows()[target])
        } else {
            None
        };
        let id = match row {
            Some(RowView::Pr(id)) => Some(id),
            _ => None,
        };
        let left = match previous {
            Some(previous) if id != Some(previous) => self.dismissing(previous),
            _ => self,
        };
        let seen = match id {
            Some(id) => AppView {
                new_prs: left.new_prs.remove(id),
                new_comments: left.new_comments.remove(id),
                ..left
            },
            None => left,
        };
        seen.selecting(row)
    }

    /// The row above the selected one, around the end; the first where none is selected.
    pub open spec fn row_above(self) -> int {
        match self.selected {
            Some(i) => if i == 0 {
                self.rows().len() - 1
            } else {
                i - 1
            },
            None => 0,
        }
    }

    /// The row below the selected one, around the end; the first where none is selected.
    pub open spec fn row_below(self) -> int {
        match self.selected {
            Some(i) => if i >= self.rows().len() - 1 {
                0
            } else {
                i + 1
            },
            None => 0,
        }
    }

    /// With the focus on the row `target`, once there is a list.
    pub open spec fn moving(self, target: int, now: Instant) -> AppView {
        if self.loading is Loaded {
            self.focusing(target, self.selected_id()).touched(now)
        } else {
            self
        }
    }

    /// With the group of the role collapsed, or unfolded where it was collapsed.
    pub open spec fn toggling(self, role: PrRole) -> AppView {
        let turned = AppView {
            collapsed: if self.collapsed.contains(role) {
                self.collapsed.remove(role)
            } else {
                self.collapsed.insert(role)
            },
            ui_state_dirty: true,
            dirty: true,
            ..self
        };
        turned.selecting(Some(RowView::Role(role)))
    }

    /// With the selected pull request opened. It loses its marks, and a mention leaves the list.
    pub open spec fn opening(self) -> AppView {
        match self.selected_id() {
            Some(id) if has_key(self.prs, id) => {
                let pr = value_of(self.prs, id);
                let opened = AppView {
                    new_prs: self.new_prs.remove(id),
                    new_comments: self.new_comments.remove(id),
                    dirty: self.dirty || self.new_prs.contains(id) || self.new_comments.contains(
                        id,
                    ),
                    opens: self.opens.push(pr.url@),
                    ..self
                };
                if pr.role is Mentioned {
                    let left = AppView {
                        dismissals: opened.dismissals.push(id),
                        prs: without_key(opened.prs, id),
                        dirty: true,
                        ..opened
                    };
                    let last = left.rows().len() - 1;
                    AppView {
                        selected: Some(
                            if self.selected->0 <= last {
                                self.selected->0
                            } else {
                                last as usize
                            },
                        ),
                        ..left
                    }
                } else {
                    opened
                }
            },
            _ => self,
        }
    }

    /// After the activation of the selected row: a group is toggled, a pull request is opened.
    pub open spec fn activating(self, now: Instant) -> AppView {
        let acted = match self.selected_row() {
            Some(RowView::Role(role)) => self.toggling(role),
            Some(RowView::Pr(_)) => self.opening(),
            None => self,
        };
        AppView { last_activity: Some(now), ..acted }
    }

    /// With no row selected. A closed or merged pull request that loses the focus leaves the list.
    pub open spec fn deselecting(self) -> AppView {
        if self.selected is Some {
            let left = match self.selected_id() {
                Some(id) => self.dismissing(id),
                None => self,
            };
            AppView { selected: None, dirty: true, ..left }
        } else {
            self
        }
    }

    /// After a poll that failed.
    pub open spec fn failing(self, what: Seq<char>) -> AppView {
        AppView {
            poll_error: Some(what),
            status: None,
            loading: if self.loading is Initial || self.loading is Loading {
                LoadingView::Error(what)
            } else {
                self.loading
            },
            dirty: true,
            ..self
        }
    }

    /// Whether the list takes up an entry of a snapshot: not one that left for good, and a closed or
    /// merged one only where the list has it.
    pub open spec fn accepts(self, entry: (PrId, PullRequest)) -> bool {
        &&& !self.dismissed.contains(entry.0@)
        &&& entry.1.state is Open || (self.loading is Loaded && has_key(self.prs, entry.0@))
    }

    /// The CI status of an entry of a snapshot: where it comes with none, the one that the list has,
    /// provided that the head commit is the same.
    pub open spec fn kept_ci(
        self,
        entry: (PrId, PullRequest),
        heads: Map<PrIdView, String>,
    ) -> Option<CiStatus> {
        if entry.1.ci_status is None && has_key(self.prs, entry.0@) && same_head(
            self.head_shas,
            heads,
            entry.0@,
        ) {
            value_of(self.prs, entry.0@).ci_status
        } else {
            entry.1.ci_status
        }
    }

    /// The entries of a snapshot that the list takes up, in the order of the snapshot.
    pub open spec fn incoming(
        self,
        entries: Seq<(PrId, PullRequest)>,
        heads: Map<PrIdView, String>,
    ) -> Seq<(PrId, PullRequest)> {
        entries.filter(|entry: (PrId, PullRequest)| self.accepts(entry)).map_values(
            |entry: (PrId, PullRequest)|
                (entry.0, entry.1.with_ci(self.kept_ci(entry, heads))),
        )
    }

    /// After a snapshot, whose pull requests the list then shows as `listing`. Before the first one
    /// there is nothing to compare with, so it marks and notifies of nothing.
    pub open spec fn polling(
        self,
        payload: PollPayload,
        listing: Seq<(PrId, PullRequest)>,
    ) -> AppView {
        let incoming = self.incoming(pr_entries(payload.prs), payload.head_shas@);
        let listed = AppView {
            prs: listing,
            notes: if self.loading is Loaded {
                self.notes + change_notes(self.prs, incoming, self.events, self.username)
            } else {
                self.notes
            },
            new_prs: (if self.loading is Loaded {
                self.new_prs.union(id_views(ids_of(added_entries(self.prs, incoming))).to_set())
            } else {
                self.new_prs
            }).intersect(key_set(incoming)),
            new_comments: (if self.loading is Loaded {
                self.new_comments.union(commented_ids(self.prs, incoming, self.username))
            } else {
                self.new_comments
            }).intersect(key_set(incoming)),
            last_poll: Some(payload.polled_at),
            poll_error: None,
            status: None,
            loading: if self.loading is Initial || self.loading is Loading {
                LoadingView::Loaded
            } else {
                self.loading
            },
            head_shas: payload.head_shas@,
            generation: payload.generation,
            dirty: true,
            ..self
        };
        listed.selecting(self.selected_row())
    }

    /// Whether a CI status is for the head commit that the list has.
    pub open spec fn takes_ci(self, id: PrIdView, updates: Map<PrIdView, CiUpdate>) -> bool {
        &&& updates.contains_key(id)
        &&& self.head_shas.contains_key(id)
        &&& updates[id].head_sha@ == self.head_shas[id]@
    }

    /// An entry of the list with its new CI status.
    pub open spec fn checked(
        self,
        entry: (PrId, PullRequest),
        updates: Map<PrIdView, CiUpdate>,
    ) -> (PrId, PullRequest) {
        if self.takes_ci(entry.0@, updates) {
            (entry.0, entry.1.with_ci(updates[entry.0@].status))
        } else {
            entry
        }
    }

    /// After the CI status of the last snapshot has come. Rows and selection stay as they are.
    pub open spec fn checking(self, payload: CiPayload) -> AppView {
        if payload.generation == self.generation {
            AppView {
                prs: self.prs.map_values(
                    |entry: (PrId, PullRequest)| self.checked(entry, payload.statuses@),
                ),
                notes: if self.loading is Loaded {
                    self.notes + self.prs.flat_map(
                        |entry: (PrId, PullRequest)|
                            ci_notes(
                                entry.1.ci_status,
                                self.checked(entry, payload.statuses@),
                                self.events,
                            ),
                    )
                } else {
                    self.notes
                },
                dirty: true,
                ..self
            }
        } else {
            self
        }
    }
}

/// The dismissals with those of the given mentions added.
pub open spec fn with_dismissals(
    dismissed: Map<PrIdView, Timestamp>,
    ids: Seq<PrIdView>,
    at: Timestamp,
) -> Map<PrIdView, Timestamp>
    decreases ids.len(),
{
    if ids.len() == 0 {
        dismissed
    } else {
        with_dismissals(dismissed, ids.drop_last(), at).insert(ids.last(), at)
    }
}

/// Whether `after` is what the message makes of `before` at the time `now`. On the help screen an
/// input only closes it, or quits; what the poller sends is taken up behind it.
pub open spec fn follows(before: AppView, msg: Message, now: Instant, after: AppView) -> bool {
    match msg {
        Message::Quit => after == (AppView { should_quit: true, dirty: true, ..before }),
        Message::PollResult(payload) => {
            &&& is_listing(
                before.incoming(pr_entries(payload.prs), payload.head_shas@),
                after.prs,
            )
            &&& after == before.polling(payload, after.prs)
        },
        Message::PollError(what) => after == before.failing(what@),
        Message::CiResult(payload) => after == before.checking(payload),
        _ if before.screen is Help => after == (AppView {
            screen: Screen::PrList,
            ..before
        }).touched(now),
        Message::MoveUp => after == before.moving(before.row_above(), now),
        Message::MoveDown => after == before.moving(before.row_below(), now),
        Message::ActivateSelected => after == before.activating(now),
        Message::OpenSelected => after == (AppView {
            last_activity: Some(now),
            ..before.opening()
        }),
        Message::ToggleHelp => after == (AppView { screen: Screen::Help, ..before }).touched(now),
        Message::Refresh => after == (AppView {
            status: Some("Refreshing..."@),
            ..before
        }).touched(now),
        Message::Deselect => after == before.deselecting(),
    }
}

impl Message {
    /// Whether the collections of the message are valid.
    pub open spec fn wf(&self) -> bool {
        match self {
            Message::PollResult(payload) => payload.head_shas.wf(),
            Message::CiResult(payload) => payload.statuses.wf(),
            _ => true,
        }
    }
}

impl App {
    /// Whether the sets and maps are valid, no pull request is there twice, and the rows are those
    /// of the pull requests and the collapsed groups.
    pub open spec fn wf(&self) -> bool {
        &&& self.parts_wf()
        &&& row_views(self.visible_rows@) == self@.rows()
    }

    pub open spec fn parts_wf(&self) -> bool {
        &&& self.new_pr_ids.wf()
        &&& self.new_comment_pr_ids.wf()
        &&& self.dismissed_ids.wf()
        &&& self.head_shas.wf()
        &&& unique_keys(pr_entries(self.prs))
    }

    /// The state before the first poll.
    pub fn new(
        username: String,
        colors: ColorScheme,
        notify_events: EventSet,
        collapsed_roles: RoleSet,
    ) -> (r: App)
        ensures
            r.wf(),
            r@ == (AppView {
                prs: Seq::empty(),
                selected: None,
                collapsed: collapsed_roles@,
                ui_state_dirty: false,
                screen: Screen::PrList,
                loading: LoadingView::Initial,
                last_poll: None,
                poll_error: None,
                new_prs: Set::empty(),
                new_comments: Set::empty(),
                dismissed: Set::empty(),
                should_quit: false,
                status: None,
                dirty: true,
                last_activity: None,
                notes: Seq::empty(),
                dismissals: Seq::empty(),
                opens: Seq::empty(),
                events: notify_events@,
                colors,
                username: username@,
                head_shas: Map::empty(),
                generation: 0,
            }),
    {
        let mut app = App {
            prs: no_prs(),
            list_state: ListState::default(),
            visible_rows: Vec::new(),
            collapsed_roles,
            ui_state_dirty: false,
            screen: Screen::PrList,
            loading: LoadingState::Initial,
            last_poll: None,
            poll_error: None,
            new_pr_ids: IdSet::new(),
            new_comment_pr_ids: IdSet::new(),
            dismissed_ids: IdSet::new(),
            should_quit: false,
            status_message: None,
            dirty: true,
            last_activity: None,
            pending_notifications: Vec::new(),
            pending_dismissals: Vec::new(),
            pending_opens: Vec::new(),
            notify_events,
            colors,
            username,
            head_shas: IdMap::new(),
            generation: 0,
        };
        app.rebuild_visible_rows(None);
        assert(app@.notes =~= Seq::empty());
        assert(app@.dismissals =~= Seq::empty());
        assert(app@.opens =~= Seq::empty());
        app
    }

    /// Takes up a message. An input is one at the time that the clock has then.
    pub fn update(&mut self, msg: Message)
        requires
            old(self).wf(),
            msg.wf(),
        ensures
            final(self).wf(),
            exists|now: Instant| #[trigger] follows(old(self)@, msg, now, final(self)@),
    {
        self.update_at(msg, Instant::now());
    }

    /// Takes up a message that comes at the time `now`.
    pub fn update_at(&mut self, msg: Message, now: Instant)
        requires
            old(self).wf(),
            msg.wf(),
        ensures
            final(self).wf(),
            follows(old(self)@, msg, now, final(self)@),
    {
        if self.screen == Screen::Help {
            let closes = match &msg {
                Message::PollResult(_) => false,
                Message::PollError(_) => false,
                Message::CiResult(_) => false,
                Message::Quit => false,
                _ => true,
            };
            if closes {
                self.screen = Screen::PrList;
                self.last_activity = Some(now);
                self.dirty = true;
                return;
            }
        }
        match msg {
            Message::Quit => {
                self.should_quit = true;
                self.dirty = true;
            },
            Message::MoveUp => self.move_up(now),
            Message::MoveDown => self.move_down(now),
            Message::ActivateSelected => self.activate_selected(now),
            Message::OpenSelected => {
                self.open_selected_pr();
                self.last_activity = Some(now);
            },
            Message::ToggleHelp => {
                self.screen = Screen::Help;
                self.last_activity = Some(now);
                self.dirty = true;
            },
            Message::Refresh => {
                self.status_message = Some("Refreshing...".to_owned());
                self.last_activity = Some(now);
                self.dirty = true;
            },
            Message::Deselect => self.deselect(),
            Message::PollResult(payload) => self.take_snapshot(payload),
            Message::PollError(what) => {
                if matches!(self.loading, LoadingState::Initial | LoadingState::Loading) {
                    self.loading = LoadingState::Error(what.clone());
                }
                self.poll_error = Some(what);
                self.status_message = None;
                self.dirty = true;
            },
            Message::CiResult(payload) => self.take_ci(payload),
        }
    }

    /// The selected pull request.
    pub fn selected_id(&self) -> (r: Option<PrId>)
        requires
            self.wf(),
        ensures
            (match r {
                Some(id) => Some(id@),
                None => None,
            }) == self@.selected_id(),
    {
        match self.selected_row() {
            Some(VisibleRow::Pr(id)) => Some(id.clone()),
            _ => None,
        }
    }

    /// The selected row.
    pub fn selected_row(&self) -> (r: Option<&VisibleRow>)
        requires
            self.wf(),
        ensures
            (match r {
                Some(row) => Some(row@),
                None => None,
            }) == self@.selected_row(),
    {
        match self.list_state.selected() {
            Some(i) => {
                if i < self.visible_rows.len() {
                    assert(row_views(self.visible_rows@)[i as int] == self.visible_rows@[i as int]@);
                    Some(&self.visible_rows[i])
                } else {
                    None
                }
            },
            None => None,
        }
    }

    /// Whether the group of the role is collapsed.
    pub fn role_is_collapsed(&self, role: PrRole) -> (r: bool)
        ensures
            r == self@.collapsed.contains(role),
    {
        self.collapsed_roles.contains(&role)
    }

    /// Makes the rows anew, and selects the given one where it is still there.
    fn rebuild_visible_rows(&mut self, selected: Option<VisibleRow>)
        requires
            old(self).parts_wf(),
        ensures
            final(self).wf(),
            final(self)@ == old(self)@.selecting(
                match selected {
                    Some(row) => Some(row@),
                    None => None,
                },
            ),
    {
        self.visible_rows = build_rows(&self.prs, &self.collapsed_roles);
        let place = match &selected {
            Some(row) => position_of(&self.visible_rows, row),
            None => None,
        };
        self.list_state.select(place);
    }

    /// Collapses the group of the role, or unfolds it where it is collapsed.
    pub fn toggle_role(&mut self, role: PrRole)
        requires
            old(self).wf(),
        ensures
            final(self).wf(),
            final(self)@ == old(self)@.toggling(role),
            final(self)@.selected_row() == Some(RowView::Role(role)),
    {
        if !self.collapsed_roles.remove(&role) {
            self.collapsed_roles.insert(role);
        }
        proof {
            if !old(self)@.collapsed.contains(role) {
                assert(old(self)@.collapsed.remove(role) =~= old(self)@.collapsed);
            }
        }
        self.ui_state_dirty = true;
        self.dirty = true;
        self.rebuild_visible_rows(Some(VisibleRow::Role(role)));
        proof {
            assert(row_views(self.visible_rows@).len() == self.visible_rows.len());
            toggling_turns_one_group(old(self)@, role);
        }
    }

    fn activate_selected(&mut self, now: Instant)
        requires
            old(self).wf(),
        ensures
            final(self).wf(),
            final(self)@ == old(self)@.activating(now),
    {
        let row = match self.selected_row() {
            Some(row) => Some(row.clone()),
            None => None,
        };
        match row {
            Some(VisibleRow::Role(role)) => self.toggle_role(role),
            Some(VisibleRow::Pr(_)) => self.open_selected_pr(),
            None => {},
        }
        self.last_activity = Some(now);
    }

    fn open_selected_pr(&mut self)
        requires
            old(self).wf(),
        ensures
            final(self).wf(),
            final(self)@ == old(self)@.opening(),
    {
        let id = match self.selected_id() {
            Some(id) => id,
            None => {
                return;
            },
        };
        let (url, is_mention) = match find_pr(&self.prs, &id) {
            Some(pr) => (pr.url.clone(), pr.role == PrRole::Mentioned),
            None => {
                return;
            },
        };
        let was_new = self.new_pr_ids.remove(&id);
        let was_commented = self.new_comment_pr_ids.remove(&id);
        if was_new || was_commented {
            self.dirty = true;
        }
        let ghost opens = self@.opens;
        self.pending_opens.push(url);
        assert(self@.opens =~= opens.push(url@));
        if is_mention {
            let index: usize = match self.list_state.selected() {
                Some(i) => i,
                None => 0,
            };
            let ghost dismissals = self@.dismissals;
            self.pending_dismissals.push(id.clone());
            assert(self@.dismissals =~= dismissals.push(id@));
            drop_pr(&mut self.prs, &id);
            self.rebuild_visible_rows(None);
            let last: usize = self.visible_rows.len() - 1;
            self.list_state.select(Some(if index <= last { index } else { last }));
            self.dirty = true;
        }
    }

    /// Says that the browser could not be opened.
    pub fn browser_failed(&mut self, url: &str)
        requires
            old(self).wf(),
        ensures
            final(self).wf(),
            final(self)@ == (AppView {
                status: Some("Failed to open browser: "@ + url@),
                dirty: true,
                ..old(self)@
            }),
    {
        self.status_message = Some("Failed to open browser: ".to_owned().concat(url));
        self.dirty = true;
    }

    /// Hands the mentions that were opened over to the store.
    pub fn store_dismissals(&mut self, store: &mut DismissStore, now: Timestamp)
        requires
            old(self).wf(),
            old(store).wf(),
            now.in_calendar(),
        ensures
            final(self).wf(),
            final(store).wf(),
            final(self)@ == (AppView { dismissals: Seq::empty(), ..old(self)@ }),
            final(store)@ == (StoreView {
                dismissed: with_dismissals(
                    old(store)@.dismissed,
                    old(self)@.dismissals,
                    now,
                ),
                dirty: old(store)@.dirty || old(self)@.dismissals.len() > 0,
            }),
    {
        let mut ids: Vec<PrId> = Vec::new();
        std::mem::swap(&mut ids, &mut self.pending_dismissals);
        let ghost all = id_views(ids@);
        for i in 0..ids.len()
            invariant
                store.wf(),
                now.in_calendar(),
                all == id_views(ids@),
                store@.dismissed == with_dismissals(
                    old(store)@.dismissed,
                    all.take(i as int),
                    now,
                ),
                store@.dirty == (old(store)@.dirty || i > 0),
        {
            store.dismiss(ids[i].clone(), now);
            assert(all[i as int] == ids@[i as int]@);
            assert(all.take(i + 1).drop_last() =~= all.take(i as int));
        }
        assert(all.take(all.len() as int) =~= all);
        assert(self@.dismissals =~= Seq::empty());
    }

    fn move_up(&mut self, now: Instant)
        requires
            old(self).wf(),
        ensures
            final(self).wf(),
            final(self)@ == old(self)@.moving(old(self)@.row_above(), now),
    {
        if !matches!(self.loading, LoadingState::Loaded) {
            return;
        }
        let previous = self.selected_id();
        let target: usize = match self.list_state.selected() {
            Some(i) => if i == 0 {
                self.visible_rows.len() - 1
            } else {
                i - 1
            },
            None => 0,
        };
        self.move_focus_to(target, previous);
        self.last_activity = Some(now);
        self.dirty = true;
    }

    fn move_down(&mut self, now: Instant)
        requires
            old(self).wf(),
        ensures
            final(self).wf(),
            final(self)@ == old(self)@.moving(old(self)@.row_below(), now),
    {
        if !matches!(self.loading, LoadingState::Loaded) {
            return;
        }
        let previous = self.selected_id();
        let target: usize = match self.list_state.selected() {
            Some(i) => if i >= self.visible_rows.len() - 1 {
                0
            } else {
                i + 1
            },
            None => 0,
        };
        self.move_focus_to(target, previous);
        self.last_activity = Some(now);
        self.dirty = true;
    }

    fn deselect(&mut self)
        requires
            old(self).wf(),
        ensures
            final(self).wf(),
            final(self)@ == old(self)@.deselecting(),
    {
        if self.list_state.selected().is_some() {
            let previous = self.selected_id();
            self.list_state.select(None);
            if let Some(id) = previous {
                self.dismiss_if_done(&id);
                self.rebuild_visible_rows(None);
            }
            self.dirty = true;
        }
    }

    /// Puts the focus on the row `target_idx`, away from the pull request `prev_id`.
    pub fn move_focus_to(&mut self, target_idx: usize, prev_id: Option<PrId>)
        requires
            old(self).wf(),
        ensures
            final(self).wf(),
            final(self)@ == old(self)@.focusing(
                target_idx as int,
                match prev_id {
                    Some(id) => Some(id@),
                    None => None,
                },
            ),
    {
        let target = if target_idx < self.visible_rows.len() {
            assert(row_views(self.visible_rows@)[target_idx as int]
                == self.visible_rows@[target_idx as int]@);
            Some(self.visible_rows[target_idx].clone())
        } else {
            None
        };
        let target_id = match &target {
            Some(VisibleRow::Pr(id)) => Some(id.clone()),
            _ => None,
        };
        if let Some(prev_id) = &prev_id {
            let stays = match &target_id {
                Some(target_id) => *target_id == *prev_id,
                None => false,
            };
            if !stays {
                self.dismiss_if_done(prev_id);
            }
        }
        if let Some(target_id) = &target_id {
            self.new_pr_ids.remove(target_id);
            self.new_comment_pr_ids.remove(target_id);
        }
        self.rebuild_visible_rows(target);
    }

    /// Takes a closed or merged pull request out of the list for good.
    fn dismiss_if_done(&mut self, id: &PrId)
        requires
            old(self).parts_wf(),
        ensures
            final(self).parts_wf(),
            final(self)@ == old(self)@.dismissing(id@),
    {
        let is_done = match find_pr(&self.prs, id) {
            Some(pr) => matches!(pr.state, PrState::Closed | PrState::Merged),
            None => false,
        };
        if is_done {
            self.dismissed_ids.insert(id.clone());
            drop_pr(&mut self.prs, id);
        }
    }

    /// The selected pull request.
    pub fn selected_pr(&self) -> (r: Option<&PullRequest>)
        requires
            self.wf(),
        ensures
            r is Some <==> (self@.selected_id() matches Some(id) && has_key(self@.prs, id)),
            r matches Some(pr) ==> *pr == value_of(self@.prs, self@.selected_id()->0),
    {
        match self.selected_id() {
            Some(id) => find_pr(&self.prs, &id),
            None => None,
        }
    }

    fn take_snapshot(&mut self, payload: PollPayload)
        requires
            old(self).wf(),
            payload.head_shas.wf(),
        ensures
            final(self).wf(),
            is_listing(
                old(self)@.incoming(pr_entries(payload.prs), payload.head_shas@),
                final(self)@.prs,
            ),
            final(self)@ == old(self)@.polling(payload, final(self)@.prs),
    {
        let PollPayload { generation, mut prs, head_shas, polled_at } = payload;
        let already_loaded = matches!(self.loading, LoadingState::Loaded);
        self.sift(&mut prs, &head_shas);
        let diff = diff_pr_sets(&self.prs, &prs);
        if already_loaded {
            push_change(
                &mut self.pending_notifications,
                &mut self.new_comment_pr_ids,
                &self.prs,
                &prs,
                &diff.added,
                &diff.updated,
                &self.notify_events,
                self.username.as_str(),
            );
            insert_all(&mut self.new_pr_ids, &diff.added);
        }
        let present = keys_of_prs(&prs);
        self.new_pr_ids.retain_in(&present);
        self.new_comment_pr_ids.retain_in(&present);
        let selected = match self.selected_row() {
            Some(row) => Some(row.clone()),
            None => None,
        };
        sort_prs(&mut prs);
        self.prs = prs;
        self.head_shas = head_shas;
        self.generation = generation;
        self.last_poll = Some(polled_at);
        self.poll_error = None;
        self.status_message = None;
        if matches!(self.loading, LoadingState::Initial | LoadingState::Loading) {
            self.loading = LoadingState::Loaded;
        }
        self.dirty = true;
        self.rebuild_visible_rows(selected);
    }

    /// Leaves in a snapshot what the list takes up, with the CI status that is still right.
    fn sift(&self, prs: &mut IndexMap<PrId, PullRequest>, head_shas: &IdMap<String>)
        requires
            self.wf(),
            head_shas.wf(),
        ensures
            pr_entries(*final(prs)) == self@.incoming(pr_entries(*old(prs)), head_shas@),
            unique_keys(pr_entries(*final(prs))),
    {
        let ghost entries = pr_entries(*prs);
        let ghost accepted = |entry: (PrId, PullRequest)| self@.accepts(entry);
        let ghost kept = |entry: (PrId, PullRequest)|
            (entry.0, entry.1.with_ci(self@.kept_ci(entry, head_shas@)));
        let wanted = |id: &PrId, pr: &PullRequest| -> (r: bool)
            ensures
                r == self@.accepts((*id, *pr)),
        { self.is_wanted(id, pr) };
        keep_prs(prs, wanted);
        let ghost taken = entries.filter(accepted);
        assert(pr_entries(*prs) == taken);
        let count = pr_count(prs);
        for i in 0..count
            invariant
                self.wf(),
                head_shas.wf(),
                count == taken.len(),
                unique_keys(taken),
                unique_keys(pr_entries(*prs)),
                kept == |entry: (PrId, PullRequest)|
                    (entry.0, entry.1.with_ci(self@.kept_ci(entry, head_shas@))),
                pr_entries(*prs).len() == taken.len(),
                forall|j: int| 0 <= j < i ==> #[trigger] pr_entries(*prs)[j] == kept(taken[j]),
                forall|j: int| i <= j < count ==> #[trigger] pr_entries(*prs)[j] == taken[j],
        {
            let ghost before = pr_entries(*prs);
            let update = match pr_at(prs, i) {
                Some((id, pr)) => self.ci_to_keep(id, pr, head_shas),
                None => None,
            };
            assert(before[i as int] == taken[i as int]);
            if let Some((id, pr)) = update {
                put_pr(prs, id, pr);
                proof {
                    assert(is_key_at(before, id@, i as int));
                    let k = choose|k: int| is_key_at(before, id@, k);
                    assert(before[k].0@ == before[i as int].0@);
                    assert(k == i);
                    assert(pr_entries(*prs) == before.update(i as int, (before[i as int].0, pr)));
                }
            }
            assert(pr_entries(*prs)[i as int] == kept(taken[i as int]));
        }
        assert(pr_entries(*prs) =~= taken.map_values(kept));
    }

    /// Whether the list takes up an entry of a snapshot.
    fn is_wanted(&self, id: &PrId, pr: &PullRequest) -> (r: bool)
        ensures
            r == self@.accepts((*id, *pr)),
    {
        !self.dismissed_ids.contains(id) && (pr.state == PrState::Open || (matches!(
            self.loading,
            LoadingState::Loaded
        ) && find_pr(&self.prs, id).is_some()))
    }

    /// An entry of a snapshot with the CI status that the list has, where it is to be kept.
    fn ci_to_keep(&self, id: &PrId, pr: &PullRequest, head_shas: &IdMap<String>) -> (r: Option<
        (PrId, PullRequest),
    >)
        requires
            self.wf(),
            head_shas.wf(),
        ensures
            r is None ==> self@.kept_ci((*id, *pr), head_shas@) == pr.ci_status,
            r matches Some(entry) ==> entry == (
                *id,
                pr.with_ci(self@.kept_ci((*id, *pr), head_shas@)),
            ),
    {
        if pr.ci_status.is_some() {
            return None;
        }
        let known = match find_pr(&self.prs, id) {
            Some(known) => known,
            None => {
                return None;
            },
        };
        let same = match (self.head_shas.get(id), head_shas.get(id)) {
            (Some(one), Some(other)) => same_text(one.as_str(), other.as_str()),
            _ => false,
        };
        if same {
            let mut kept = pr.clone();
            kept.ci_status = known.ci_status;
            Some((id.clone(), kept))
        } else {
            None
        }
    }

    fn take_ci(&mut self, payload: CiPayload)
        requires
            old(self).wf(),
            payload.statuses.wf(),
        ensures
            final(self).wf(),
            final(self)@ == old(self)@.checking(payload),
    {
        if payload.generation != self.generation {
            return;
        }
        let loaded = matches!(self.loading, LoadingState::Loaded);
        let ghost entries = pr_entries(self.prs);
        let ghost updates = payload.statuses@;
        let ghost start = old(self)@;
        let ghost checked = |entry: (PrId, PullRequest)| start.checked(entry, updates);
        let ghost told = |entry: (PrId, PullRequest)|
            ci_notes(entry.1.ci_status, start.checked(entry, updates), start.events);
        assert(entries.take(0).flat_map(told) =~= Seq::empty());
        let count = pr_count(&self.prs);
        assert(self@ =~= AppView { prs: self@.prs, notes: self@.notes, ..start });
        for i in 0..count
            invariant
                count == entries.len(),
                start == old(self)@,
                entries == start.prs,
                unique_keys(entries),
                payload.statuses.wf(),
                updates == payload.statuses@,
                checked == |entry: (PrId, PullRequest)| start.checked(entry, updates),
                told == |entry: (PrId, PullRequest)|
                    ci_notes(entry.1.ci_status, start.checked(entry, updates), start.events),
                loaded == (start.loading is Loaded),
                self.parts_wf(),
                self.visible_rows == old(self).visible_rows,
                self@ == (AppView { prs: self@.prs, notes: self@.notes, ..start }),
                self@.prs.len() == entries.len(),
                forall|j: int| 0 <= j < i ==> #[trigger] self@.prs[j] == checked(entries[j]),
                forall|j: int| i <= j < count ==> #[trigger] self@.prs[j] == entries[j],
                self@.notes == if loaded {
                    start.notes + entries.take(i as int).flat_map(told)
                } else {
                    start.notes
                },
        {
            let ghost before = self@.prs;
            let ghost step = self@.notes;
            let ghost entry = entries[i as int];
            proof {
                entries.lemma_flat_map_take_append(told, i as int);
            }
            let update = match pr_at(&self.prs, i) {
                Some((id, pr)) => self.ci_to_take(id, pr, &payload.statuses),
                None => None,
            };
            assert(before[i as int] == entry);
            if let Some((id, old_status, pr)) = update {
                if loaded {
                    push_ci(
                        &mut self.pending_notifications,
                        &old_status,
                        &id,
                        &pr,
                        &self.notify_events,
                    );
                }
                put_pr(&mut self.prs, id, pr);
                proof {
                    assert(is_key_at(before, id@, i as int));
                    let k = choose|k: int| is_key_at(before, id@, k);
                    assert(before[k].0@ == before[i as int].0@);
                    assert(k == i);
                }
            }
            assert(self@.prs[i as int] == checked(entry));
            assert(loaded ==> self@.notes =~= step + told(entry));
            assert(loaded ==> self@.notes =~= start.notes + entries.take(i + 1).flat_map(told));
        }
        assert(entries.take(entries.len() as int) =~= entries);
        assert(self@.prs =~= entries.map_values(checked));
        self.dirty = true;
        proof {
            lemma_rows_ignore_ci(entries, checked, start.collapsed);
        }
    }

    /// A pull request with its new CI status, where there is one for its head commit.
    fn ci_to_take(&self, id: &PrId, pr: &PullRequest, updates: &IdMap<CiUpdate>) -> (r: Option<
        (PrId, Option<CiStatus>, PullRequest),
    >)
        requires
            self.head_shas.wf(),
            updates.wf(),
        ensures
            r is Some <==> self@.takes_ci(id@, updates@),
            r matches Some(update) ==> update.0 == *id && update.1 == pr.ci_status && update.2
                == pr.with_ci(updates@[id@].status),
    {
        match (updates.get(id), self.head_shas.get(id)) {
            (Some(update), Some(sha)) => {
                if same_text(update.head_sha.as_str(), sha.as_str()) {
                    let mut checked = pr.clone();
                    checked.ci_status = update.status;
                    Some((id.clone(), pr.ci_status, checked))
                } else {
                    None
                }
            },
            _ => None,
        }
    }
}

fn insert_all(set: &mut IdSet, ids: &Vec<PrId>)
    requires
        old(set).wf(),
    ensures
        final(set).wf(),
        final(set)@ == old(set)@.union(id_views(ids@).to_set()),
{
    let ghost views = id_views(ids@);
    assert(views.take(0).to_set() =~= Set::empty());
    assert(set@ =~= set@.union(Set::empty()));
    for i in 0..ids.len()
        invariant
            set.wf(),
            views == id_views(ids@),
            set@ == old(set)@.union(views.take(i as int).to_set()),
    {
        set.insert(ids[i].clone());
        proof {
            assert(views[i as int] == ids@[i as int]@);
            assert(views.take(i + 1) =~= views.take(i as int).push(views[i as int]));
            views.take(i as int).lemma_push_to_set_commute(views[i as int]);
        }
        assert(set@ =~= old(set)@.union(views.take(i + 1).to_set()));
    }
    assert(views.take(views.len() as int) =~= views);
}

/// A change of the CI status alone leaves the rows as they are.
pub proof fn lemma_rows_ignore_ci(
    entries: Seq<(PrId, PullRequest)>,
    changed: spec_fn((PrId, PullRequest)) -> (PrId, PullRequest),
    collapsed: Set<PrRole>,
)
    requires
        forall|entry: (PrId, PullRequest)|
            (#[trigger] changed(entry)).0 == entry.0 && changed(entry).1.role == entry.1.role,
    ensures
        rows_of(entries.map_values(changed), collapsed) == rows_of(entries, collapsed),
{
    lemma_pr_rows_ignore_ci(entries, changed, PrRole::Author);
    lemma_pr_rows_ignore_ci(entries, changed, PrRole::ReviewRequested);
    lemma_pr_rows_ignore_ci(entries, changed, PrRole::Mentioned);
}

proof fn lemma_pr_rows_ignore_ci(
    entries: Seq<(PrId, PullRequest)>,
    changed: spec_fn((PrId, PullRequest)) -> (PrId, PullRequest),
    role: PrRole,
)
    requires
        forall|entry: (PrId, PullRequest)|
            (#[trigger] changed(entry)).0 == entry.0 && changed(entry).1.role == entry.1.role,
    ensures
        pr_rows(entries.map_values(changed), role) == pr_rows(entries, role),
    decreases entries.len(),
{
    let shown = |entry: (PrId, PullRequest)| entry.1.role == role;
    if entries.len() == 0 {
        assert(entries.map_values(changed) =~= entries);
    } else {
        let rest = entries.drop_last();
        let last = entries.last();
        lemma_pr_rows_ignore_ci(rest, changed, role);
        assert(entries =~= rest.push(last));
        assert(entries.map_values(changed) =~= rest.map_values(changed).push(changed(last)));
        rest.lemma_filter_push(last, shown);
        rest.map_values(changed).lemma_filter_push(changed(last), shown);
        assert(pr_rows(entries, role) =~= if shown(last) {
            pr_rows(rest, role).push(RowView::Pr(last.0@))
        } else {
            pr_rows(rest, role)
        });
        assert(pr_rows(entries.map_values(changed), role) =~= if shown(last) {
            pr_rows(rest.map_values(changed), role).push(RowView::Pr(last.0@))
        } else {
            pr_rows(rest.map_values(changed), role)
        });
    }
}

} // verus!
