//! What the terminal shows of a session: focus, reading positions, the sidebar.

use std::collections::HashMap;
use std::ops::Deref;
use std::time::SystemTime;

use vstd::prelude::*;

pub use crate::app::Focus;

use crate::application::events::conversations;
use crate::application::laws::lemma_register_extends;
use crate::application::submission::{connection_names, told, Submitted};
use crate::application::{
    submit, Connections, Session, SessionView, SubmissionEffect,
};
use crate::config::Config;
use crate::connection::IrcEvent;
use crate::history::HistoryView;
use crate::layout::LayoutLine;
use crate::model::{BufferId, DraftView, MessageId, MessageView, RoutedMessage, RoutedMessageView};
use crate::sequence::{first_index, lemma_is_first_index, lemma_no_first_index};
use crate::tui::layout::{countable, in_order, laid_all, position, span_view, LayoutView};
use crate::tui::sidebar::{
    has_key, rows, shows, sidebar_rows, RowKey, RowKeyView, SidebarRow, SidebarRowView,
};
use crate::tui::state::{find_message, is_message, ViewState, ViewStateView};
use crate::ui::{less, smaller};

verus! {

/// Messages kept for each conversation.
pub const MAX_MESSAGES: usize = 5_000;

/// Rows of wrapped text kept for each conversation besides those that are shown.
pub const MAX_CACHED_LINES: usize = 50_000;

/// How long the dot of a connecting server stays on, and off, in milliseconds.
pub const DOT_MILLIS: u64 = 500;

/// A row of the sidebar, by where it stands and by what it is about.
#[verifier::ext_equal]
pub ghost struct MarkView {
    pub row: int,
    pub key: Option<RowKeyView>,
}

#[verifier::ext_equal]
pub ghost struct AppView {
    pub session: SessionView,
    pub views: Map<BufferId, ViewStateView>,
    pub focus: Focus,
    pub cursor: Option<MarkView>,
    pub hovered: Option<MarkView>,
    pub sidebar_offset: int,
    pub sidebar_height: u16,
    pub width: u16,
    pub height: u16,
    pub running: bool,
    pub dot: bool,
    pub budget: nat,
}

impl AppView {
    pub open spec fn empty(width: u16, height: u16, message_cap: nat, budget: nat) -> AppView {
        AppView {
            session: SessionView::empty(message_cap),
            views: Map::empty(),
            focus: Focus::Sidebar,
            cursor: Some(MarkView { row: 0, key: None }),
            hovered: None,
            sidebar_offset: 0,
            sidebar_height: 0,
            width,
            height,
            running: true,
            dot: true,
            budget,
        }
    }

    /// Nothing was shown before there was a conversation to show.
    pub open spec fn begun(self) -> bool {
        self.session.active is None ==> forall|id: BufferId| !self.views.contains_key(id)
    }

    /// Besides, the message pane is not scrolled past its largest offset.
    pub open spec fn settled(self) -> bool {
        &&& self.begun()
        &&& 0 <= self.scroll_offset() <= self.max_offset()
    }

    pub open spec fn wf(self) -> bool {
        &&& self.session.wf()
        &&& self.settled()
    }

    /// The rows of every conversation can be counted.
    pub open spec fn countable(self) -> bool {
        forall|b: BufferId| countable(#[trigger] self.session.history.of(b))
    }

    pub open spec fn with_session(self, session: SessionView) -> AppView {
        AppView { session, ..self }
    }

    /// Another text in the composer.
    pub open spec fn with_draft(self, draft: DraftView) -> AppView {
        self.with_session(self.session.with_draft(draft))
    }

    /// How a conversation is shown, new where it was never shown.
    pub open spec fn state_of(self, id: BufferId) -> ViewStateView {
        if self.views.contains_key(id) {
            self.views[id]
        } else {
            ViewStateView::new()
        }
    }

    /// How the active conversation is shown.
    pub open spec fn state(self) -> Option<ViewStateView> {
        match self.session.active {
            Some(id) => if self.views.contains_key(id) {
                Some(self.views[id])
            } else {
                None
            },
            None => None,
        }
    }

    pub open spec fn with_state(self, state: ViewStateView) -> AppView {
        match self.session.active {
            Some(id) => AppView { views: self.views.insert(id, state), ..self },
            None => self,
        }
    }

    /// The messages of the active conversation.
    pub open spec fn messages(self) -> Seq<MessageView> {
        self.session.history.of(
            match self.session.active {
                Some(id) => id,
                None => BufferId(0),
            },
        )
    }

    pub open spec fn total_height(self) -> int {
        match self.state() {
            Some(state) => state.layout.total(),
            None => 0,
        }
    }

    pub open spec fn max_offset(self) -> int {
        less(self.total_height(), self.height as int)
    }

    pub open spec fn scroll_offset(self) -> int {
        match self.state() {
            Some(state) => state.offset,
            None => 0,
        }
    }

    pub open spec fn at_bottom(self) -> bool {
        self.scroll_offset() >= self.max_offset()
    }

    pub open spec fn scrolled_to(self, offset: int) -> AppView {
        match self.state() {
            Some(state) => self.with_state(state.scrolled_to(offset, self.height)),
            None => self,
        }
    }

    /// Scrolled by a number of rows, up where it is negative.
    pub open spec fn scrolled_by(self, delta: int) -> AppView {
        self.scrolled_to(
            if self.scroll_offset() + delta < 0 {
                0
            } else {
                self.scroll_offset() + delta
            },
        )
    }

    /// A third of the viewport, or a row.
    pub open spec fn page(self) -> int {
        if self.height / 3 < 1 {
            1
        } else {
            (self.height / 3) as int
        }
    }

    pub open spec fn index_of_message(self, id: Option<MessageId>) -> Option<int> {
        match id {
            Some(id) => first_index(self.messages(), is_message(id)),
            None => None,
        }
    }

    pub open spec fn selected(self) -> Option<int> {
        match self.state() {
            Some(state) => self.index_of_message(state.selected),
            None => None,
        }
    }

    pub open spec fn hovered_message(self) -> Option<int> {
        match self.state() {
            Some(state) => self.index_of_message(state.hovered),
            None => None,
        }
    }

    /// New messages move the viewport: it is at the bottom, and no selection holds it.
    pub open spec fn follows(self) -> bool {
        self.at_bottom() && !(self.focus == Focus::Messages && self.selected() is Some)
    }

    /// The active conversation in line with its history. It counts as read where the
    /// message pane has cells and shows the newest row.
    pub open spec fn sync_layout(self, follow: bool) -> AppView {
        match self.session.active {
            Some(id) => {
                let state = self.state_of(id).synced(
                    self.session.history.of(id),
                    self.width,
                    self.height,
                    follow,
                );
                AppView {
                    views: self.views.insert(id, state),
                    session: if self.width > 0 && self.height > 0 && state.offset
                        >= state.max_offset(self.height) {
                        self.session.mark_read(id)
                    } else {
                        self.session
                    },
                    ..self
                }
            },
            None => self,
        }
    }

    pub open spec fn sidebar_rows(self) -> Seq<SidebarRowView> {
        rows(self.session.buffers)
    }

    /// The mark of a row, or of the last one where there are fewer.
    pub open spec fn mark(self, row: int) -> MarkView {
        let all = self.sidebar_rows();
        if all.len() == 0 {
            MarkView { row, key: None }
        } else {
            let at = smaller(row, all.len() - 1);
            MarkView { row: at, key: Some(all[at].key()) }
        }
    }

    /// Where the row that a mark is about stands now.
    pub open spec fn found(self, mark: MarkView) -> Option<int> {
        match mark.key {
            Some(key) => first_index(self.sidebar_rows(), has_key(key)),
            None => None,
        }
    }

    /// The sidebar in line with its rows: cursor and hover stay on what they are
    /// about, and the offset leaves no row empty below the last one.
    pub open spec fn sync_sidebar(self) -> AppView {
        AppView {
            cursor: match self.cursor {
                Some(mark) => Some(
                    match self.found(mark) {
                        Some(row) => MarkView { row, ..mark },
                        None => self.mark(mark.row),
                    },
                ),
                None => None,
            },
            hovered: match self.hovered {
                Some(mark) => match self.found(mark) {
                    Some(row) => Some(MarkView { row, ..mark }),
                    None => None,
                },
                None => None,
            },
            ..self.sidebar_scrolled_to(self.sidebar_offset)
        }
    }

    pub open spec fn max_sidebar_offset(self) -> int {
        less(self.sidebar_rows().len() as int, self.sidebar_height as int)
    }

    pub open spec fn sidebar_scrolled_to(self, offset: int) -> AppView {
        let offset = smaller(offset, self.max_sidebar_offset());
        AppView {
            sidebar_offset: if offset < 0 {
                0
            } else {
                offset
            },
            ..self
        }
    }

    /// The sidebar scrolled as little as shows a row.
    pub open spec fn row_revealed(self, row: int) -> AppView {
        self.sidebar_scrolled_to(
            if row < self.sidebar_offset {
                row
            } else if self.sidebar_height > 0 && row >= self.sidebar_offset + self.sidebar_height {
                row + 1 - self.sidebar_height
            } else {
                self.sidebar_offset
            },
        )
    }

    pub open spec fn sync_view(self) -> AppView {
        self.sync_layout(self.follows()).sync_sidebar()
    }

    /// A message is routed, and the view follows it or stays.
    pub open spec fn push(self, message: RoutedMessageView) -> AppView {
        let follow = self.session.buffers.len() == 0 || self.follows();
        self.with_session(self.session.push(message).0).sync_layout(follow).sync_sidebar()
    }

    /// The row of the active conversation, or the first one.
    pub open spec fn active_row(self) -> int {
        match self.session.active_buffer() {
            Some(buffer) => match first_index(self.sidebar_rows(), shows(buffer.id)) {
                Some(row) => row,
                None => 0,
            },
            None => 0,
        }
    }

    /// The active conversation comes into view: at its newest rows when it is shown
    /// first, and where it was read later on.
    pub open spec fn entered(self) -> AppView {
        match self.session.active {
            Some(id) => {
                let state = self.state_of(id);
                let synced = self.with_state(
                    ViewStateView { viewed: true, hovered: None, ..state },
                ).sync_layout(!state.viewed).sync_sidebar();
                synced.row_revealed(synced.active_row())
            },
            None => self,
        }
    }

    pub open spec fn select_buffer(self, index: int) -> AppView {
        if 0 <= index < self.session.buffers.len() {
            self.with_session(
                SessionView { active: Some(self.session.buffers[index].id), ..self.session },
            ).entered()
        } else {
            self
        }
    }

    pub open spec fn activate(self, id: BufferId) -> AppView {
        let session = self.session.select(id);
        if session.active == Some(id) {
            self.with_session(session).entered()
        } else {
            self
        }
    }

    pub open spec fn apply_effect(self, effect: SubmissionEffect) -> AppView {
        match effect {
            SubmissionEffect::Nothing => self,
            SubmissionEffect::Activate(id) => AppView {
                focus: Focus::Composer,
                cursor: None,
                ..self.activate(id)
            },
        }
    }

    pub open spec fn ensure_selection(self) -> AppView {
        match self.state() {
            Some(state) => if self.selected() is Some {
                self
            } else {
                self.with_state(
                    ViewStateView {
                        selected: match state.layout.last_within(
                            state.offset,
                            state.offset + self.height,
                            state.layout.messages.len() as int,
                        ) {
                            Some(id) => Some(id),
                            None => if self.messages().len() > 0 {
                                Some(self.messages().last().id)
                            } else {
                                None
                            },
                        },
                        ..state
                    },
                )
            },
            None => self,
        }
    }

    pub open spec fn revealed(self) -> AppView {
        match self.state() {
            Some(state) => self.with_state(state.revealed(self.height)),
            None => self,
        }
    }

    /// The selection moves to the next newer or older message, and into view.
    pub open spec fn move_selection(self, newer: bool) -> AppView {
        if self.focus != Focus::Messages {
            self
        } else {
            let chosen = self.ensure_selection();
            let moved = match (chosen.selected(), chosen.state()) {
                (Some(index), Some(state)) => chosen.with_state(
                    ViewStateView {
                        selected: Some(
                            chosen.messages()[if newer {
                                smaller(index + 1, chosen.messages().len() - 1)
                            } else {
                                less(index, 1)
                            }].id,
                        ),
                        ..state
                    },
                ),
                _ => chosen,
            };
            moved.revealed()
        }
    }

    pub open spec fn hover_message(self, index: Option<int>) -> AppView {
        match self.state() {
            Some(state) => self.with_state(
                ViewStateView {
                    hovered: match index {
                        Some(index) => if 0 <= index < self.messages().len() {
                            Some(self.messages()[index].id)
                        } else {
                            None
                        },
                        None => None,
                    },
                    ..state
                },
            ),
            None => self,
        }
    }

    /// The message on a row of the pane.
    pub open spec fn message_at_row(self, row: int) -> Option<int> {
        match self.state() {
            Some(state) => state.layout.message_at(state.offset + row),
            None => None,
        }
    }

    pub open spec fn click_message(self, index: int) -> AppView {
        let clicked = match self.state() {
            Some(state) => if 0 <= index < self.messages().len() {
                self.with_state(
                    ViewStateView { selected: Some(self.messages()[index].id), ..state },
                )
            } else {
                self
            },
            None => self,
        };
        AppView { focus: Focus::Messages, ..clicked }
    }

    pub open spec fn tab(self) -> AppView {
        match self.focus {
            Focus::Composer => if self.session.buffers.len() == 0 {
                self
            } else {
                let row = self.active_row();
                AppView {
                    focus: Focus::Sidebar,
                    cursor: Some(self.mark(row)),
                    ..self.row_revealed(row)
                }
            },
            Focus::Sidebar => AppView { focus: Focus::Messages, ..self.ensure_selection() },
            Focus::Messages => AppView { focus: Focus::Composer, ..self },
        }
    }

    pub open spec fn hover_sidebar(self, row: Option<int>) -> AppView {
        AppView {
            hovered: match row {
                Some(row) => if 0 <= row < self.sidebar_rows().len() {
                    Some(self.mark(row))
                } else {
                    None
                },
                None => None,
            },
            ..self
        }
    }

    pub open spec fn move_cursor(self, down: bool) -> AppView {
        if self.focus != Focus::Sidebar || self.sidebar_rows().len() == 0 {
            self
        } else {
            let synced = self.sync_sidebar();
            let at = match synced.cursor {
                Some(mark) => mark.row,
                None => 0,
            };
            let next = if down {
                smaller(at + 1, self.sidebar_rows().len() - 1)
            } else {
                less(at, 1)
            };
            AppView { cursor: Some(synced.mark(next)), ..synced.row_revealed(next) }
        }
    }

    /// A row is used: its conversation is shown, a server's console being opened for
    /// that where there is none, and the composer takes the focus.
    pub open spec fn click_row(self, row: int) -> AppView {
        let all = self.sidebar_rows();
        if 0 <= row < all.len() {
            let (session, id) = match all[row].id {
                Some(id) => (self.session, id),
                None => self.session.open_server(all[row].server),
            };
            AppView {
                focus: Focus::Composer,
                cursor: None,
                ..self.with_session(session).activate(id)
            }
        } else {
            self
        }
    }

    pub open spec fn enter(self) -> AppView {
        let synced = self.sync_sidebar();
        match (self.focus, synced.cursor) {
            (Focus::Sidebar, Some(mark)) => synced.click_row(mark.row),
            _ => self,
        }
    }

    /// The row that a change of the sidebar's height brings into view.
    pub open spec fn kept_row(self) -> int {
        match self.cursor {
            Some(mark) => mark.row,
            None => self.active_row(),
        }
    }

    pub open spec fn sidebar_resized(self, height: u16) -> AppView {
        if height == self.sidebar_height {
            self
        } else {
            let resized = AppView { sidebar_height: height, ..self };
            resized.row_revealed(resized.kept_row())
        }
    }
}

/// A row of the sidebar, by where it stands and by what it is about.
#[derive(Debug)]
struct Mark {
    row: usize,
    key: Option<RowKey>,
}

impl View for Mark {
    type V = MarkView;

    closed spec fn view(&self) -> MarkView {
        MarkView { row: self.row as int, key: self.key.deep_view() }
    }
}

impl DeepView for Mark {
    type V = MarkView;

    closed spec fn deep_view(&self) -> MarkView {
        self@
    }
}

pub struct App {
    pub session: Session,
    views: HashMap<u64, ViewState>,
    focus: Focus,
    sidebar_cursor: Option<Mark>,
    sidebar_hovered: Option<Mark>,
    sidebar_offset: usize,
    sidebar_height: u16,
    width: u16,
    viewport_height: u16,
    running: bool,
    connecting_dot_visible: bool,
    cache_budget: usize,
}

impl View for App {
    type V = AppView;

    closed spec fn view(&self) -> AppView {
        AppView {
            session: self.session@,
            views: Map::new(
                |b: BufferId| self.views@.contains_key(b.0),
                |b: BufferId| self.views@[b.0]@,
            ),
            focus: self.focus,
            cursor: self.sidebar_cursor.deep_view(),
            hovered: self.sidebar_hovered.deep_view(),
            sidebar_offset: self.sidebar_offset as int,
            sidebar_height: self.sidebar_height,
            width: self.width,
            height: self.viewport_height,
            running: self.running,
            dot: self.connecting_dot_visible,
            budget: self.cache_budget as nat,
        }
    }
}

impl Deref for App {
    type Target = Session;

    fn deref(&self) -> (session: &Session)
        ensures
            session@ == self@.session,
            self.wf() ==> session.wf(),
    {
        &self.session
    }
}

/// A conversation's messages stand in the order of their identities.
pub proof fn lemma_history_in_order(history: HistoryView, id: BufferId)
    requires
        history.wf(),
    ensures
        in_order(laid_all(history.of(id))),
{
    let messages = laid_all(history.of(id));
    assert forall|i: int, j: int| 0 <= i < j < messages.len() implies (#[trigger] messages[i]).id.0
        < (#[trigger] messages[j]).id.0 by {
        assert(history.buffers[id][i].id.0 < history.buffers[id][j].id.0);
    }
}

/// A session with the same conversation active, or the first one, is shown no
/// further scrolled.
proof fn lemma_with_session_settled(app: AppView, session: SessionView)
    requires
        app.settled(),
        app.session.active is Some ==> session.active == app.session.active,
    ensures
        app.with_session(session).settled(),
{
}

impl App {
    pub closed spec fn wf(&self) -> bool {
        &&& self.begun()
        &&& self@.settled()
    }

    spec fn begun(&self) -> bool {
        &&& self.session.wf()
        &&& forall|id: u64| #[trigger] self.views@.contains_key(id) ==> self.views@[id].wf()
        &&& self@.begun()
    }

    /// A sound app has a sound view: it shows a sound session, and its message pane
    /// is never scrolled past the largest offset.
    pub broadcast proof fn lemma_wf(&self)
        requires
            #[trigger] self.wf(),
        ensures
            self@.wf(),
    {
        self.session.lemma_wf();
    }

    pub fn new(width: u16, viewport_height: u16) -> (app: Self)
        ensures
            app.wf(),
            app@ == AppView::empty(
                width,
                viewport_height,
                MAX_MESSAGES as nat,
                MAX_CACHED_LINES as nat,
            ),
            app@.session.history.capacity == 5_000,
            app@.budget == 50_000,
    {
        App::with_caps(width, viewport_height, MAX_MESSAGES, MAX_CACHED_LINES)
    }

    /// An app with its own limits on messages and cached rows.
    pub fn with_caps(width: u16, viewport_height: u16, message_cap: usize, cache_budget: usize) -> (
        app: Self)
        ensures
            app.wf(),
            app@ == AppView::empty(
                width,
                viewport_height,
                message_cap as nat,
                cache_budget as nat,
            ),
    {
        let app = App {
            session: Session::new(message_cap),
            views: HashMap::new(),
            focus: Focus::Sidebar,
            sidebar_cursor: Some(Mark { row: 0, key: None }),
            sidebar_hovered: None,
            sidebar_offset: 0,
            sidebar_height: 0,
            width,
            viewport_height,
            running: true,
            connecting_dot_visible: true,
            cache_budget,
        };
        assert(app@.views =~= Map::empty());
        app
    }

    /// How the active conversation is shown.
    pub fn view_state(&self) -> (state: Option<&ViewState>)
        requires
            self.wf(),
        ensures
            match state {
                Some(state) => self@.state() == Some(state@) && state.wf(),
                None => self@.state() is None,
            },
    {
        broadcast use vstd::std_specs::hash::group_hash_axioms;
        match self.session.active() {
            Some(id) => self.views.get(&id.0),
            None => None,
        }
    }

    fn take_state(&mut self, id: BufferId) -> (state: Option<ViewState>)
        requires
            old(self).begun(),
        ensures
            final(self).begun(),
            final(self)@ == (AppView { views: old(self)@.views.remove(id), ..old(self)@ }),
            match state {
                Some(state) => {
                    &&& state.wf()
                    &&& old(self)@.views.contains_key(id)
                    &&& state@ == old(self)@.views[id]
                },
                None => !old(self)@.views.contains_key(id),
            },
    {
        broadcast use vstd::std_specs::hash::group_hash_axioms;
        let ghost before = self@;
        let state = self.views.remove(&id.0);
        assert(self@.views =~= before.views.remove(id));
        state
    }

    fn put_state(&mut self, id: BufferId, state: ViewState)
        requires
            old(self).begun(),
            state.wf(),
            old(self)@.session.active is Some,
        ensures
            final(self).begun(),
            final(self)@ == (AppView { views: old(self)@.views.insert(id, state@), ..old(self)@ }),
    {
        broadcast use vstd::std_specs::hash::group_hash_axioms;
        let ghost before = self@;
        self.views.insert(id.0, state);
        assert(self@.views =~= before.views.insert(id, state@));
    }

    /// The state of the active conversation, to be put back with its identity.
    fn take_active(&mut self) -> (state: Option<(BufferId, ViewState)>)
        requires
            old(self).wf(),
        ensures
            final(self).begun(),
            match state {
                Some((id, state)) => {
                    &&& state.wf()
                    &&& old(self)@.session.active == Some(id)
                    &&& old(self)@.state() == Some(state@)
                    &&& final(self)@ == (AppView {
                        views: old(self)@.views.remove(id),
                        ..old(self)@
                    })
                },
                None => old(self)@.state() is None && final(self)@ == old(self)@,
            },
    {
        let ghost before = self@;
        match self.session.active() {
            Some(id) => match self.take_state(id) {
                Some(state) => Some((id, state)),
                None => {
                    assert(before.views.remove(id) =~= before.views);
                    None
                },
            },
            None => None,
        }
    }

    fn put_active(&mut self, id: BufferId, state: ViewState, Ghost(before): Ghost<AppView>)
        requires
            old(self).begun(),
            before.settled(),
            state.wf(),
            state@.offset <= state@.max_offset(before.height),
            before.session.active == Some(id),
            old(self)@ == (AppView { views: before.views.remove(id), ..before }),
        ensures
            final(self).wf(),
            final(self)@ == before.with_state(state@),
    {
        self.put_state(id, state);
        assert(self@.views =~= before.views.insert(id, state@));
    }

    fn sync_layout(&mut self, follow: bool)
        requires
            old(self).begun(),
            old(self)@.countable(),
        ensures
            final(self).wf(),
            final(self)@ == old(self)@.sync_layout(follow),
    {
        let id = match self.session.active() {
            Some(id) => id,
            None => return ,
        };
        let ghost before = self@;
        let mut state = match self.take_state(id) {
            Some(state) => state,
            None => ViewState::default(),
        };
        proof {
            self.session.lemma_wf();
            lemma_history_in_order(before.session.history, id);
            assert(countable(before.session.history.of(id)));
        }
        state.sync(
            self.session.messages_for(id),
            self.width,
            self.viewport_height,
            self.cache_budget,
            follow,
        );
        let read = self.width > 0 && self.viewport_height > 0 && state.scroll_offset
            >= state.max_offset(self.viewport_height);
        self.put_state(id, state);
        assert(self@.views =~= before.views.insert(id, state@));
        if read {
            self.session.mark_read(id);
        }
    }

    /// Show the conversation at this place in the order of registration.
    pub fn select_buffer(&mut self, index: usize)
        requires
            old(self).wf(),
            old(self)@.countable(),
        ensures
            final(self).wf(),
            final(self)@ == old(self)@.select_buffer(index as int),
    {
        if index >= self.session.buffer_count() {
            return ;
        }
        self.session.select_buffer(index);
        self.enter_active();
    }

    /// Bring the active conversation into view.
    fn enter_active(&mut self)
        requires
            old(self).begun(),
            old(self)@.countable(),
        ensures
            final(self).wf(),
            final(self)@ == old(self)@.entered(),
    {
        let id = match self.session.active() {
            Some(id) => id,
            None => return ,
        };
        let ghost before = self@;
        let mut state = match self.take_state(id) {
            Some(state) => state,
            None => ViewState::default(),
        };
        let first = !state.viewed;
        state.viewed = true;
        state.hovered = None;
        self.put_state(id, state);
        assert(self@.views =~= before.views.insert(id, state@));
        self.sync_layout(first);
        self.sync_sidebar();
        let row: usize = self.active_sidebar_row();
        self.reveal_row(row);
    }

    /// Show a conversation, unless it is hidden or unknown.
    pub fn activate_buffer(&mut self, id: BufferId)
        requires
            old(self).wf(),
            old(self)@.countable(),
        ensures
            final(self).wf(),
            final(self)@ == old(self)@.activate(id),
    {
        let ghost before = self@;
        self.session.select_buffer_id(id);
        match self.session.active() {
            Some(active) => {
                if active == id {
                    self.enter_active();
                    return ;
                }
            },
            None => {},
        }
        assert(self@ == before);
    }

    /// Do what a submission asks of the view.
    pub fn apply_submission_effect(&mut self, effect: SubmissionEffect)
        requires
            old(self).wf(),
            old(self)@.countable(),
        ensures
            final(self).wf(),
            final(self)@ == old(self)@.apply_effect(effect),
    {
        match effect {
            SubmissionEffect::Nothing => {},
            SubmissionEffect::Activate(id) => {
                self.activate_buffer(id);
                self.focus = Focus::Composer;
                self.sidebar_cursor = None;
            },
        }
    }

    /// Submit what the composer holds. What is to be recorded comes back with the
    /// effect.
    pub fn submit(&mut self, config: &Config, connections: &Connections, status: &mut String) -> (
        submitted: Submitted)
        requires
            old(self).wf(),
            old(self)@.session.has_room(),
        ensures
            final(self).wf(),
            exists|queued: bool, at: SystemTime|
                {
                    let (after, news, effect, feedback) = #[trigger] old(self)@.session.submit(
                        config@,
                        connection_names(*connections),
                        queued,
                        at,
                    );
                    final(self)@ == old(self)@.with_session(after) && final(status)@ == told(
                        old(status)@,
                        news,
                    ) && submitted.effect == effect && submitted.feedback.deep_view() == feedback
                },
    {
        let ghost before = self@;
        let submitted = submit(&mut self.session, config, connections, status);
        proof {
            lemma_with_session_settled(before, self.session@);
            assert(self@ =~= before.with_session(self.session@));
        }
        submitted
    }

    /// Type one character.
    pub fn type_char(&mut self, character: char)
        requires
            old(self).wf(),
        ensures
            final(self).wf(),
            final(self)@ == old(self)@.with_draft(old(self)@.session.draft().insert(character)),
    {
        self.session.type_char(character);
    }

    /// Remove the character before the cursor.
    pub fn backspace(&mut self)
        requires
            old(self).wf(),
        ensures
            final(self).wf(),
            final(self)@ == old(self)@.with_draft(old(self)@.session.draft().backspace()),
    {
        self.session.backspace();
    }

    /// Remove the character after the cursor.
    pub fn delete(&mut self)
        requires
            old(self).wf(),
        ensures
            final(self).wf(),
            final(self)@ == old(self)@.with_draft(old(self)@.session.draft().delete()),
    {
        self.session.delete();
    }

    pub fn cursor_left(&mut self)
        requires
            old(self).wf(),
        ensures
            final(self).wf(),
            final(self)@ == old(self)@.with_draft(old(self)@.session.draft().left()),
    {
        self.session.cursor_left();
    }

    pub fn cursor_right(&mut self)
        requires
            old(self).wf(),
        ensures
            final(self).wf(),
            final(self)@ == old(self)@.with_draft(old(self)@.session.draft().right()),
    {
        self.session.cursor_right();
    }

    pub fn cursor_home(&mut self)
        requires
            old(self).wf(),
        ensures
            final(self).wf(),
            final(self)@ == old(self)@.with_draft(old(self)@.session.draft().home()),
    {
        self.session.cursor_home();
    }

    pub fn cursor_end(&mut self)
        requires
            old(self).wf(),
        ensures
            final(self).wf(),
            final(self)@ == old(self)@.with_draft(old(self)@.session.draft().end()),
    {
        self.session.cursor_end();
    }

    /// Register what the configuration names, without showing any of it.
    pub fn register_config(&mut self, config: &Config)
        requires
            old(self).wf(),
            old(self)@.session.next_buffer_id + conversations(config@, config@.len() as int)
                <= u64::MAX,
        ensures
            final(self).wf(),
            final(self)@ == old(self)@.with_session(
                old(self)@.session.register(config@, config@.len() as int),
            ),
    {
        let ghost before = self@;
        proof {
            lemma_register_extends(before.session, config@, config@.len() as int);
        }
        self.session.register_config(config);
        proof {
            lemma_with_session_settled(before, self.session@);
            assert(self@ =~= before.with_session(self.session@));
        }
    }

    /// Route a worker's report.
    pub fn handle_event(&mut self, event: IrcEvent)
        requires
            old(self).wf(),
            old(self)@.session.has_room(),
        ensures
            final(self).wf(),
            exists|at: SystemTime|
                final(self)@ == old(self)@.with_session(
                    #[trigger] old(self)@.session.handle_event(event@, at),
                ),
    {
        let ghost before = self@;
        self.session.handle_event(event);
        proof {
            lemma_with_session_settled(before, self.session@);
            assert(self@ =~= before.with_session(self.session@));
        }
    }

    /// Route a message and follow it or stay.
    pub fn push_message(&mut self, message: RoutedMessage)
        requires
            old(self).wf(),
            old(self)@.session.has_room(),
            old(self)@.with_session(old(self)@.session.push(message@).0).countable(),
        ensures
            final(self).wf(),
            final(self)@ == old(self)@.push(message@),
    {
        let follow = self.session.buffer_count() == 0 || self.follows();
        let _ = self.session.push_message(message);
        self.sync_layout(follow);
        self.sync_sidebar();
    }

    fn follows(&self) -> (follow: bool)
        requires
            self.wf(),
        ensures
            follow == self@.follows(),
    {
        self.is_at_bottom() && !(self.focus == Focus::Messages && self.selected().is_some())
    }

    /// Bring the view in line with the session, without measuring anything twice.
    pub fn sync_view(&mut self)
        requires
            old(self).wf(),
            old(self)@.countable(),
        ensures
            final(self).wf(),
            final(self)@ == old(self)@.sync_view(),
    {
        let follow = self.follows();
        self.sync_layout(follow);
        self.sync_sidebar();
    }

    /// Let time pass: the dot of connecting servers blinks, and the view is brought
    /// in line with the session.
    pub fn tick(&mut self, elapsed_millis: u64)
        requires
            old(self).wf(),
            old(self)@.countable(),
        ensures
            final(self).wf(),
            final(self)@ == (AppView {
                dot: (elapsed_millis / DOT_MILLIS) % 2 == 0,
                ..old(self)@
            }).sync_view(),
            final(self)@.dot <==> elapsed_millis % 1000 < 500,
    {
        let ghost before = self@;
        self.connecting_dot_visible = (elapsed_millis / DOT_MILLIS) % 2 == 0;
        assert(self@ =~= AppView { dot: (elapsed_millis / DOT_MILLIS) % 2 == 0, ..before });
        self.sync_view();
    }

    pub fn connecting_dot_visible(&self) -> (visible: bool)
        ensures
            visible == self@.dot,
    {
        self.connecting_dot_visible
    }

    /// The width and height of the message viewport.
    pub fn size(&self) -> (size: (u16, u16))
        ensures
            size == (self@.width, self@.height),
    {
        (self.width, self.viewport_height)
    }

    /// Change the viewport, staying at the bottom where it was there.
    pub fn resize(&mut self, width: u16, height: u16)
        requires
            old(self).wf(),
            old(self)@.countable(),
        ensures
            final(self).wf(),
            final(self)@ == (AppView { width, height, ..old(self)@ }).sync_layout(
                old(self)@.at_bottom(),
            ),
    {
        let ghost before = self@;
        let follow = self.is_at_bottom();
        self.width = width;
        self.viewport_height = height;
        assert(self@ =~= AppView { width, height, ..before });
        self.sync_layout(follow);
    }

    pub fn quit(&mut self)
        requires
            old(self).wf(),
        ensures
            final(self).wf(),
            final(self)@ == (AppView { running: false, ..old(self)@ }),
    {
        self.running = false;
    }

    pub fn is_running(&self) -> (running: bool)
        ensures
            running == self@.running,
    {
        self.running
    }

    /// Rows of the active conversation.
    pub fn total_height(&self) -> (total: usize)
        requires
            self.wf(),
        ensures
            total == self@.total_height(),
    {
        match self.view_state() {
            Some(state) => state.layout.total_height(),
            None => 0,
        }
    }

    pub fn max_offset(&self) -> (max: usize)
        requires
            self.wf(),
        ensures
            max == self@.max_offset(),
    {
        self.total_height().saturating_sub(self.viewport_height as usize)
    }

    /// First row that is shown.
    pub fn scroll_offset(&self) -> (offset: usize)
        requires
            self.wf(),
        ensures
            offset == self@.scroll_offset(),
    {
        match self.view_state() {
            Some(state) => state.scroll_offset,
            None => 0,
        }
    }

    /// Whether the newest message's last row is shown.
    pub fn is_at_bottom(&self) -> (answer: bool)
        requires
            self.wf(),
        ensures
            answer == self@.at_bottom(),
    {
        self.scroll_offset() >= self.max_offset()
    }

    /// Scroll to a row, as far as there are rows.
    pub fn set_scroll_offset(&mut self, offset: usize)
        requires
            old(self).wf(),
        ensures
            final(self).wf(),
            final(self)@ == old(self)@.scrolled_to(offset as int),
    {
        let ghost before = self@;
        match self.take_active() {
            Some((id, mut state)) => {
                state.scroll_to(offset, self.viewport_height);
                self.put_active(id, state, Ghost(before));
            },
            None => {},
        }
    }

    fn page_step(&self) -> (step: usize)
        ensures
            step == self@.page(),
    {
        if self.viewport_height / 3 < 1 {
            1
        } else {
            (self.viewport_height / 3) as usize
        }
    }

    /// Scroll up by a third of the viewport.
    pub fn scroll_page_up(&mut self)
        requires
            old(self).wf(),
        ensures
            final(self).wf(),
            final(self)@ == old(self)@.scrolled_by(-old(self)@.page()),
    {
        let offset: usize = self.scroll_offset();
        let step: usize = self.page_step();
        self.set_scroll_offset(offset.saturating_sub(step));
    }

    /// Scroll down by a third of the viewport.
    pub fn scroll_page_down(&mut self)
        requires
            old(self).wf(),
        ensures
            final(self).wf(),
            final(self)@ == old(self)@.scrolled_by(old(self)@.page()),
    {
        let offset: usize = self.scroll_offset();
        let step: usize = self.page_step();
        proof {
            self.lemma_rows_fit();
        }
        self.set_scroll_offset(offset.saturating_add(step));
    }

    /// The rows of the active conversation can be counted.
    proof fn lemma_rows_fit(&self)
        requires
            self.wf(),
        ensures
            self@.total_height() <= usize::MAX,
            self@.state() matches Some(state) ==> state.layout.total() <= usize::MAX,
    {
        if self@.state() is Some {
            let id = self@.session.active->0;
            assert(self.views@.contains_key(id.0));
            self.views@[id.0].layout.lemma_wf();
        }
    }

    /// Scroll by a number of rows, up where it is negative.
    pub fn scroll_lines(&mut self, delta: i32)
        requires
            old(self).wf(),
        ensures
            final(self).wf(),
            final(self)@ == old(self)@.scrolled_by(delta as int),
    {
        let offset: usize = self.scroll_offset();
        proof {
            self.lemma_rows_fit();
        }
        let target: usize = if delta >= 0 {
            offset.saturating_add(delta as usize)
        } else {
            offset.saturating_sub((-(delta as i64)) as usize)
        };
        self.set_scroll_offset(target);
    }

    /// The rows that the viewport shows.
    pub fn visible_lines(&self) -> (lines: Vec<LayoutLine>)
        requires
            self.wf(),
        ensures
            lines.deep_view() == (match self@.state() {
                Some(state) => state.layout.visible(state.offset, self@.height as int),
                None => Seq::empty(),
            }),
    {
        match self.view_state() {
            Some(state) => state.visible_lines(self.viewport_height),
            None => {
                let lines: Vec<LayoutLine> = Vec::new();
                assert(lines.deep_view() =~= Seq::empty());
                lines
            },
        }
    }

    fn message_index(&self, id: Option<MessageId>) -> (index: Option<usize>)
        requires
            self.wf(),
        ensures
            position(index) == self@.index_of_message(id),
            index is Some ==> index->0 < self@.messages().len(),
    {
        match id {
            Some(id) => find_message(self.session.messages(), id),
            None => None,
        }
    }

    /// The selected message.
    pub fn selected(&self) -> (index: Option<usize>)
        requires
            self.wf(),
        ensures
            position(index) == self@.selected(),
            index is Some ==> index->0 < self@.messages().len(),
    {
        match self.view_state() {
            Some(state) => self.message_index(state.selected),
            None => None,
        }
    }

    /// The message under the pointer.
    pub fn hovered(&self) -> (index: Option<usize>)
        requires
            self.wf(),
        ensures
            position(index) == self@.hovered_message(),
    {
        match self.view_state() {
            Some(state) => self.message_index(state.hovered),
            None => None,
        }
    }

    /// The rows of the selected message, as its first one and their number.
    pub fn selected_span(&self) -> (span: Option<(usize, usize)>)
        requires
            self.wf(),
        ensures
            span_view(span) == (match self@.state() {
                Some(state) => state.span(),
                None => None,
            }),
    {
        match self.view_state() {
            Some(state) => state.span(),
            None => None,
        }
    }

    /// The rows of the message under the pointer, as its first one and their number.
    pub fn hovered_span(&self) -> (span: Option<(usize, usize)>)
        requires
            self.wf(),
        ensures
            span_view(span) == (match self@.state() {
                Some(state) => match state.hovered {
                    Some(id) => state.layout.span(id),
                    None => None,
                },
                None => None,
            }),
    {
        match self.view_state() {
            Some(state) => match state.hovered {
                Some(id) => state.layout.span(id),
                None => None,
            },
            None => None,
        }
    }

    fn message_id(&self, index: usize) -> (id: Option<MessageId>)
        requires
            self.wf(),
        ensures
            id == (if index < self@.messages().len() {
                Some(self@.messages()[index as int].id)
            } else {
                None
            }),
    {
        let messages = self.session.messages();
        if index < messages.len() {
            assert(messages.deep_view()[index as int] == messages@[index as int]@);
            Some(messages[index].id)
        } else {
            None
        }
    }

    /// Put the pointer on a message, or on none.
    pub fn set_hover_message(&mut self, index: Option<usize>)
        requires
            old(self).wf(),
        ensures
            final(self).wf(),
            final(self)@ == old(self)@.hover_message(position(index)),
    {
        let ghost before = self@;
        let id = match index {
            Some(index) => self.message_id(index),
            None => None,
        };
        match self.take_active() {
            Some((active, mut state)) => {
                state.hovered = id;
                self.put_active(active, state, Ghost(before));
            },
            None => {},
        }
    }

    /// The message on a row of the pane; separators and frames have none.
    pub fn message_at_row(&self, row: u16) -> (index: Option<usize>)
        requires
            self.wf(),
        ensures
            position(index) == self@.message_at_row(row as int),
    {
        match self.view_state() {
            Some(state) => {
                let offset: usize = state.scroll_offset;
                if offset > usize::MAX - row as usize {
                    proof {
                        state.layout.lemma_wf();
                        lemma_no_message_below(state@.layout, offset + row);
                    }
                    return None;
                }
                state.layout.message_at(offset + row as usize)
            },
            None => None,
        }
    }

    /// Select a message and give its pane the focus.
    pub fn click_message(&mut self, index: usize)
        requires
            old(self).wf(),
        ensures
            final(self).wf(),
            final(self)@ == old(self)@.click_message(index as int),
    {
        let ghost before = self@;
        match self.message_id(index) {
            Some(id) => {
                match self.take_active() {
                    Some((active, mut state)) => {
                        state.selected = Some(id);
                        self.put_active(active, state, Ghost(before));
                    },
                    None => {},
                }
            },
            None => {},
        }
        self.focus = Focus::Messages;
    }

    /// Select the newest message that is shown whole, unless one is selected.
    fn ensure_selection(&mut self)
        requires
            old(self).wf(),
        ensures
            final(self).wf(),
            final(self)@ == old(self)@.ensure_selection(),
    {
        if self.selected().is_some() {
            return ;
        }
        let ghost before = self@;
        let newest = {
            let messages = self.session.messages();
            if messages.len() > 0 {
                let last: usize = messages.len() - 1;
                assert(messages.deep_view()[last as int] == messages@[last as int]@);
                Some(messages[last].id)
            } else {
                None
            }
        };
        match self.take_active() {
            Some((active, mut state)) => {
                let top: usize = state.scroll_offset;
                let bottom: usize = top.saturating_add(self.viewport_height as usize);
                proof {
                    state.layout.lemma_wf();
                    lemma_within_saturated(
                        state@.layout,
                        top as int,
                        top + before.height,
                        state@.layout.messages.len() as int,
                    );
                }
                state.selected = match state.layout.last_fully_visible(top, bottom) {
                    Some(id) => Some(id),
                    None => newest,
                };
                self.put_active(active, state, Ghost(before));
            },
            None => {},
        }
    }

    fn reveal_selection(&mut self)
        requires
            old(self).wf(),
        ensures
            final(self).wf(),
            final(self)@ == old(self)@.revealed(),
    {
        let ghost before = self@;
        match self.take_active() {
            Some((active, mut state)) => {
                state.reveal_selection(self.viewport_height);
                self.put_active(active, state, Ghost(before));
            },
            None => {},
        }
    }

    fn move_selection(&mut self, newer: bool)
        requires
            old(self).wf(),
        ensures
            final(self).wf(),
            final(self)@ == old(self)@.move_selection(newer),
    {
        if self.focus != Focus::Messages {
            return ;
        }
        self.ensure_selection();
        let ghost before = self@;
        match self.selected() {
            Some(index) => {
                let messages = self.session.messages();
                let count: usize = messages.len();
                assert(messages.deep_view().len() == count);
                let next: usize = if newer {
                    if index + 1 < count {
                        index + 1
                    } else {
                        count - 1
                    }
                } else {
                    index.saturating_sub(1)
                };
                let id = self.message_id(next);
                match self.take_active() {
                    Some((active, mut state)) => {
                        state.selected = id;
                        self.put_active(active, state, Ghost(before));
                    },
                    None => {},
                }
            },
            None => {},
        }
        self.reveal_selection();
    }

    /// Select the next newer message.
    pub fn select_next(&mut self)
        requires
            old(self).wf(),
        ensures
            final(self).wf(),
            final(self)@ == old(self)@.move_selection(true),
    {
        self.move_selection(true);
    }

    /// Select the next older message.
    pub fn select_prev(&mut self)
        requires
            old(self).wf(),
        ensures
            final(self).wf(),
            final(self)@ == old(self)@.move_selection(false),
    {
        self.move_selection(false);
    }

    pub fn focus(&self) -> (focus: Focus)
        ensures
            focus == self@.focus,
    {
        self.focus
    }

    pub fn focus_messages(&mut self)
        requires
            old(self).wf(),
        ensures
            final(self).wf(),
            final(self)@ == (AppView { focus: Focus::Messages, ..old(self)@ }),
    {
        self.focus = Focus::Messages;
    }

    pub fn focus_composer(&mut self)
        requires
            old(self).wf(),
        ensures
            final(self).wf(),
            final(self)@ == (AppView { focus: Focus::Composer, ..old(self)@ }),
    {
        self.focus = Focus::Composer;
    }

    /// Move the focus on: composer, sidebar, messages.
    pub fn tab(&mut self)
        requires
            old(self).wf(),
        ensures
            final(self).wf(),
            final(self)@ == old(self)@.tab(),
    {
        match self.focus {
            Focus::Composer => {
                if self.session.buffer_count() > 0 {
                    let row: usize = self.active_sidebar_row();
                    let mark = self.mark(row);
                    self.reveal_row(row);
                    self.sidebar_cursor = Some(mark);
                    self.focus = Focus::Sidebar;
                }
            },
            Focus::Sidebar => {
                self.ensure_selection();
                self.focus = Focus::Messages;
            },
            Focus::Messages => {
                self.focus = Focus::Composer;
            },
        }
    }

    /// The rows of the sidebar.
    pub fn sidebar_rows(&self) -> (found: Vec<SidebarRow>)
        ensures
            found.deep_view() == self@.sidebar_rows(),
    {
        sidebar_rows(self.session.buffer_list())
    }

    fn active_sidebar_row(&self) -> (row: usize)
        ensures
            row == self@.active_row(),
    {
        let id = match self.session.active_buffer() {
            Some(buffer) => buffer.id,
            None => return 0,
        };
        let found = self.sidebar_rows();
        let ghost all = found.deep_view();
        let mut i: usize = 0;
        while i < found.len()
            invariant
                i <= found.len(),
                all == found.deep_view(),
                all == self@.sidebar_rows(),
                self@.session.active_buffer() matches Some(buffer) && buffer.id == id,
                forall|j: int| 0 <= j < i ==> !shows(id)(#[trigger] all[j]),
            decreases found.len() - i,
        {
            assert(all[i as int] == found@[i as int]@);
            if found[i].id == Some(id) {
                proof {
                    lemma_is_first_index(all, shows(id), i as int);
                }
                return i;
            }
            i = i + 1;
        }
        proof {
            lemma_no_first_index(all, shows(id));
        }
        0
    }

    /// The mark of a row, or of the last one where there are fewer.
    fn mark(&self, row: usize) -> (mark: Mark)
        ensures
            mark@ == self@.mark(row as int),
    {
        let found = self.sidebar_rows();
        assert(found.deep_view().len() == found.len());
        if found.len() == 0 {
            return Mark { row, key: None };
        }
        let at: usize = if row < found.len() - 1 {
            row
        } else {
            found.len() - 1
        };
        assert(found.deep_view()[at as int] == found@[at as int]@);
        Mark { row: at, key: Some(found[at].key()) }
    }

    /// Where the row that a mark is about stands now.
    fn find_mark(&self, mark: &Mark) -> (row: Option<usize>)
        ensures
            position(row) == self@.found(mark@),
    {
        let key = match &mark.key {
            Some(key) => key,
            None => return None,
        };
        let found = self.sidebar_rows();
        let ghost all = found.deep_view();
        let mut i: usize = 0;
        while i < found.len()
            invariant
                i <= found.len(),
                all == found.deep_view(),
                all == self@.sidebar_rows(),
                mark@.key == Some(key@),
                forall|j: int| 0 <= j < i ==> !has_key(key@)(#[trigger] all[j]),
            decreases found.len() - i,
        {
            assert(all[i as int] == found@[i as int]@);
            if found[i].has_key(key) {
                proof {
                    lemma_is_first_index(all, has_key(key@), i as int);
                }
                return Some(i);
            }
            i = i + 1;
        }
        proof {
            lemma_no_first_index(all, has_key(key@));
        }
        None
    }

    fn sync_sidebar(&mut self)
        requires
            old(self).wf(),
        ensures
            final(self).wf(),
            final(self)@ == old(self)@.sync_sidebar(),
    {
        let ghost before = self@;
        let mut cursor: Option<Mark> = None;
        std::mem::swap(&mut cursor, &mut self.sidebar_cursor);
        let mut hovered: Option<Mark> = None;
        std::mem::swap(&mut hovered, &mut self.sidebar_hovered);
        self.sidebar_cursor = match cursor {
            Some(mark) => Some(
                match self.find_mark(&mark) {
                    Some(row) => Mark { row, ..mark },
                    None => self.mark(mark.row),
                },
            ),
            None => None,
        };
        self.sidebar_hovered = match hovered {
            Some(mark) => match self.find_mark(&mark) {
                Some(row) => Some(Mark { row, ..mark }),
                None => None,
            },
            None => None,
        };
        let offset: usize = self.sidebar_offset;
        self.scroll_sidebar_to(offset);
    }

    fn scroll_sidebar_to(&mut self, offset: usize)
        requires
            old(self).wf(),
        ensures
            final(self).wf(),
            final(self)@ == old(self)@.sidebar_scrolled_to(offset as int),
    {
        let found = self.sidebar_rows();
        assert(found.deep_view().len() == found.len());
        let max: usize = found.len().saturating_sub(self.sidebar_height as usize);
        self.sidebar_offset = if offset < max {
            offset
        } else {
            max
        };
    }

    /// Scroll the sidebar as little as shows a row.
    fn reveal_row(&mut self, row: usize)
        requires
            old(self).wf(),
        ensures
            final(self).wf(),
            final(self)@ == old(self)@.row_revealed(row as int),
    {
        let offset: usize = self.sidebar_offset;
        let height: usize = self.sidebar_height as usize;
        let target: usize = if row < offset {
            row
        } else if height > 0 && row - offset >= height {
            row - (height - 1)
        } else {
            offset
        };
        self.scroll_sidebar_to(target);
    }

    /// The row under the cursor.
    pub fn sidebar_cursor(&self) -> (row: Option<usize>)
        ensures
            position(row) == (match self@.cursor {
                Some(mark) => Some(mark.row),
                None => None,
            }),
    {
        match &self.sidebar_cursor {
            Some(mark) => Some(mark.row),
            None => None,
        }
    }

    /// The row under the pointer.
    pub fn sidebar_hovered(&self) -> (row: Option<usize>)
        ensures
            position(row) == (match self@.hovered {
                Some(mark) => Some(mark.row),
                None => None,
            }),
    {
        match &self.sidebar_hovered {
            Some(mark) => Some(mark.row),
            None => None,
        }
    }

    /// Put the pointer on a row of the sidebar, or on none.
    pub fn set_hover_sidebar(&mut self, row: Option<usize>)
        requires
            old(self).wf(),
        ensures
            final(self).wf(),
            final(self)@ == old(self)@.hover_sidebar(position(row)),
    {
        let found = self.sidebar_rows();
        assert(found.deep_view().len() == found.len());
        self.sidebar_hovered = match row {
            Some(row) => if row < found.len() {
                Some(self.mark(row))
            } else {
                None
            },
            None => None,
        };
    }

    /// The first row of the sidebar that is shown.
    pub fn sidebar_scroll_offset(&self) -> (offset: usize)
        ensures
            offset == self@.sidebar_offset,
    {
        self.sidebar_offset
    }

    /// Change the height of the sidebar, and bring the cursor's row into view, or
    /// that of the active conversation.
    pub fn set_sidebar_height(&mut self, height: u16)
        requires
            old(self).wf(),
        ensures
            final(self).wf(),
            final(self)@ == old(self)@.sidebar_resized(height),
    {
        if height == self.sidebar_height {
            return ;
        }
        let ghost before = self@;
        self.sidebar_height = height;
        assert(self@ =~= AppView { sidebar_height: height, ..before });
        let row: usize = match self.sidebar_cursor() {
            Some(row) => row,
            None => self.active_sidebar_row(),
        };
        self.reveal_row(row);
    }

    /// Scroll the sidebar by a number of rows, up where it is negative.
    pub fn scroll_sidebar(&mut self, delta: i32)
        requires
            old(self).wf(),
        ensures
            final(self).wf(),
            final(self)@ == old(self)@.sidebar_scrolled_to(old(self)@.sidebar_offset + delta),
    {
        let offset: usize = self.sidebar_offset;
        let target: usize = if delta >= 0 {
            offset.saturating_add(delta as usize)
        } else {
            offset.saturating_sub((-(delta as i64)) as usize)
        };
        let found = self.sidebar_rows();
        assert(found.deep_view().len() == found.len());
        self.scroll_sidebar_to(target);
    }

    pub fn sidebar_down(&mut self)
        requires
            old(self).wf(),
        ensures
            final(self).wf(),
            final(self)@ == old(self)@.move_cursor(true),
    {
        self.move_sidebar_cursor(true);
    }

    pub fn sidebar_up(&mut self)
        requires
            old(self).wf(),
        ensures
            final(self).wf(),
            final(self)@ == old(self)@.move_cursor(false),
    {
        self.move_sidebar_cursor(false);
    }

    fn move_sidebar_cursor(&mut self, down: bool)
        requires
            old(self).wf(),
        ensures
            final(self).wf(),
            final(self)@ == old(self)@.move_cursor(down),
    {
        let found = self.sidebar_rows();
        assert(found.deep_view().len() == found.len());
        let count: usize = found.len();
        if self.focus != Focus::Sidebar || count == 0 {
            return ;
        }
        self.sync_sidebar();
        let at: usize = match self.sidebar_cursor() {
            Some(row) => row,
            None => 0,
        };
        let next: usize = if down {
            if at < count - 1 {
                at + 1
            } else {
                count - 1
            }
        } else {
            at.saturating_sub(1)
        };
        let mark = self.mark(next);
        self.reveal_row(next);
        self.sidebar_cursor = Some(mark);
    }

    /// Use the row under the cursor, while the sidebar has the focus.
    pub fn sidebar_enter(&mut self)
        requires
            old(self).wf(),
            old(self)@.countable(),
            old(self)@.session.next_buffer_id < u64::MAX,
        ensures
            final(self).wf(),
            final(self)@ == old(self)@.enter(),
    {
        if self.focus != Focus::Sidebar || self.sidebar_cursor().is_none() {
            return ;
        }
        self.sync_sidebar();
        match self.sidebar_cursor() {
            Some(row) => {
                self.click_sidebar_row(row);
            },
            None => {},
        }
    }

    /// Use a row of the sidebar: show its conversation and go on in the composer.
    pub fn click_sidebar_row(&mut self, index: usize)
        requires
            old(self).wf(),
            old(self)@.countable(),
            old(self)@.session.next_buffer_id < u64::MAX,
        ensures
            final(self).wf(),
            final(self)@ == old(self)@.click_row(index as int),
    {
        let found = self.sidebar_rows();
        assert(found.deep_view().len() == found.len());
        if index >= found.len() {
            return ;
        }
        assert(found.deep_view()[index as int] == found@[index as int]@);
        let ghost before = self@;
        let id = match found[index].id {
            Some(id) => id,
            None => self.session.open_server(found[index].server.as_str()),
        };
        self.activate_buffer(id);
        self.focus = Focus::Composer;
        self.sidebar_cursor = None;
    }
}

/// Below the last row there is no message.
proof fn lemma_no_message_below(layout: LayoutView, row: int)
    requires
        row >= layout.total(),
    ensures
        layout.message_at(row) is None,
{
    layout.lemma_holder(row);
    let index = layout.holder(row, 0);
    if index < layout.messages.len() {
        layout.lemma_total(index);
    }
}

/// A bottom beyond all countable rows is as good as the last one.
proof fn lemma_within_saturated(
    layout: LayoutView,
    top: int,
    bottom: int,
    count: int,
)
    requires
        layout.total() <= usize::MAX,
        0 <= count <= layout.messages.len(),
    ensures
        bottom > usize::MAX ==> layout.last_within(top, bottom, count) == layout.last_within(
            top,
            usize::MAX as int,
            count,
        ),
    decreases count,
{
    if count > 0 {
        layout.lemma_total(count - 1);
        lemma_within_saturated(layout, top, bottom, count - 1);
    }
}

} // verus!
