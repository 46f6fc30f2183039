//! A plain view of channels: histories with their own scroll positions, one
//! composer and a sidebar that folds.
//!
//! A message that arrives moves the viewport only while the newest message's last
//! row is shown. Once the user scrolled up, the viewport stays until they are back
//! at the bottom.

pub mod channel;
pub mod laws;

use vstd::prelude::*;

use crate::app::channel::{drops, index_view, ChannelState, ChannelView};
use crate::layout::{
    laid_out, law_layout_has_the_counted_rows, message_spans, start_row, total_rows, LayoutLine,
};
use crate::message::{ChatMessage, ChatMessageView};
use crate::model::{Draft, DraftView, MAX_DRAFT_CHARS};
use crate::protocol::listed;
use crate::sequence::{
    first_index, lemma_first_index, lemma_is_first_index, lemma_no_first_index,
    lemma_selected_next, selected,
};
use crate::text;

verus! {

/// Messages kept for each channel; the oldest are dropped first.
pub const MAX_MESSAGES: usize = 5_000;

/// Laid out rows kept for the channel that is shown; its oldest messages are
/// dropped beyond that.
pub const MAX_LINES: usize = 50_000;

/// Characters that the composer takes.
pub const MAX_INPUT: usize = MAX_DRAFT_CHARS;

/// The region that holds the keyboard focus.
#[derive(Debug, Clone, Copy, PartialEq, Eq, Structural)]
pub enum Focus {
    Sidebar,
    Messages,
    Composer,
}

#[verifier::ext_equal]
pub ghost struct SidebarRowView {
    pub server: Seq<char>,
    pub channel: Option<Seq<char>>,
}

/// One row of the sidebar: a server, or one of its channels.
#[derive(Debug, PartialEq, Eq)]
pub struct SidebarRow {
    pub server: String,
    /// `None` on a server's own row.
    pub channel: Option<String>,
}

impl View for SidebarRow {
    type V = SidebarRowView;

    open spec fn view(&self) -> SidebarRowView {
        SidebarRowView { server: self.server@, channel: self.channel.deep_view() }
    }
}

impl DeepView for SidebarRow {
    type V = SidebarRowView;

    open spec fn deep_view(&self) -> SidebarRowView {
        self@
    }
}

impl Clone for SidebarRow {
    fn clone(&self) -> (copy: Self)
        ensures
            copy == *self,
    {
        SidebarRow { server: self.server.clone(), channel: text::copied(&self.channel) }
    }
}

/// The channel of this name on this server, ignoring ASCII case.
pub open spec fn is_channel(server: Seq<char>, channel: Seq<char>) -> spec_fn(ChannelView) -> bool {
    |state: ChannelView|
        text::same_name(state.server, server) && text::same_name(state.channel, channel)
}

/// A channel on this server, ignoring ASCII case.
pub open spec fn is_on(server: Seq<char>) -> spec_fn(ChannelView) -> bool {
    |state: ChannelView| text::same_name(state.server, server)
}

/// The row of a channel, by its exact name.
pub open spec fn is_row_of(server: Seq<char>, channel: Seq<char>) -> spec_fn(
    SidebarRowView,
) -> bool {
    |row: SidebarRowView| text::same_name(row.server, server) && row.channel == Some(channel)
}

/// The servers of channels, each under the name it appears by first.
pub open spec fn server_names(channels: Seq<ChannelView>) -> Seq<Seq<char>>
    decreases channels.len(),
{
    if channels.len() == 0 {
        Seq::empty()
    } else {
        let names = server_names(channels.drop_last());
        if listed(names, channels.last().server) {
            names
        } else {
            names.push(channels.last().server)
        }
    }
}

#[verifier::ext_equal]
pub ghost struct AppView {
    pub channels: Seq<ChannelView>,
    pub active: Option<int>,
    pub focus: Focus,
    pub cursor: Option<int>,
    /// Folded servers, in lower case.
    pub collapsed: Set<Seq<char>>,
    pub width: u16,
    pub height: u16,
    pub running: bool,
    pub input: DraftView,
    pub message_cap: nat,
    pub line_cap: nat,
}

impl AppView {
    pub open spec fn empty(width: u16, height: u16, message_cap: nat, line_cap: nat) -> AppView {
        AppView {
            channels: Seq::empty(),
            active: None,
            focus: Focus::Sidebar,
            cursor: Some(0),
            collapsed: Set::empty(),
            width,
            height,
            running: true,
            input: DraftView::empty(),
            message_cap,
            line_cap,
        }
    }

    pub open spec fn wf(self) -> bool {
        &&& self.input.wf()
        &&& self.cursor is Some ==> 0 <= self.cursor->0
        &&& forall|i: int|
            0 <= i < self.channels.len() ==> {
                &&& (#[trigger] self.channels[i]).sound()
                &&& self.channels[i].messages.len() <= self.message_cap
            }
        &&& self.active matches Some(index) ==> {
            &&& 0 <= index < self.channels.len()
            &&& self.channels[index].settled(self.width, self.height)
        }
    }

    pub open spec fn find(self, server: Seq<char>, channel: Seq<char>) -> Option<int> {
        first_index(self.channels, is_channel(server, channel))
    }

    pub open spec fn active_channel(self) -> Option<ChannelView> {
        match self.active {
            Some(index) => Some(self.channels[index]),
            None => None,
        }
    }

    pub open spec fn with_channel(self, index: int, state: ChannelView) -> AppView {
        AppView { channels: self.channels.update(index, state), ..self }
    }

    /// The view with the shown channel in another state.
    pub open spec fn with_active(self, state: ChannelView) -> AppView {
        match self.active {
            Some(index) => self.with_channel(index, state),
            None => self,
        }
    }

    pub open spec fn open_channel(self, server: Seq<char>, channel: Seq<char>) -> AppView {
        match self.find(server, channel) {
            Some(_) => self,
            None => AppView {
                channels: self.channels.push(ChannelView::new(server, channel)),
                ..self
            },
        }
    }

    pub open spec fn total_height(self) -> int {
        match self.active_channel() {
            Some(state) => state.total_height(self.width),
            None => 0,
        }
    }

    pub open spec fn max_offset(self) -> int {
        match self.active_channel() {
            Some(state) => state.max_offset(self.width, self.height),
            None => 0,
        }
    }

    pub open spec fn scroll_offset(self) -> int {
        match self.active_channel() {
            Some(state) => state.offset,
            None => 0,
        }
    }

    pub open spec fn at_bottom(self) -> bool {
        self.scroll_offset() >= self.max_offset()
    }

    pub open spec fn selected(self) -> Option<int> {
        match self.active_channel() {
            Some(state) => state.selected,
            None => None,
        }
    }

    /// The shown channel laid out anew, at its newest rows or where it was.
    pub open spec fn relaid(self, follow: bool) -> AppView {
        match self.active_channel() {
            Some(state) => self.with_active(
                state.relaid(self.width, self.height, self.line_cap, follow),
            ),
            None => self,
        }
    }

    pub open spec fn select_channel(self, index: int) -> AppView {
        if 0 <= index < self.channels.len() {
            AppView { active: Some(index), ..self }.relaid(false)
        } else {
            self
        }
    }

    /// New messages move the viewport: it is at the bottom, and no selection holds it.
    pub open spec fn follows(self) -> bool {
        self.at_bottom() && !(self.focus == Focus::Messages && self.selected() is Some)
    }

    /// A message goes to its channel. Without any channel the first message opens
    /// one; otherwise a message to an unknown channel is dropped.
    pub open spec fn push(self, message: ChatMessageView) -> AppView {
        match self.find(message.server, message.channel) {
            Some(index) => {
                let grown = self.with_channel(
                    index,
                    self.channels[index].appended(message, self.message_cap),
                );
                if self.active == Some(index) {
                    grown.relaid(self.follows())
                } else {
                    grown
                }
            },
            None => if self.channels.len() == 0 {
                let opened = AppView {
                    channels: seq![ChannelView::new(message.server, message.channel)],
                    active: Some(0),
                    ..self
                };
                opened.with_channel(
                    0,
                    opened.channels[0].appended(message, self.message_cap),
                ).relaid(opened.follows())
            } else {
                self
            },
        }
    }

    pub open spec fn scrolled_to(self, offset: int) -> AppView {
        match self.active_channel() {
            Some(state) => self.with_active(state.with_offset(offset, self.width, self.height)),
            None => self,
        }
    }

    /// A third of the viewport, or a row.
    pub open spec fn page(self) -> int {
        if self.height / 3 < 1 {
            1
        } else {
            (self.height / 3) as int
        }
    }

    pub open spec fn page_up(self) -> AppView {
        match self.active_channel() {
            Some(state) => self.with_active(
                ChannelView {
                    offset: if state.offset < self.page() {
                        0
                    } else {
                        state.offset - self.page()
                    },
                    ..state
                },
            ),
            None => self,
        }
    }

    pub open spec fn ensure_selection(self) -> AppView {
        match self.active_channel() {
            Some(state) => self.with_active(state.with_selection(self.width, self.height)),
            None => self,
        }
    }

    pub open spec fn select_next(self) -> AppView {
        let chosen = self.ensure_selection();
        match chosen.active_channel() {
            Some(state) => if self.focus != Focus::Messages {
                self
            } else if state.messages.len() == 0 {
                chosen
            } else {
                let last = state.messages.len() - 1;
                let at = state.selected->0;
                chosen.with_active(
                    ChannelView {
                        selected: Some(
                            if at >= last {
                                last
                            } else {
                                at + 1
                            },
                        ),
                        ..state
                    }.revealed(self.width, self.height),
                )
            },
            None => self,
        }
    }

    pub open spec fn select_prev(self) -> AppView {
        let chosen = self.ensure_selection();
        match chosen.active_channel() {
            Some(state) => if self.focus != Focus::Messages {
                self
            } else {
                chosen.with_active(
                    ChannelView {
                        selected: Some(
                            match state.selected {
                                Some(at) => if at < 1 {
                                    0
                                } else {
                                    at - 1
                                },
                                None => 0,
                            },
                        ),
                        ..state
                    }.revealed(self.width, self.height),
                )
            },
            None => self,
        }
    }

    pub open spec fn server_collapsed(self, server: Seq<char>) -> bool {
        self.collapsed.contains(text::lowercase(server))
    }

    /// A server's row, with those of its channels unless they are folded.
    pub open spec fn group(self, server: Seq<char>) -> Seq<SidebarRowView> {
        let header = seq![SidebarRowView { server, channel: None }];
        if self.server_collapsed(server) {
            header
        } else {
            header + selected(self.channels, is_on(server)).map_values(
                |state: ChannelView| SidebarRowView { server, channel: Some(state.channel) },
            )
        }
    }

    pub open spec fn groups(self, servers: Seq<Seq<char>>) -> Seq<SidebarRowView>
        decreases servers.len(),
    {
        if servers.len() == 0 {
            Seq::empty()
        } else {
            self.groups(servers.drop_last()) + self.group(servers.last())
        }
    }

    pub open spec fn sidebar_rows(self) -> Seq<SidebarRowView> {
        self.groups(server_names(self.channels))
    }

    /// The row of the channel that is shown, or the first one.
    pub open spec fn active_row(self) -> int {
        match self.active_channel() {
            Some(state) => match first_index(
                self.sidebar_rows(),
                is_row_of(state.server, state.channel),
            ) {
                Some(row) => row,
                None => 0,
            },
            None => 0,
        }
    }

    pub open spec fn tab(self) -> AppView {
        match self.focus {
            Focus::Composer => if self.channels.len() == 0 {
                self
            } else {
                AppView { focus: Focus::Sidebar, cursor: Some(self.active_row()), ..self }
            },
            Focus::Sidebar => AppView { focus: Focus::Messages, ..self.ensure_selection() },
            Focus::Messages => AppView { focus: Focus::Composer, ..self },
        }
    }

    pub open spec fn move_cursor(self, down: bool) -> AppView {
        let count = self.sidebar_rows().len();
        let at = match self.cursor {
            Some(at) => at,
            None => 0,
        };
        let next = if down {
            at + 1
        } else if at < 1 {
            0
        } else {
            at - 1
        };
        if self.focus != Focus::Sidebar || count == 0 {
            self
        } else {
            AppView {
                cursor: Some(
                    if next >= count {
                        count - 1
                    } else {
                        next
                    },
                ),
                ..self
            }
        }
    }

    /// A server's channels are folded, or unfolded where they were.
    pub open spec fn toggle(self, server: Seq<char>) -> AppView {
        let key = text::lowercase(server);
        if self.collapsed.contains(key) {
            AppView { collapsed: self.collapsed.remove(key), ..self }
        } else {
            let folded = AppView { collapsed: self.collapsed.insert(key), ..self };
            let count = folded.sidebar_rows().len();
            AppView {
                cursor: match self.cursor {
                    Some(at) => Some(
                        if at < count {
                            at
                        } else if count == 0 {
                            0
                        } else {
                            count - 1
                        },
                    ),
                    None => None,
                },
                ..folded
            }
        }
    }

    /// The row under the cursor is used: a server's folds, a channel's is shown.
    pub open spec fn enter(self) -> AppView {
        let rows = self.sidebar_rows();
        match self.cursor {
            Some(at) => if self.focus == Focus::Sidebar && at < rows.len() {
                match rows[at].channel {
                    None => self.toggle(rows[at].server),
                    Some(channel) => match self.find(rows[at].server, channel) {
                        Some(index) => AppView {
                            focus: Focus::Composer,
                            cursor: None,
                            ..self.select_channel(index)
                        },
                        None => self,
                    },
                }
            } else {
                self
            },
            None => self,
        }
    }
}

/// Texts as a set.
pub open spec fn text_set(texts: Seq<String>) -> Set<Seq<char>> {
    Set::new(|s: Seq<char>| exists|i: int| 0 <= i < texts.len() && (#[trigger] texts[i])@ == s)
}

pub struct App {
    channels: Vec<ChannelState>,
    active: Option<usize>,
    focus: Focus,
    sidebar_cursor: Option<usize>,
    collapsed: Vec<String>,
    width: u16,
    viewport_height: u16,
    running: bool,
    input: Draft,
    message_cap: usize,
    line_cap: usize,
}

impl View for App {
    type V = AppView;

    closed spec fn view(&self) -> AppView {
        AppView {
            channels: self.channels.deep_view(),
            active: index_view(self.active),
            focus: self.focus,
            cursor: index_view(self.sidebar_cursor),
            collapsed: text_set(self.collapsed@),
            width: self.width,
            height: self.viewport_height,
            running: self.running,
            input: self.input@,
            message_cap: self.message_cap as nat,
            line_cap: self.line_cap as nat,
        }
    }
}

impl App {
    pub closed spec fn wf(&self) -> bool {
        &&& self@.wf()
        &&& self.active matches Some(index) ==> self.channels[index as int].laid(self.width)
    }

    /// A sound app has a sound view.
    pub broadcast proof fn lemma_wf(&self)
        requires
            #[trigger] self.wf(),
        ensures
            self@.wf(),
    {
    }

    pub fn new(width: u16, viewport_height: u16) -> (app: Self)
        ensures
            app.wf(),
            app@ == AppView::empty(
                width,
                viewport_height,
                MAX_MESSAGES as nat,
                MAX_LINES as nat,
            ),
    {
        App::with_caps(width, viewport_height, MAX_MESSAGES, MAX_LINES)
    }

    /// An app with its own limits on messages and rows.
    pub fn with_caps(width: u16, viewport_height: u16, message_cap: usize, line_cap: usize) -> (app:
        Self)
        ensures
            app.wf(),
            app@ == AppView::empty(width, viewport_height, message_cap as nat, line_cap as nat),
    {
        let app = App {
            channels: Vec::new(),
            active: None,
            focus: Focus::Sidebar,
            sidebar_cursor: Some(0),
            collapsed: Vec::new(),
            width,
            viewport_height,
            running: true,
            input: Draft::default(),
            message_cap,
            line_cap,
        };
        assert(app@.channels =~= Seq::empty());
        assert(app@.collapsed =~= Set::empty());
        app
    }

    fn find_channel(&self, server: &str, channel: &str) -> (found: Option<usize>)
        ensures
            index_view(found) == self@.find(server@, channel@),
            found is Some ==> found->0 < self.channels.len(),
    {
        let ghost all = self@.channels;
        let ghost p = is_channel(server@, channel@);
        let mut i: usize = 0;
        while i < self.channels.len()
            invariant
                i <= self.channels.len(),
                all == self.channels.deep_view(),
                p == is_channel(server@, channel@),
                forall|j: int| 0 <= j < i ==> !p(#[trigger] all[j]),
            decreases self.channels.len() - i,
        {
            assert(all[i as int] == self.channels@[i as int]@);
            if text::names_match(self.channels[i].server.as_str(), server) && text::names_match(
                self.channels[i].channel.as_str(),
                channel,
            ) {
                proof {
                    lemma_is_first_index(all, p, i as int);
                }
                return Some(i);
            }
            i = i + 1;
        }
        proof {
            lemma_no_first_index(all, p);
        }
        None
    }

    /// Register a channel. Registering neither shows it nor repeats itself.
    pub fn open_channel(&mut self, server: &str, channel: &str)
        requires
            old(self).wf(),
        ensures
            final(self).wf(),
            final(self)@ == old(self)@.open_channel(server@, channel@),
    {
        if self.find_channel(server, channel).is_none() {
            let ghost before = self@;
            let state = ChannelState::new(server, channel);
            self.channels.push(state);
            proof {
                assert(self@.channels =~= before.channels.push(state@));
                assert forall|i: int| 0 <= i < self@.channels.len() implies {
                    &&& (#[trigger] self@.channels[i]).sound()
                    &&& self@.channels[i].messages.len() <= self@.message_cap
                } by {
                    if i < before.channels.len() {
                        assert(self@.channels[i] == before.channels[i]);
                    }
                }
                if self.active is Some {
                    let index = self.active->0 as int;
                    assert(self@.channels[index] == before.channels[index]);
                }
            }
        }
    }

    pub fn channel_count(&self) -> (count: usize)
        ensures
            count == self@.channels.len(),
    {
        self.channels.len()
    }

    /// The server and name of the channel that is shown.
    pub fn active_channel(&self) -> (shown: Option<(&str, &str)>)
        requires
            self.wf(),
        ensures
            shown.deep_view() == (match self@.active_channel() {
                Some(state) => Some((state.server, state.channel)),
                None => None,
            }),
    {
        match self.active {
            Some(index) => {
                assert(self@.channels[index as int] == self.channels@[index as int]@);
                Some((self.channels[index].server.as_str(), self.channels[index].channel.as_str()))
            },
            None => None,
        }
    }

    /// Lay the shown channel out anew.
    fn relayout_active(&mut self, follow: bool)
        requires
            old(self)@.input.wf(),
            old(self)@.cursor is Some ==> 0 <= old(self)@.cursor->0,
            forall|i: int|
                0 <= i < old(self)@.channels.len() ==> {
                    &&& (#[trigger] old(self)@.channels[i]).sound()
                    &&& old(self)@.channels[i].messages.len() <= old(self)@.message_cap
                },
            old(self)@.active matches Some(index) ==> 0 <= index < old(self)@.channels.len(),
        ensures
            final(self).wf(),
            final(self)@ == old(self)@.relaid(follow),
    {
        match self.active {
            Some(index) => {
                let ghost before = self@;
                assert(before.channels[index as int] == self.channels@[index as int]@);
                let cap: usize = self.line_cap;
                let (width, height): (u16, u16) = (self.width, self.viewport_height);
                self.channels[index].relayout(width, height, cap, follow);
                proof {
                    let state = before.channels[index as int].relaid(
                        width,
                        height,
                        cap as nat,
                        follow,
                    );
                    assert(self@.channels =~= before.channels.update(index as int, state));
                    lemma_drops(before.channels[index as int].messages, width, cap as nat);
                    lemma_other_channels(before, index as int, state);
                }
            },
            None => {},
        }
    }

    /// Show a registered channel where it was read last.
    pub fn select_channel(&mut self, index: usize)
        requires
            old(self).wf(),
        ensures
            final(self).wf(),
            final(self)@ == old(self)@.select_channel(index as int),
    {
        if index < self.channels.len() {
            let ghost before = self@;
            self.active = Some(index);
            assert(self@ =~= AppView { active: Some(index as int), ..before });
            self.relayout_active(false);
        }
    }

    /// Route a message to its channel.
    pub fn push_message(&mut self, message: ChatMessage)
        requires
            old(self).wf(),
        ensures
            final(self).wf(),
            final(self)@ == old(self)@.push(message@),
    {
        let ghost start = self@;
        let found = self.find_channel(message.server.as_str(), message.channel.as_str());
        let index: usize = match found {
            Some(index) => index,
            None => {
                if self.channels.len() > 0 {
                    return ;
                }
                let state = ChannelState::new(message.server.as_str(), message.channel.as_str());
                self.channels.push(state);
                self.active = Some(0);
                proof {
                    assert(self@.channels =~= seq![state@]);
                    assert(laid_out(state@.said(), self.width) =~= Seq::empty());
                    assert(state.lines.deep_view() =~= Seq::empty());
                }
                0
            },
        };
        let ghost before = self@;
        proof {
            lemma_first_index(start.channels, is_channel(message@.server, message@.channel));
            assert(before.channels[index as int] == self.channels@[index as int]@);
            assert(self.wf());
        }
        let shown = self.active == Some(index);
        let follow = shown && self.follows();
        let cap: usize = self.message_cap;
        self.channels[index].append(message, cap);
        proof {
            let state = before.channels[index as int].appended(message@, cap as nat);
            assert(self@.channels =~= before.channels.update(index as int, state));
            lemma_other_channels(before, index as int, state);
            assert(self@ =~= before.with_channel(index as int, state));
        }
        if shown {
            self.relayout_active(follow);
        } else if self.active.is_some() {
            proof {
                let active = self.active->0 as int;
                assert(self@.channels[active] == before.channels[active]);
            }
        }
    }

    /// Whether a message that arrives moves the viewport.
    fn follows(&self) -> (follow: bool)
        requires
            self.wf(),
        ensures
            follow == self@.follows(),
    {
        self.is_at_bottom() && !(self.focus == Focus::Messages && self.selected().is_some())
    }

    fn page_step(&self) -> (step: u16)
        ensures
            step == self@.page(),
    {
        if self.viewport_height / 3 < 1 {
            1
        } else {
            self.viewport_height / 3
        }
    }

    /// Scroll up by a third of the viewport.
    pub fn scroll_page_up(&mut self)
        requires
            old(self).wf(),
        ensures
            final(self).wf(),
            final(self)@ == old(self)@.page_up(),
    {
        let step: u16 = self.page_step();
        match self.active {
            Some(index) => {
                let ghost before = self@;
                assert(before.channels[index as int] == self.channels@[index as int]@);
                let offset: u16 = self.channels[index].scroll_offset;
                self.channels[index].scroll_offset = if offset < step {
                    0
                } else {
                    offset - step
                };
                proof {
                    let state = self.channels@[index as int]@;
                    assert(state =~= before.page_up().channels[index as int]);
                    assert(self@.channels =~= before.channels.update(index as int, state));
                    lemma_other_channels(before, index as int, state);
                }
            },
            None => {},
        }
    }

    /// Scroll down by a third of the viewport.
    pub fn scroll_page_down(&mut self)
        requires
            old(self).wf(),
        ensures
            final(self).wf(),
            final(self)@ == old(self)@.scrolled_to(old(self)@.scroll_offset() + old(self)@.page()),
    {
        let step: u16 = self.page_step();
        let offset: u16 = self.scroll_offset();
        let target: u16 = if offset > 65535 - step {
            65535
        } else {
            offset + step
        };
        self.set_scroll_offset(target);
    }

    /// Scroll to a row, as far as there are rows.
    pub fn set_scroll_offset(&mut self, offset: u16)
        requires
            old(self).wf(),
        ensures
            final(self).wf(),
            final(self)@ == old(self)@.scrolled_to(offset as int),
    {
        match self.active {
            Some(index) => {
                let ghost before = self@;
                assert(before.channels[index as int] == self.channels@[index as int]@);
                let (width, height): (u16, u16) = (self.width, self.viewport_height);
                self.channels[index].set_offset(offset, width, height);
                proof {
                    let state = before.channels[index as int].with_offset(
                        offset as int,
                        width,
                        height,
                    );
                    assert(self@.channels =~= before.channels.update(index as int, state));
                    lemma_other_channels(before, index as int, state);
                }
            },
            None => {},
        }
    }

    /// First row that is shown.
    pub fn scroll_offset(&self) -> (offset: u16)
        requires
            self.wf(),
        ensures
            offset == self@.scroll_offset(),
    {
        match self.active {
            Some(index) => {
                assert(self@.channels[index as int] == self.channels@[index as int]@);
                self.channels[index].scroll_offset
            },
            None => 0,
        }
    }

    /// Rows of the shown channel.
    pub fn total_height(&self) -> (height: u16)
        requires
            self.wf(),
        ensures
            height == self@.total_height(),
    {
        match self.active {
            Some(index) => {
                assert(self@.channels[index as int] == self.channels@[index as int]@);
                self.channels[index].total_height(self.width)
            },
            None => 0,
        }
    }

    /// Largest offset that leaves no row empty below the last one.
    pub fn max_offset(&self) -> (max: u16)
        requires
            self.wf(),
        ensures
            max == self@.max_offset(),
    {
        match self.active {
            Some(index) => {
                assert(self@.channels[index as int] == self.channels@[index as int]@);
                self.channels[index].max_offset(self.width, self.viewport_height)
            },
            None => 0,
        }
    }

    /// Whether the newest message's last row is shown.
    pub fn is_at_bottom(&self) -> (answer: bool)
        requires
            self.wf(),
        ensures
            answer == self@.at_bottom(),
    {
        self.scroll_offset() >= self.max_offset()
    }

    /// The rows of the shown channel.
    pub fn lines(&self) -> (lines: &[LayoutLine])
        requires
            self.wf(),
        ensures
            lines.deep_view() == (match self@.active_channel() {
                Some(state) => laid_out(state.said(), self@.width),
                None => Seq::empty(),
            }),
    {
        match self.active {
            Some(index) => {
                assert(self@.channels[index as int] == self.channels@[index as int]@);
                self.channels[index].lines.as_slice()
            },
            None => {
                let none: &[LayoutLine] = &[];
                assert(none.deep_view() =~= Seq::empty());
                none
            },
        }
    }

    /// The messages of the shown channel, oldest first.
    pub fn messages(&self) -> (messages: &[ChatMessage])
        requires
            self.wf(),
        ensures
            messages.deep_view() == (match self@.active_channel() {
                Some(state) => state.messages,
                None => Seq::empty(),
            }),
    {
        match self.active {
            Some(index) => {
                assert(self@.channels[index as int] == self.channels@[index as int]@);
                self.channels[index].messages.as_slice()
            },
            None => {
                let none: &[ChatMessage] = &[];
                assert(none.deep_view() =~= Seq::empty());
                none
            },
        }
    }

    /// The width and height of the message viewport.
    pub fn size(&self) -> (size: (u16, u16))
        ensures
            size == (self@.width, self@.height),
    {
        (self.width, self.viewport_height)
    }

    pub fn quit(&mut self)
        requires
            old(self).wf(),
        ensures
            final(self).wf(),
            final(self)@ == (AppView { running: false, ..old(self)@ }),
    {
        self.running = false;
    }

    pub fn is_running(&self) -> (running: bool)
        ensures
            running == self@.running,
    {
        self.running
    }

    /// Change the viewport, staying at the bottom where it was there.
    pub fn resize(&mut self, width: u16, viewport_height: u16)
        requires
            old(self).wf(),
        ensures
            final(self).wf(),
            final(self)@ == (AppView { width, height: viewport_height, ..old(self)@ }).relaid(
                old(self)@.at_bottom(),
            ),
    {
        let ghost before = self@;
        let follow = self.is_at_bottom();
        self.width = width;
        self.viewport_height = viewport_height;
        assert(self@ =~= AppView { width, height: viewport_height, ..before });
        self.relayout_active(follow);
    }

    pub fn input(&self) -> (text: &str)
        ensures
            text@ == self@.input.text,
    {
        self.input.text()
    }

    pub fn input_cursor(&self) -> (cursor: usize)
        ensures
            cursor == self@.input.cursor,
    {
        self.input.cursor()
    }

    pub fn type_char(&mut self, c: char)
        requires
            old(self).wf(),
        ensures
            final(self).wf(),
            final(self)@ == (AppView { input: old(self)@.input.insert(c), ..old(self)@ }),
    {
        self.input.insert(c);
    }

    pub fn backspace(&mut self)
        requires
            old(self).wf(),
        ensures
            final(self).wf(),
            final(self)@ == (AppView { input: old(self)@.input.backspace(), ..old(self)@ }),
    {
        self.input.backspace();
    }

    pub fn delete(&mut self)
        requires
            old(self).wf(),
        ensures
            final(self).wf(),
            final(self)@ == (AppView { input: old(self)@.input.delete(), ..old(self)@ }),
    {
        self.input.delete();
    }

    pub fn cursor_left(&mut self)
        requires
            old(self).wf(),
        ensures
            final(self).wf(),
            final(self)@ == (AppView { input: old(self)@.input.left(), ..old(self)@ }),
    {
        self.input.left();
    }

    pub fn cursor_right(&mut self)
        requires
            old(self).wf(),
        ensures
            final(self).wf(),
            final(self)@ == (AppView { input: old(self)@.input.right(), ..old(self)@ }),
    {
        self.input.right();
    }

    pub fn cursor_home(&mut self)
        requires
            old(self).wf(),
        ensures
            final(self).wf(),
            final(self)@ == (AppView { input: old(self)@.input.home(), ..old(self)@ }),
    {
        self.input.home();
    }

    pub fn cursor_end(&mut self)
        requires
            old(self).wf(),
        ensures
            final(self).wf(),
            final(self)@ == (AppView { input: old(self)@.input.end(), ..old(self)@ }),
    {
        self.input.end();
    }

    /// The selected message of the shown channel.
    pub fn selected(&self) -> (index: Option<usize>)
        requires
            self.wf(),
        ensures
            index_view(index) == self@.selected(),
    {
        match self.active {
            Some(index) => {
                assert(self@.channels[index as int] == self.channels@[index as int]@);
                self.channels[index].selected
            },
            None => None,
        }
    }

    /// The rows of the selected message, as its first one and their number. There
    /// are none where nothing is selected, or where the rows of the channel do not
    /// have 16-bit numbers.
    pub fn selected_span(&self) -> (span: Option<(u16, u16)>)
        requires
            self.wf(),
        ensures
            ({
                let expected = match self@.active_channel() {
                    Some(state) => if total_rows(state.said(), self@.width) <= u16::MAX + 1 {
                        state.span(self@.width)
                    } else {
                        None
                    },
                    None => None,
                };
                match span {
                    Some((start, rows)) => expected == Some((start as int, rows as int)),
                    None => expected is None,
                }
            }),
    {
        let index: usize = match self.active {
            Some(index) => index,
            None => return None,
        };
        let state = &self.channels[index];
        proof {
            assert(self@.channels[index as int] == state@);
            law_layout_has_the_counted_rows(state@.said(), self.width);
            assert(state.lines.deep_view().len() == state.lines.len());
            assert(state.messages.deep_view().len() == state.messages.len());
        }
        let selected: usize = match state.selected {
            Some(selected) => selected,
            None => return None,
        };
        if selected < state.messages.len() && state.lines.len() <= 65536 {
            let spans = message_spans(state.messages.as_slice(), self.width);
            assert(spans[selected as int].0 == start_row(
                state@.said(),
                selected as int,
                self.width,
            ));
            Some(spans[selected])
        } else {
            None
        }
    }

    /// Select a message of the shown channel, if none is.
    fn ensure_selection(&mut self)
        requires
            old(self).wf(),
        ensures
            final(self).wf(),
            final(self)@ == old(self)@.ensure_selection(),
            final(self).active == old(self).active,
    {
        match self.active {
            Some(index) => {
                let ghost before = self@;
                assert(before.channels[index as int] == self.channels@[index as int]@);
                let (width, height): (u16, u16) = (self.width, self.viewport_height);
                self.channels[index].ensure_selection(width, height);
                proof {
                    let state = before.channels[index as int].with_selection(width, height);
                    assert(self@.channels =~= before.channels.update(index as int, state));
                    lemma_other_channels(before, index as int, state);
                }
            },
            None => {},
        }
    }

    /// Select message `at` of the shown channel and scroll to it.
    fn select_message(&mut self, index: usize, at: usize)
        requires
            old(self).wf(),
            old(self).active == Some(index),
        ensures
            final(self).wf(),
            final(self)@ == old(self)@.with_active(
                (ChannelView {
                    selected: Some(at as int),
                    ..old(self)@.channels[index as int]
                }).revealed(old(self)@.width, old(self)@.height),
            ),
    {
        let ghost before = self@;
        assert(before.channels[index as int] == self.channels@[index as int]@);
        let (width, height): (u16, u16) = (self.width, self.viewport_height);
        self.channels[index].selected = Some(at);
        proof {
            let state = self.channels@[index as int]@;
            assert(state =~= ChannelView {
                selected: Some(at as int),
                ..before.channels[index as int]
            });
            assert(self@.channels =~= before.channels.update(index as int, state));
        }
        self.channels[index].reveal_selection(width, height);
        proof {
            let state = self.channels@[index as int]@;
            assert(self@.channels =~= before.channels.update(index as int, state));
            lemma_other_channels(before, index as int, state);
        }
    }

    /// Select the next newer message.
    pub fn select_next(&mut self)
        requires
            old(self).wf(),
        ensures
            final(self).wf(),
            final(self)@ == old(self)@.select_next(),
    {
        if self.focus != Focus::Messages {
            return ;
        }
        self.ensure_selection();
        match self.active {
            Some(index) => {
                let ghost state = self@.channels[index as int];
                assert(state == self.channels@[index as int]@);
                assert(state.messages.len() == self.channels[index as int].messages.len());
                let count: usize = self.channels[index].messages.len();
                if count == 0 {
                    return ;
                }
                let at: usize = match self.channels[index].selected {
                    Some(at) => at,
                    None => 0,
                };
                let next: usize = if at >= count - 1 {
                    count - 1
                } else {
                    at + 1
                };
                self.select_message(index, next);
            },
            None => {},
        }
    }

    /// Select the next older message.
    pub fn select_prev(&mut self)
        requires
            old(self).wf(),
        ensures
            final(self).wf(),
            final(self)@ == old(self)@.select_prev(),
    {
        if self.focus != Focus::Messages {
            return ;
        }
        self.ensure_selection();
        match self.active {
            Some(index) => {
                let ghost state = self@.channels[index as int];
                assert(state == self.channels@[index as int]@);
                let next: usize = match self.channels[index].selected {
                    Some(at) => if at < 1 {
                        0
                    } else {
                        at - 1
                    },
                    None => 0,
                };
                self.select_message(index, next);
            },
            None => {},
        }
    }

    pub fn focus(&self) -> (focus: Focus)
        ensures
            focus == self@.focus,
    {
        self.focus
    }

    /// Move the focus on: composer, sidebar, messages.
    pub fn tab(&mut self)
        requires
            old(self).wf(),
        ensures
            final(self).wf(),
            final(self)@ == old(self)@.tab(),
    {
        match self.focus {
            Focus::Composer => {
                if self.channels.len() > 0 {
                    let row: usize = self.active_sidebar_row();
                    self.sidebar_cursor = Some(row);
                    self.focus = Focus::Sidebar;
                }
            },
            Focus::Sidebar => {
                self.ensure_selection();
                self.focus = Focus::Messages;
            },
            Focus::Messages => {
                self.focus = Focus::Composer;
            },
        }
    }

    /// The servers, each under the name it appears by first.
    fn servers(&self) -> (names: Vec<String>)
        ensures
            names.deep_view() == server_names(self@.channels),
    {
        let ghost all = self@.channels;
        let mut names: Vec<String> = Vec::new();
        let mut i: usize = 0;
        assert(names.deep_view() =~= Seq::empty());
        assert(all.take(0) =~= Seq::empty());
        while i < self.channels.len()
            invariant
                i <= self.channels.len(),
                all == self.channels.deep_view(),
                names.deep_view() == server_names(all.take(i as int)),
            decreases self.channels.len() - i,
        {
            proof {
                assert(all[i as int] == self.channels@[i as int]@);
                assert(all.take(i + 1).drop_last() =~= all.take(i as int));
            }
            let ghost before = names.deep_view();
            let server = self.channels[i].server.as_str();
            if !crate::protocol::is_listed(names.as_slice(), server) {
                names.push(server.to_owned());
                assert(names.deep_view() =~= before.push(server@));
            }
            i = i + 1;
        }
        assert(all.take(i as int) =~= all);
        names
    }

    /// Put the rows of one server behind `rows`.
    fn push_group(&self, server: &str, rows: &mut Vec<SidebarRow>)
        ensures
            final(rows).deep_view() == old(rows).deep_view() + self@.group(server@),
    {
        let ghost before = rows.deep_view();
        let ghost all = self@.channels;
        let header = SidebarRow { server: server.to_owned(), channel: None };
        rows.push(header);
        let ghost with_header = rows.deep_view();
        assert(with_header =~= before + seq![header@]);
        if self.server_collapsed(server) {
            return ;
        }
        let ghost row_of = |state: ChannelView|
            SidebarRowView { server: server@, channel: Some(state.channel) };
        let mut i: usize = 0;
        assert(all.take(0) =~= Seq::empty());
        assert(with_header + selected(all.take(0), is_on(server@)).map_values(row_of)
            =~= with_header);
        while i < self.channels.len()
            invariant
                i <= self.channels.len(),
                all == self.channels.deep_view(),
                row_of == (|state: ChannelView|
                    SidebarRowView { server: server@, channel: Some(state.channel) }),
                rows.deep_view() == with_header + selected(
                    all.take(i as int),
                    is_on(server@),
                ).map_values(row_of),
            decreases self.channels.len() - i,
        {
            proof {
                assert(all[i as int] == self.channels@[i as int]@);
                lemma_selected_next(all, is_on(server@), i as int);
            }
            let ghost sofar = rows.deep_view();
            let ghost chosen = selected(all.take(i as int), is_on(server@));
            if text::names_match(self.channels[i].server.as_str(), server) {
                let row = SidebarRow {
                    server: server.to_owned(),
                    channel: Some(self.channels[i].channel.clone()),
                };
                rows.push(row);
                proof {
                    assert(rows.deep_view() =~= sofar.push(row@));
                    assert(chosen.push(all[i as int]).map_values(row_of)
                        =~= chosen.map_values(row_of).push(row@));
                    assert(rows.deep_view() =~= with_header + chosen.push(
                        all[i as int],
                    ).map_values(row_of));
                }
            }
            i = i + 1;
        }
        proof {
            assert(all.take(i as int) =~= all);
            assert(rows.deep_view() =~= before + (seq![header@] + selected(
                all,
                is_on(server@),
            ).map_values(row_of)));
        }
    }

    /// The rows of the sidebar: servers in the order of their first channel, each
    /// followed by its channels unless they are folded.
    pub fn sidebar_rows(&self) -> (rows: Vec<SidebarRow>)
        ensures
            rows.deep_view() == self@.sidebar_rows(),
    {
        let servers = self.servers();
        let ghost all = servers.deep_view();
        let mut rows: Vec<SidebarRow> = Vec::new();
        let mut i: usize = 0;
        assert(rows.deep_view() =~= Seq::empty());
        assert(all.take(0) =~= Seq::empty());
        while i < servers.len()
            invariant
                i <= servers.len(),
                all == servers.deep_view(),
                rows.deep_view() == self@.groups(all.take(i as int)),
            decreases servers.len() - i,
        {
            proof {
                assert(all[i as int] == servers@[i as int]@);
                assert(all.take(i + 1).drop_last() =~= all.take(i as int));
            }
            self.push_group(servers[i].as_str(), &mut rows);
            i = i + 1;
        }
        assert(all.take(i as int) =~= all);
        rows
    }

    /// The row under the cursor, while the sidebar has the focus.
    pub fn sidebar_cursor(&self) -> (row: Option<usize>)
        ensures
            index_view(row) == (if self@.focus == Focus::Sidebar {
                self@.cursor
            } else {
                None
            }),
    {
        match self.focus {
            Focus::Sidebar => self.sidebar_cursor,
            _ => None,
        }
    }

    pub fn sidebar_down(&mut self)
        requires
            old(self).wf(),
        ensures
            final(self).wf(),
            final(self)@ == old(self)@.move_cursor(true),
    {
        self.move_sidebar_cursor(true);
    }

    pub fn sidebar_up(&mut self)
        requires
            old(self).wf(),
        ensures
            final(self).wf(),
            final(self)@ == old(self)@.move_cursor(false),
    {
        self.move_sidebar_cursor(false);
    }

    fn move_sidebar_cursor(&mut self, down: bool)
        requires
            old(self).wf(),
        ensures
            final(self).wf(),
            final(self)@ == old(self)@.move_cursor(down),
    {
        if self.focus != Focus::Sidebar {
            return ;
        }
        let rows = self.sidebar_rows();
        assert(rows.deep_view().len() == rows.len());
        let count: usize = rows.len();
        if count == 0 {
            return ;
        }
        let at: usize = match self.sidebar_cursor {
            Some(at) => at,
            None => 0,
        };
        let next: usize = if down {
            if at >= count - 1 {
                count - 1
            } else {
                at + 1
            }
        } else if at < 1 {
            0
        } else if at - 1 >= count {
            count - 1
        } else {
            at - 1
        };
        self.sidebar_cursor = Some(next);
    }

    /// Whether a server's channels are folded.
    pub fn server_collapsed(&self, server: &str) -> (answer: bool)
        ensures
            answer == self@.server_collapsed(server@),
    {
        let key = text::lowercased(server);
        let mut i: usize = 0;
        while i < self.collapsed.len()
            invariant
                i <= self.collapsed.len(),
                key@ == text::lowercase(server@),
                forall|j: int| 0 <= j < i ==> (#[trigger] self.collapsed@[j])@ != key@,
            decreases self.collapsed.len() - i,
        {
            if self.collapsed[i] == key {
                assert(self.collapsed@[i as int]@ == key@);
                assert(text_set(self.collapsed@).contains(key@));
                return true;
            }
            i = i + 1;
        }
        false
    }

    fn toggle_server_collapse(&mut self, server: &str)
        requires
            old(self).wf(),
        ensures
            final(self).wf(),
            final(self)@ == old(self)@.toggle(server@),
    {
        let ghost before = self@;
        let folded = self.server_collapsed(server);
        let key = text::lowercased(server);
        if folded {
            let mut rest: Vec<String> = Vec::new();
            let mut i: usize = 0;
            while i < self.collapsed.len()
                invariant
                    i <= self.collapsed.len(),
                    forall|j: int|
                        0 <= j < rest.len() ==> (#[trigger] rest@[j])@ != key@ && text_set(
                            self.collapsed@,
                        ).contains(rest@[j]@),
                    forall|j: int|
                        0 <= j < i && (#[trigger] self.collapsed@[j])@ != key@ ==> text_set(
                            rest@,
                        ).contains(self.collapsed@[j]@),
                decreases self.collapsed.len() - i,
            {
                let ghost sofar = rest@;
                if self.collapsed[i] != key {
                    rest.push(self.collapsed[i].clone());
                    proof {
                        assert(rest@[sofar.len() as int]@ == self.collapsed@[i as int]@);
                        assert forall|j: int|
                            0 <= j < i + 1 && (#[trigger] self.collapsed@[j])@ != key@ implies
                            text_set(rest@).contains(self.collapsed@[j]@) by {
                            if j < i {
                                let at = choose|at: int|
                                    0 <= at < sofar.len() && (#[trigger] sofar[at])@
                                        == self.collapsed@[j]@;
                                assert(rest@[at] == sofar[at]);
                            }
                        }
                    }
                }
                i = i + 1;
            }
            proof {
                assert(text_set(rest@) =~= before.collapsed.remove(key@));
            }
            self.collapsed = rest;
        } else {
            let ghost sofar = self.collapsed@;
            self.collapsed.push(key);
            proof {
                assert(self.collapsed@[sofar.len() as int]@ == key@);
                assert forall|s: Seq<char>| before.collapsed.contains(s) implies text_set(
                    self.collapsed@,
                ).contains(s) by {
                    let at = choose|at: int| 0 <= at < sofar.len() && (#[trigger] sofar[at])@ == s;
                    assert(self.collapsed@[at] == sofar[at]);
                }
                assert(text_set(self.collapsed@) =~= before.collapsed.insert(key@));
                assert(self@ =~= AppView {
                    collapsed: before.collapsed.insert(key@),
                    ..before
                });
            }
            let rows = self.sidebar_rows();
            assert(rows.deep_view().len() == rows.len());
            self.sidebar_cursor = match self.sidebar_cursor {
                Some(at) => Some(
                    if at < rows.len() {
                        at
                    } else if rows.len() == 0 {
                        0
                    } else {
                        rows.len() - 1
                    },
                ),
                None => None,
            };
        }
    }

    /// Use the row under the cursor: fold or unfold a server, or show a channel
    /// and go on in the composer.
    pub fn sidebar_enter(&mut self)
        requires
            old(self).wf(),
        ensures
            final(self).wf(),
            final(self)@ == old(self)@.enter(),
    {
        if self.focus != Focus::Sidebar {
            return ;
        }
        let at: usize = match self.sidebar_cursor {
            Some(at) => at,
            None => return ,
        };
        let rows = self.sidebar_rows();
        assert(rows.deep_view().len() == rows.len());
        if at >= rows.len() {
            return ;
        }
        assert(rows@[at as int]@ == rows.deep_view()[at as int]);
        match &rows[at].channel {
            None => {
                self.toggle_server_collapse(rows[at].server.as_str());
            },
            Some(channel) => {
                match self.find_channel(rows[at].server.as_str(), channel.as_str()) {
                    Some(index) => {
                        self.select_channel(index);
                        self.focus = Focus::Composer;
                        self.sidebar_cursor = None;
                    },
                    None => {},
                }
            },
        }
    }

    fn active_sidebar_row(&self) -> (row: usize)
        requires
            self.wf(),
        ensures
            row == self@.active_row(),
    {
        let index: usize = match self.active {
            Some(index) => index,
            None => return 0,
        };
        assert(self@.channels[index as int] == self.channels@[index as int]@);
        let server = self.channels[index].server.as_str();
        let channel = &self.channels[index].channel;
        let rows = self.sidebar_rows();
        let ghost all = rows.deep_view();
        let ghost p = is_row_of(server@, channel@);
        let mut i: usize = 0;
        while i < rows.len()
            invariant
                i <= rows.len(),
                all == rows.deep_view(),
                all == self@.sidebar_rows(),
                self@.active_channel() matches Some(state) && state.server == server@
                    && state.channel == channel@,
                p == is_row_of(server@, channel@),
                forall|j: int| 0 <= j < i ==> !p(#[trigger] all[j]),
            decreases rows.len() - i,
        {
            assert(all[i as int] == rows@[i as int]@);
            let named = match &rows[i].channel {
                Some(name) => *name == *channel,
                None => false,
            };
            if named && text::names_match(rows[i].server.as_str(), server) {
                proof {
                    lemma_is_first_index(all, p, i as int);
                }
                return i;
            }
            i = i + 1;
        }
        proof {
            lemma_no_first_index(all, p);
        }
        0
    }
}

/// What is dropped leaves fewer messages.
proof fn lemma_drops(messages: Seq<ChatMessageView>, width: u16, cap: nat)
    ensures
        drops(messages, width, cap) <= messages.len(),
    decreases messages.len(),
{
    if messages.len() > 1 {
        lemma_drops(messages.drop_first(), width, cap);
    }
}

/// A change of one channel leaves the others as they are.
proof fn lemma_other_channels(app: AppView, index: int, state: ChannelView)
    requires
        0 <= index < app.channels.len(),
        state.sound(),
        state.messages.len() <= app.message_cap,
        forall|i: int|
            0 <= i < app.channels.len() ==> {
                &&& (#[trigger] app.channels[i]).sound()
                &&& app.channels[i].messages.len() <= app.message_cap
            },
    ensures
        forall|i: int|
            0 <= i < app.channels.len() ==> {
                &&& (#[trigger] app.channels.update(index, state)[i]).sound()
                &&& app.channels.update(index, state)[i].messages.len() <= app.message_cap
            },
{
    assert forall|i: int| 0 <= i < app.channels.len() implies {
        &&& (#[trigger] app.channels.update(index, state)[i]).sound()
        &&& app.channels.update(index, state)[i].messages.len() <= app.message_cap
    } by {
        assert(app.channels[i].sound());
    }
}

/// Opening a channel twice, under any spelling, is opening it once.
pub proof fn law_opening_is_idempotent(
    app: AppView,
    server: Seq<char>,
    channel: Seq<char>,
    server_again: Seq<char>,
    channel_again: Seq<char>,
)
    requires
        text::same_name(server, server_again),
        text::same_name(channel, channel_again),
    ensures
        app.open_channel(server, channel).open_channel(server_again, channel_again)
            == app.open_channel(server, channel),
{
    let opened = app.open_channel(server, channel);
    let found = is_channel(server, channel);
    let again = is_channel(server_again, channel_again);
    lemma_first_index(app.channels, found);
    let index = match app.find(server, channel) {
        Some(index) => index,
        None => app.channels.len() as int,
    };
    assert forall|i: int| 0 <= i < index implies !again(#[trigger] opened.channels[i]) by {
        assert(!found(app.channels[i]));
    }
    lemma_is_first_index(opened.channels, again, index);
}

/// The focus goes from the sidebar to the messages to the composer and back, as
/// long as there is a channel.
pub proof fn law_tab_cycles_the_focus(app: AppView)
    requires
        app.wf(),
        app.channels.len() > 0,
    ensures
        app.tab().tab().tab().focus == app.focus,
{
}

/// A view that follows the newest rows still shows them after a message came.
pub proof fn law_a_following_view_stays_at_the_bottom(app: AppView, message: ChatMessageView)
    requires
        app.wf(),
        app.active is Some,
        app.follows(),
    ensures
        app.push(message).at_bottom(),
{
    lemma_first_index(app.channels, is_channel(message.server, message.channel));
}

/// A message changes the channel that it is addressed to and no other; without
/// such a channel, where any is open, it changes nothing.
pub proof fn law_messages_reach_their_channel_alone(app: AppView, message: ChatMessageView, i: int)
    requires
        app.wf(),
        0 <= i < app.channels.len(),
        app.find(message.server, message.channel) != Some(i),
    ensures
        app.push(message).channels[i] == app.channels[i],
        app.push(message).active == app.active,
        app.find(message.server, message.channel) is None ==> app.push(message) == app,
{
    lemma_first_index(app.channels, is_channel(message.server, message.channel));
}

/// Where a message to the shown channel drops its oldest ones, the selection stays
/// on its message; where that one is dropped too, it goes to the oldest that is
/// left.
pub proof fn law_the_selection_stays_on_its_message(
    app: AppView,
    message: ChatMessageView,
    selected: int,
)
    requires
        app.wf(),
        app.selected() == Some(selected),
        app.find(message.server, message.channel) == app.active,
    ensures
        ({
            let before = app.active_channel()->0.messages;
            let after = app.push(message).active_channel()->0.messages;
            let gone = before.len() + 1 - after.len();
            &&& 0 <= gone
            &&& after == before.push(message).skip(gone)
            &&& app.push(message).active == app.active
            &&& app.push(message).selected() == Some(
                if selected < gone {
                    0
                } else {
                    selected - gone
                },
            )
            &&& gone <= selected < before.len() ==> after[selected - gone] == before[selected]
        }),
{
    let index = app.active->0;
    let state = app.channels[index];
    let grown = state.appended(message, app.message_cap);
    let dropped = drops(grown.messages, app.width, app.line_cap) as int;
    let all = state.messages.push(message);
    let excess = all.len() - grown.messages.len();
    lemma_first_index(app.channels, is_channel(message.server, message.channel));
    lemma_drops(grown.messages, app.width, app.line_cap);
    assert(all.skip(excess).skip(dropped) =~= all.skip(excess + dropped));
}

} // verus!
