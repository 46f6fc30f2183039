//! Conversations, their state, and the coordination of what the user submits.

mod channels;
pub mod echoes;
pub mod events;
pub mod laws;
pub mod outcomes;
pub mod queries;
pub mod servers;
pub mod submission;

pub use crate::application::submission::{
    execute_command, finish_submission, plan_submission, submit, submit_composer, Connections,
};

use std::collections::VecDeque;

use vstd::prelude::*;

use crate::application::echoes::EchoSet;
use crate::application::servers::{ServerStateView, ServerTable};
use crate::command::{
    parse_slash_command, parsed_slash, SlashCommand, SlashCommandView, SlashParseError,
};
use crate::history::{HistoryChange, HistoryStore, HistoryView};
use crate::model::{
    BufferId, BufferKind, BufferKindView, ChannelStatus, Draft, DraftView, Message, MessageId,
    OutgoingMessage, OutgoingMessageView, ServerId,
};
use crate::sequence::{
    first_index, lemma_first_index, lemma_is_first_index, lemma_no_first_index,
};
use crate::text;

verus! {

#[verifier::ext_equal]
pub ghost struct BufferView {
    pub id: BufferId,
    pub server: Seq<char>,
    pub server_label: Seq<char>,
    pub kind: BufferKindView,
    pub draft: DraftView,
    pub hidden: bool,
    pub unread: bool,
    pub send_blocked: bool,
    pub channel_status: ChannelStatus,
    pub pending_channel_changes: nat,
}

/// A registered conversation. Its display names are kept apart from its identity.
#[derive(Debug)]
pub struct Buffer {
    pub id: BufferId,
    pub server: ServerId,
    pub server_label: String,
    pub kind: BufferKind,
    pub draft: Draft,
    pub hidden: bool,
    pub unread: bool,
    /// The peer took another name, so sending needs a fresh choice.
    pub send_blocked: bool,
    pub channel_status: ChannelStatus,
    /// Channel controls that the worker has not consumed yet.
    pub pending_channel_changes: usize,
}

impl View for Buffer {
    type V = BufferView;

    open spec fn view(&self) -> BufferView {
        BufferView {
            id: self.id,
            server: self.server@,
            server_label: self.server_label@,
            kind: self.kind@,
            draft: self.draft@,
            hidden: self.hidden,
            unread: self.unread,
            send_blocked: self.send_blocked,
            channel_status: self.channel_status,
            pending_channel_changes: self.pending_channel_changes as nat,
        }
    }
}

impl DeepView for Buffer {
    type V = BufferView;

    open spec fn deep_view(&self) -> BufferView {
        self@
    }
}

/// What the frontend does after a submission.
#[derive(Debug, Clone, Copy, PartialEq, Eq, Structural)]
pub enum SubmissionEffect {
    Nothing,
    Activate(BufferId),
}

impl Default for SubmissionEffect {
    fn default() -> (effect: Self)
        ensures
            effect == SubmissionEffect::Nothing,
    {
        SubmissionEffect::Nothing
    }
}

pub ghost enum InputSubmissionView {
    Outgoing(OutgoingMessageView),
    Slash(SlashCommandView),
    InvalidSlash(SlashParseError),
}

/// A prepared submission owns its payload but never consumes the draft.
#[derive(Debug, PartialEq, Eq)]
pub enum InputSubmission {
    Outgoing(OutgoingMessage),
    Slash(SlashCommand),
    InvalidSlash(SlashParseError),
}

impl View for InputSubmission {
    type V = InputSubmissionView;

    open spec fn view(&self) -> InputSubmissionView {
        match self {
            InputSubmission::Outgoing(message) => InputSubmissionView::Outgoing(message@),
            InputSubmission::Slash(command) => InputSubmissionView::Slash(command@),
            InputSubmission::InvalidSlash(error) => InputSubmissionView::InvalidSlash(*error),
        }
    }
}

impl DeepView for InputSubmission {
    type V = InputSubmissionView;

    open spec fn deep_view(&self) -> InputSubmissionView {
        self@
    }
}

#[verifier::ext_equal]
pub ghost struct ChangeView {
    pub inserted: MessageId,
    pub evicted: Seq<MessageId>,
}

/// The meaning of a history change, for contracts.
pub open spec fn change_view(change: Option<HistoryChange>) -> Option<ChangeView> {
    match change {
        Some(change) => Some(ChangeView { inserted: change.inserted, evicted: change.evicted@ }),
        None => None,
    }
}

/// The conversation with this identity.
pub open spec fn has_id(id: BufferId) -> spec_fn(BufferView) -> bool {
    |buffer: BufferView| buffer.id == id
}

/// A conversation of this kind on this server, by folded name.
pub open spec fn is_about(server: Seq<char>, kind: BufferKindView) -> spec_fn(BufferView) -> bool {
    |buffer: BufferView| buffer.server == server && buffer.kind.matches(kind)
}

#[verifier::ext_equal]
pub ghost struct SessionView {
    pub buffers: Seq<BufferView>,
    pub active: Option<BufferId>,
    pub history: HistoryView,
    pub servers: Map<Seq<char>, ServerStateView>,
    pub welcome_draft: DraftView,
    pub next_buffer_id: int,
    /// Messages to ourselves whose copy from the server has not come yet.
    pub echoes: Set<(BufferId, MessageId)>,
}

impl SessionView {
    pub open spec fn empty(capacity: nat) -> SessionView {
        SessionView {
            buffers: Seq::empty(),
            active: None,
            history: HistoryView::empty(capacity),
            servers: Map::empty(),
            welcome_draft: DraftView::empty(),
            next_buffer_id: 1,
            echoes: Set::empty(),
        }
    }

    /// The conversation with this identity is registered.
    pub open spec fn registered(self, id: BufferId) -> bool {
        exists|i: int| 0 <= i < self.buffers.len() && (#[trigger] self.buffers[i]).id == id
    }

    /// Identities grow with registration and were all allocated, no two
    /// conversations are about the same thing, the active one is registered,
    /// every draft is sound, every server is found under its own folded name, and
    /// so is the server that a conversation names.
    pub open spec fn wf(self) -> bool {
        &&& self.history.wf()
        &&& self.active is Some ==> self.registered(self.active->0)
        &&& self.welcome_draft.wf()
        &&& 1 <= self.next_buffer_id <= u64::MAX
        &&& forall|server: Seq<char>| #[trigger]
            self.servers.contains_key(server) ==> text::lower(self.servers[server].label) == server
        &&& forall|i: int|
            0 <= i < self.buffers.len() ==> {
                &&& (#[trigger] self.buffers[i]).draft.wf()
                &&& 0 < self.buffers[i].id.0 < self.next_buffer_id
                &&& self.servers.contains_key(self.buffers[i].server)
                &&& text::lower(self.buffers[i].server_label) == self.buffers[i].server
            }
        &&& forall|i: int, j: int|
            0 <= i < j < self.buffers.len() ==> {
                &&& (#[trigger] self.buffers[i]).id.0 < (#[trigger] self.buffers[j]).id.0
                &&& !(self.buffers[i].server == self.buffers[j].server
                    && self.buffers[i].kind.matches(self.buffers[j].kind))
            }
    }

    /// One more message, conversation and pending change can be counted.
    pub open spec fn has_room(self) -> bool {
        &&& self.history.has_room()
        &&& self.next_buffer_id < u64::MAX
        &&& forall|i: int|
            0 <= i < self.buffers.len() ==> (#[trigger] self.buffers[i]).pending_channel_changes
                < usize::MAX
        &&& forall|server: Seq<char>| #[trigger]
            self.servers.contains_key(server) ==> self.servers[server].pending_changes < usize::MAX
    }

    /// Where the conversation with this identity stands.
    pub open spec fn index_of(self, id: BufferId) -> Option<int> {
        first_index(self.buffers, has_id(id))
    }

    pub open spec fn buffer(self, id: BufferId) -> Option<BufferView> {
        match self.index_of(id) {
            Some(index) => Some(self.buffers[index]),
            None => None,
        }
    }

    /// Where the conversation of this kind on this server stands.
    pub open spec fn index_about(self, server: Seq<char>, kind: BufferKindView) -> Option<int> {
        first_index(self.buffers, is_about(server, kind))
    }

    /// Where the active conversation stands; `None` on the welcome page.
    pub open spec fn active_index(self) -> Option<int> {
        match self.active {
            Some(id) => self.index_of(id),
            None => None,
        }
    }

    pub open spec fn active_buffer(self) -> Option<BufferView> {
        match self.active_index() {
            Some(index) => Some(self.buffers[index]),
            None => None,
        }
    }

    pub open spec fn with_buffer(self, index: int, buffer: BufferView) -> SessionView {
        SessionView { buffers: self.buffers.update(index, buffer), ..self }
    }

    /// The draft that typing edits.
    pub open spec fn draft(self) -> DraftView {
        match self.active_buffer() {
            Some(buffer) => buffer.draft,
            None => self.welcome_draft,
        }
    }

    /// The session with another text in the draft that typing edits.
    pub open spec fn with_draft(self, draft: DraftView) -> SessionView {
        match self.active_index() {
            Some(index) => self.with_buffer(index, BufferView { draft, ..self.buffers[index] }),
            None => SessionView { welcome_draft: draft, ..self },
        }
    }

    /// The state of a server, new where the server was not known.
    pub open spec fn server_state(self, server: Seq<char>) -> ServerStateView {
        let id = text::lower(server);
        if self.servers.contains_key(id) {
            self.servers[id]
        } else {
            ServerStateView::new(server)
        }
    }

    pub open spec fn with_server(self, server: Seq<char>, state: ServerStateView) -> SessionView {
        SessionView { servers: self.servers.insert(text::lower(server), state), ..self }
    }

    /// A name for a server by its folded name: as it was registered, if it was.
    pub open spec fn label_of(self, id: Seq<char>) -> Seq<char> {
        if self.servers.contains_key(id) {
            self.servers[id].label
        } else {
            id
        }
    }

    /// The session with the conversation registered, and its identity.
    pub open spec fn open_buffer(self, server: Seq<char>, kind: BufferKindView) -> (
        SessionView,
        BufferId,
    ) {
        let id = text::lower(server);
        match self.index_about(id, kind) {
            Some(index) => (self, self.buffers[index].id),
            None => {
                let state = self.server_state(server);
                let buffer = BufferView {
                    id: BufferId(self.next_buffer_id as u64),
                    server: id,
                    server_label: state.label,
                    kind,
                    draft: DraftView::empty(),
                    hidden: false,
                    unread: false,
                    send_blocked: false,
                    channel_status: ChannelStatus::unknown(),
                    pending_channel_changes: 0,
                };
                (
                    SessionView {
                        buffers: self.buffers.push(buffer),
                        next_buffer_id: self.next_buffer_id + 1,
                        ..self.with_server(server, state)
                    },
                    buffer.id,
                )
            },
        }
    }

    /// What a conversation sends: a line to the server's own console, and
    /// something said anywhere else.
    pub open spec fn outgoing(buffer: BufferView, input: Seq<char>) -> OutgoingMessageView {
        match buffer.kind {
            BufferKindView::Server => OutgoingMessageView::Raw {
                server: buffer.server_label,
                line: text::trim_start(input),
            },
            BufferKindView::Channel(target) => OutgoingMessageView::Privmsg {
                server: buffer.server_label,
                target,
                text: text::trim(input),
            },
            BufferKindView::Query(target) => OutgoingMessageView::Privmsg {
                server: buffer.server_label,
                target,
                text: text::trim(input),
            },
        }
    }

    /// What the input would submit.
    pub open spec fn prepare_input(self) -> Option<InputSubmissionView> {
        let input = self.draft().text;
        match parsed_slash(input) {
            Some(Ok(command)) => Some(InputSubmissionView::Slash(command)),
            Some(Err(error)) => Some(InputSubmissionView::InvalidSlash(error)),
            None => match self.active_buffer() {
                None => None,
                Some(buffer) => if text::trim(input).len() == 0 {
                    None
                } else {
                    Some(InputSubmissionView::Outgoing(SessionView::outgoing(buffer, input)))
                },
            },
        }
    }

    pub open spec fn open_channel(self, server: Seq<char>, channel: Seq<char>) -> (
        SessionView,
        BufferId,
    ) {
        self.open_buffer(server, BufferKindView::Channel(channel))
    }

    pub open spec fn open_server(self, server: Seq<char>) -> (SessionView, BufferId) {
        self.open_buffer(server, BufferKindView::Server)
    }
}

/// An index as a mathematical one, for contracts.
pub open spec fn index_view(index: Option<usize>) -> Option<int> {
    match index {
        Some(index) => Some(index as int),
        None => None,
    }
}

/// Conversation state and the coordination of commands, without a frontend.
#[derive(Debug)]
pub struct Session {
    pub buffers: Vec<Buffer>,
    active: Option<BufferId>,
    history: HistoryStore,
    servers: ServerTable,
    welcome_draft: Draft,
    next_buffer_id: u64,
    echoes: EchoSet,
}

impl View for Session {
    type V = SessionView;

    closed spec fn view(&self) -> SessionView {
        SessionView {
            buffers: self.buffers.deep_view(),
            active: self.active,
            history: self.history@,
            servers: self.servers@,
            welcome_draft: self.welcome_draft@,
            next_buffer_id: self.next_buffer_id as int,
            echoes: self.echoes@,
        }
    }
}

impl Default for Session {
    fn default() -> (session: Self)
        ensures
            session.wf(),
            session@ == SessionView::empty(5_000),
    {
        Session::new(5_000)
    }
}

impl Session {
    pub closed spec fn wf(&self) -> bool {
        &&& self@.wf()
        &&& self.parts_wf()
    }

    spec fn parts_wf(&self) -> bool {
        &&& self.history.wf()
        &&& self.servers.wf()
        &&& self.echoes.wf()
    }

    /// A sound session has a sound view.
    pub broadcast proof fn lemma_wf(&self)
        requires
            #[trigger] self.wf(),
        ensures
            self@.wf(),
    {
    }

    pub fn new(message_capacity: usize) -> (session: Self)
        ensures
            session.wf(),
            session@ == SessionView::empty(message_capacity as nat),
    {
        let session = Session {
            buffers: Vec::new(),
            active: None,
            history: HistoryStore::new(message_capacity),
            servers: ServerTable::new(),
            welcome_draft: Draft::default(),
            next_buffer_id: 1,
            echoes: EchoSet::new(),
        };
        assert(session@.buffers =~= Seq::empty());
        session
    }

    pub(crate) fn find_id(&self, id: BufferId) -> (found: Option<usize>)
        ensures
            index_view(found) == self@.index_of(id),
            found is Some ==> found->0 < self@.buffers.len(),
    {
        let ghost buffers = self@.buffers;
        let mut i: usize = 0;
        while i < self.buffers.len()
            invariant
                i <= self.buffers.len(),
                buffers == self.buffers.deep_view(),
                forall|j: int| 0 <= j < i ==> !has_id(id)(#[trigger] buffers[j]),
            decreases self.buffers.len() - i,
        {
            assert(buffers[i as int] == self.buffers@[i as int]@);
            if self.buffers[i].id == id {
                proof {
                    lemma_is_first_index(buffers, has_id(id), i as int);
                }
                return Some(i);
            }
            i = i + 1;
        }
        proof {
            lemma_no_first_index(buffers, has_id(id));
        }
        None
    }

    fn find_about(&self, server: &ServerId, kind: &BufferKind) -> (found: Option<usize>)
        ensures
            index_view(found) == self@.index_about(server@, kind@),
            found is Some ==> found->0 < self@.buffers.len(),
    {
        let ghost buffers = self@.buffers;
        let ghost about = is_about(server@, kind@);
        let mut i: usize = 0;
        while i < self.buffers.len()
            invariant
                i <= self.buffers.len(),
                buffers == self.buffers.deep_view(),
                about == is_about(server@, kind@),
                forall|j: int| 0 <= j < i ==> !about(#[trigger] buffers[j]),
            decreases self.buffers.len() - i,
        {
            assert(buffers[i as int] == self.buffers@[i as int]@);
            if self.buffers[i].server.same(server) && self.buffers[i].kind.matches(kind) {
                proof {
                    lemma_is_first_index(buffers, about, i as int);
                }
                return Some(i);
            }
            i = i + 1;
        }
        proof {
            lemma_no_first_index(buffers, about);
        }
        None
    }

    /// Registration is idempotent and does not switch the active conversation.
    pub fn open_buffer(&mut self, server: &str, kind: BufferKind) -> (id: BufferId)
        requires
            old(self).wf(),
            old(self)@.next_buffer_id < u64::MAX,
        ensures
            final(self).wf(),
            (final(self)@, id) == old(self)@.open_buffer(server@, kind@),
    {
        let ghost before = self@;
        let server_id = ServerId::new(server);
        match self.find_about(&server_id, &kind) {
            Some(index) => {
                return self.buffers[index].id;
            },
            None => {},
        }
        let state = self.servers.state(server);
        let label = state.label.clone();
        self.servers.put(server, state);
        let id = BufferId(self.next_buffer_id);
        self.next_buffer_id = self.next_buffer_id + 1;
        let buffer = Buffer {
            id,
            server: server_id,
            server_label: label,
            kind,
            draft: Draft::default(),
            hidden: false,
            unread: false,
            send_blocked: false,
            channel_status: ChannelStatus::default(),
            pending_channel_changes: 0,
        };
        self.buffers.push(buffer);
        proof {
            let (after, _) = before.open_buffer(server@, buffer.kind@);
            assert(self@.buffers =~= before.buffers.push(buffer@));
            assert(self@ =~= after);
            lemma_open_buffer_wf(before, server@, buffer.kind@);
        }
        id
    }

    pub fn open_channel(&mut self, server: &str, channel: &str) -> (id: BufferId)
        requires
            old(self).wf(),
            old(self)@.next_buffer_id < u64::MAX,
        ensures
            final(self).wf(),
            (final(self)@, id) == old(self)@.open_channel(server@, channel@),
    {
        self.open_buffer(server, BufferKind::Channel(channel.to_owned()))
    }

    pub fn open_server(&mut self, server: &str) -> (id: BufferId)
        requires
            old(self).wf(),
            old(self)@.next_buffer_id < u64::MAX,
        ensures
            final(self).wf(),
            (final(self)@, id) == old(self)@.open_server(server@),
    {
        self.open_buffer(server, BufferKind::Server)
    }

    /// The conversations in the order of registration.
    pub fn buffer_list(&self) -> (buffers: &Vec<Buffer>)
        ensures
            buffers.deep_view() == self@.buffers,
    {
        &self.buffers
    }

    /// Whether one more message, conversation and pending change can be counted.
    pub fn has_room(&self) -> (answer: bool)
        requires
            self.wf(),
        ensures
            answer == self@.has_room(),
    {
        if !self.history.has_room() || self.next_buffer_id == u64::MAX || !self.servers.has_room() {
            return false;
        }
        let ghost all = self@.buffers;
        let mut i: usize = 0;
        while i < self.buffers.len()
            invariant
                i <= self.buffers.len(),
                all == self@.buffers,
                all == self.buffers.deep_view(),
                forall|j: int|
                    0 <= j < i ==> (#[trigger] all[j]).pending_channel_changes < usize::MAX,
            decreases self.buffers.len() - i,
        {
            assert(all[i as int] == self.buffers@[i as int]@);
            if self.buffers[i].pending_channel_changes == usize::MAX {
                return false;
            }
            i = i + 1;
        }
        true
    }

    pub fn buffer_count(&self) -> (count: usize)
        ensures
            count == self@.buffers.len(),
    {
        self.buffers.len()
    }

    /// The identity of the conversation that is shown, if one is.
    pub fn active(&self) -> (active: Option<BufferId>)
        ensures
            active == self@.active,
    {
        self.active
    }

    pub(crate) fn find_active(&self) -> (found: Option<usize>)
        ensures
            index_view(found) == self@.active_index(),
            found is Some ==> found->0 < self@.buffers.len(),
    {
        match self.active {
            Some(id) => self.find_id(id),
            None => None,
        }
    }

    pub fn active_buffer(&self) -> (buffer: Option<&Buffer>)
        ensures
            buffer.deep_view() == self@.active_buffer(),
    {
        match self.find_active() {
            Some(index) => Some(&self.buffers[index]),
            None => None,
        }
    }

    /// Show the conversation at this place in the order of registration.
    pub fn select_buffer(&mut self, index: usize)
        requires
            old(self).wf(),
        ensures
            final(self).wf(),
            final(self)@ == (if index < old(self)@.buffers.len() {
                SessionView {
                    active: Some(old(self)@.buffers[index as int].id),
                    ..old(self)@
                }
            } else {
                old(self)@
            }),
    {
        if index < self.buffers.len() {
            self.active = Some(self.buffers[index].id);
        }
    }

    /// The messages of the active conversation, oldest first.
    pub fn messages(&self) -> (messages: &VecDeque<Message>)
        requires
            self.wf(),
        ensures
            messages.deep_view() == self@.history.of(
                match self@.active {
                    Some(id) => id,
                    None => BufferId(0),
                },
            ),
    {
        self.history.messages(
            match self.active {
                Some(id) => id,
                None => BufferId(0),
            },
        )
    }

    /// The messages of one conversation, oldest first.
    pub fn messages_for(&self, buffer: BufferId) -> (messages: &VecDeque<Message>)
        requires
            self.wf(),
        ensures
            messages.deep_view() == self@.history.of(buffer),
    {
        self.history.messages(buffer)
    }

    /// The messages to ourselves in one conversation whose copy from the server has
    /// not come yet.
    pub fn pending_self_echoes(&self, buffer: BufferId) -> (messages: Vec<MessageId>)
        requires
            self.wf(),
        ensures
            messages@.no_duplicates(),
            forall|id: MessageId|
                messages@.contains(id) == #[trigger] self@.echoes.contains((buffer, id)),
    {
        self.echoes.of(buffer)
    }

    fn current_draft(&self) -> (draft: &Draft)
        ensures
            draft@ == self@.draft(),
    {
        match self.find_active() {
            Some(index) => &self.buffers[index].draft,
            None => &self.welcome_draft,
        }
    }

    fn draft_mut(&mut self) -> (draft: &mut Draft)
        ensures
            draft@ == old(self)@.draft(),
            final(self)@ == old(self)@.with_draft(final(draft)@),
            old(self).parts_wf() ==> final(self).parts_wf(),
    {
        match self.find_active() {
            Some(index) => &mut self.buffers[index].draft,
            None => &mut self.welcome_draft,
        }
    }

    pub fn input(&self) -> (text: &str)
        ensures
            text@ == self@.draft().text,
    {
        self.current_draft().text()
    }

    pub fn input_cursor(&self) -> (cursor: usize)
        ensures
            cursor == self@.draft().cursor,
    {
        self.current_draft().cursor()
    }

    /// Type one character.
    pub fn type_char(&mut self, character: char)
        requires
            old(self).wf(),
        ensures
            final(self).wf(),
            final(self)@ == old(self)@.with_draft(old(self)@.draft().insert(character)),
    {
        proof {
            lemma_draft_wf(self@);
            lemma_with_draft_wf(self@, self@.draft().insert(character));
        }
        self.draft_mut().insert(character);
    }

    /// Remove the character before the cursor.
    pub fn backspace(&mut self)
        requires
            old(self).wf(),
        ensures
            final(self).wf(),
            final(self)@ == old(self)@.with_draft(old(self)@.draft().backspace()),
    {
        proof {
            lemma_draft_wf(self@);
            lemma_with_draft_wf(self@, self@.draft().backspace());
        }
        self.draft_mut().backspace();
    }

    /// Remove the character after the cursor.
    pub fn delete(&mut self)
        requires
            old(self).wf(),
        ensures
            final(self).wf(),
            final(self)@ == old(self)@.with_draft(old(self)@.draft().delete()),
    {
        proof {
            lemma_draft_wf(self@);
            lemma_with_draft_wf(self@, self@.draft().delete());
        }
        self.draft_mut().delete();
    }

    pub fn cursor_left(&mut self)
        requires
            old(self).wf(),
        ensures
            final(self).wf(),
            final(self)@ == old(self)@.with_draft(old(self)@.draft().left()),
    {
        proof {
            lemma_draft_wf(self@);
            lemma_with_draft_wf(self@, self@.draft().left());
        }
        self.draft_mut().left();
    }

    pub fn cursor_right(&mut self)
        requires
            old(self).wf(),
        ensures
            final(self).wf(),
            final(self)@ == old(self)@.with_draft(old(self)@.draft().right()),
    {
        proof {
            lemma_draft_wf(self@);
            lemma_with_draft_wf(self@, self@.draft().right());
        }
        self.draft_mut().right();
    }

    pub fn cursor_home(&mut self)
        requires
            old(self).wf(),
        ensures
            final(self).wf(),
            final(self)@ == old(self)@.with_draft(old(self)@.draft().home()),
    {
        proof {
            lemma_draft_wf(self@);
            lemma_with_draft_wf(self@, self@.draft().home());
        }
        self.draft_mut().home();
    }

    pub fn cursor_end(&mut self)
        requires
            old(self).wf(),
        ensures
            final(self).wf(),
            final(self)@ == old(self)@.with_draft(old(self)@.draft().end()),
    {
        proof {
            lemma_draft_wf(self@);
            lemma_with_draft_wf(self@, self@.draft().end());
        }
        self.draft_mut().end();
    }

    pub fn clear_input(&mut self)
        requires
            old(self).wf(),
        ensures
            final(self).wf(),
            final(self)@ == old(self)@.with_draft(DraftView::empty()),
    {
        proof {
            lemma_with_draft_wf(self@, DraftView::empty());
        }
        self.draft_mut().clear();
    }

    /// Put back saved input with its cursor, whole.
    pub fn restore_input_at(&mut self, text: String, cursor: usize)
        requires
            old(self).wf(),
        ensures
            final(self).wf(),
            final(self)@ == old(self)@.with_draft(DraftView::restored(text@, cursor as int)),
    {
        proof {
            lemma_with_draft_wf(self@, DraftView::restored(text@, cursor as int));
        }
        self.draft_mut().restore(text, cursor);
    }

    /// Put back saved input with the cursor at its end.
    pub fn restore_input(&mut self, text: String)
        requires
            old(self).wf(),
        ensures
            final(self).wf(),
            final(self)@ == old(self)@.with_draft(
                DraftView::restored(text@, text@.len() as int),
            ),
    {
        let cursor: usize = text.as_str().unicode_len();
        self.restore_input_at(text, cursor);
    }

    /// What the input would submit; `None` where there is nothing to submit.
    pub fn prepare_input(&self) -> (submission: Option<InputSubmission>)
        ensures
            submission.deep_view() == self@.prepare_input(),
    {
        match parse_slash_command(self.input()) {
            Some(Ok(command)) => {
                return Some(InputSubmission::Slash(command));
            },
            Some(Err(error)) => {
                return Some(InputSubmission::InvalidSlash(error));
            },
            None => {},
        }
        let buffer = match self.active_buffer() {
            Some(buffer) => buffer,
            None => return None,
        };
        let trimmed = text::trimmed(self.input());
        if trimmed.is_empty() {
            return None;
        }
        let server = buffer.server_label.clone();
        let outgoing = match &buffer.kind {
            BufferKind::Server => OutgoingMessage::Raw {
                server,
                line: text::trimmed_start(self.input()).to_owned(),
            },
            BufferKind::Channel(target) => OutgoingMessage::Privmsg {
                server,
                target: target.clone(),
                text: trimmed.to_owned(),
            },
            BufferKind::Query(target) => OutgoingMessage::Privmsg {
                server,
                target: target.clone(),
                text: trimmed.to_owned(),
            },
        };
        Some(InputSubmission::Outgoing(outgoing))
    }
}

/// Where the conversations keep their identities, the active one stays registered.
pub proof fn lemma_still_registered(before: SessionView, after: SessionView)
    requires
        before.active is Some ==> before.registered(before.active->0),
        after.active == before.active,
        after.buffers.len() >= before.buffers.len(),
        forall|i: int|
            0 <= i < before.buffers.len() ==> (#[trigger] after.buffers[i]).id
                == before.buffers[i].id,
    ensures
        after.active is Some ==> after.registered(after.active->0),
{
    if before.active is Some {
        let id = before.active->0;
        let index = choose|i: int|
            0 <= i < before.buffers.len() && (#[trigger] before.buffers[i]).id == id;
        assert(after.buffers[index].id == id);
    }
}

/// The draft that typing edits is sound.
pub proof fn lemma_draft_wf(session: SessionView)
    requires
        session.wf(),
    ensures
        session.draft().wf(),
{
    if session.active is Some {
        lemma_first_index(session.buffers, has_id(session.active->0));
    }
}

/// Editing keeps a session sound.
pub proof fn lemma_with_draft_wf(session: SessionView, draft: DraftView)
    requires
        session.wf(),
        draft.wf(),
    ensures
        session.with_draft(draft).wf(),
{
    if session.active is Some {
        lemma_first_index(session.buffers, has_id(session.active->0));
    }
    match session.active_index() {
        Some(index) => {
            lemma_with_buffer_wf(
                session,
                index,
                BufferView { draft, ..session.buffers[index] },
            );
        },
        None => {},
    }
}

/// Changing what a conversation holds, but not what it is, keeps a session sound.
pub proof fn lemma_with_buffer_wf(session: SessionView, index: int, buffer: BufferView)
    requires
        session.wf(),
        0 <= index < session.buffers.len(),
        buffer.draft.wf(),
        buffer.id == session.buffers[index].id,
        buffer.server == session.buffers[index].server,
        buffer.server_label == session.buffers[index].server_label,
        buffer.kind == session.buffers[index].kind,
    ensures
        session.with_buffer(index, buffer).wf(),
{
    let after = session.with_buffer(index, buffer);
    lemma_still_registered(session, after);
    assert forall|i: int, j: int| 0 <= i < j < after.buffers.len() implies {
        &&& (#[trigger] after.buffers[i]).id.0 < (#[trigger] after.buffers[j]).id.0
        &&& !(after.buffers[i].server == after.buffers[j].server && after.buffers[i].kind.matches(
            after.buffers[j].kind,
        ))
    } by {
        assert(after.buffers[i].id == session.buffers[i].id);
        assert(after.buffers[j].id == session.buffers[j].id);
        assert(after.buffers[i].kind == session.buffers[i].kind);
        assert(after.buffers[j].kind == session.buffers[j].kind);
    }
    assert forall|i: int| 0 <= i < after.buffers.len() implies {
        &&& (#[trigger] after.buffers[i]).draft.wf()
        &&& 0 < after.buffers[i].id.0 < after.next_buffer_id
        &&& after.servers.contains_key(after.buffers[i].server)
        &&& text::lower(after.buffers[i].server_label) == after.buffers[i].server
    } by {
        assert(session.buffers[i].draft.wf());
    }
}

/// A session in which the same conversations stand is as sound as before.
pub proof fn lemma_similar_wf(before: SessionView, after: SessionView)
    requires
        before.wf(),
        after.active == before.active,
        after.history == before.history,
        after.welcome_draft == before.welcome_draft,
        after.next_buffer_id == before.next_buffer_id,
        after.buffers.len() == before.buffers.len(),
        forall|i: int|
            0 <= i < before.buffers.len() ==> {
                &&& (#[trigger] after.buffers[i]).id == before.buffers[i].id
                &&& after.buffers[i].server == before.buffers[i].server
                &&& after.buffers[i].server_label == before.buffers[i].server_label
                &&& after.buffers[i].kind == before.buffers[i].kind
                &&& after.buffers[i].draft == before.buffers[i].draft
            },
        forall|server: Seq<char>| #[trigger]
            before.servers.contains_key(server) ==> after.servers.contains_key(server),
        forall|server: Seq<char>| #[trigger]
            after.servers.contains_key(server) ==> text::lower(after.servers[server].label)
                == server,
    ensures
        after.wf(),
{
    lemma_still_registered(before, after);
    assert forall|i: int, j: int| 0 <= i < j < after.buffers.len() implies {
        &&& (#[trigger] after.buffers[i]).id.0 < (#[trigger] after.buffers[j]).id.0
        &&& !(after.buffers[i].server == after.buffers[j].server && after.buffers[i].kind.matches(
            after.buffers[j].kind,
        ))
    } by {
        assert(before.buffers[i].id.0 < before.buffers[j].id.0);
    }
    assert forall|i: int| 0 <= i < after.buffers.len() implies {
        &&& (#[trigger] after.buffers[i]).draft.wf()
        &&& 0 < after.buffers[i].id.0 < after.next_buffer_id
        &&& after.servers.contains_key(after.buffers[i].server)
        &&& text::lower(after.buffers[i].server_label) == after.buffers[i].server
    } by {
        assert(before.buffers[i].draft.wf());
    }
}

/// Registering keeps a session sound.
pub proof fn lemma_open_buffer_wf(session: SessionView, server: Seq<char>, kind: BufferKindView)
    requires
        session.wf(),
        session.next_buffer_id < u64::MAX,
    ensures
        session.open_buffer(server, kind).0.wf(),
{
    let (after, _) = session.open_buffer(server, kind);
    let about = is_about(text::lower(server), kind);
    lemma_first_index(session.buffers, about);
    if session.index_about(text::lower(server), kind) is None {
        lemma_still_registered(session, after);
        assert forall|i: int, j: int| 0 <= i < j < after.buffers.len() implies {
            &&& (#[trigger] after.buffers[i]).id.0 < (#[trigger] after.buffers[j]).id.0
            &&& !(after.buffers[i].server == after.buffers[j].server
                && after.buffers[i].kind.matches(after.buffers[j].kind))
        } by {
            assert(after.buffers[i] == session.buffers[i]);
            if j < session.buffers.len() {
                assert(after.buffers[j] == session.buffers[j]);
            } else {
                assert(!about(session.buffers[i]));
            }
        }
        assert forall|i: int| 0 <= i < after.buffers.len() implies {
            &&& (#[trigger] after.buffers[i]).draft.wf()
            &&& 0 < after.buffers[i].id.0 < after.next_buffer_id
            &&& after.servers.contains_key(after.buffers[i].server)
            &&& text::lower(after.buffers[i].server_label) == after.buffers[i].server
        } by {
            if i < session.buffers.len() {
                assert(after.buffers[i] == session.buffers[i]);
            }
        }
    }
}

} // verus!
