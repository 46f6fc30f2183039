//! What workers report, and what the configuration registers.

use std::time::SystemTime;

use vstd::prelude::*;

use crate::application::laws::law_reports_keep_the_active_conversation;
use crate::application::servers::{ServerState, ServerStateView};
use crate::application::{lemma_similar_wf, lemma_with_buffer_wf, BufferView, Session, SessionView};
use crate::config::{self, Config, ServerConfigView};
use crate::connection::{ConnectionState, IrcEvent, IrcEventView};
use crate::model::{self, BufferKind, ChannelState, ChannelStatus, ServerId};
use crate::text;

verus! {

/// A conversation after its server's connection is no longer confirmed.
pub open spec fn unconfirmed(
    buffer: BufferView,
    server: Seq<char>,
    connection: ConnectionState,
) -> BufferView {
    if buffer.server == server && buffer.kind is Channel {
        BufferView {
            channel_status: ChannelStatus {
                state: if connection == ConnectionState::Connecting
                    && buffer.channel_status.desired {
                    ChannelState::Joining
                } else {
                    ChannelState::NotJoined
                },
                ..buffer.channel_status
            },
            ..buffer
        }
    } else {
        buffer
    }
}

pub open spec fn less_one(count: nat) -> nat {
    if count > 0 {
        (count - 1) as nat
    } else {
        0
    }
}

impl SessionView {
    pub open spec fn set_connection(
        self,
        server: Seq<char>,
        connection: ConnectionState,
    ) -> SessionView {
        self.with_server(server, ServerStateView { connection, ..self.server_state(server) })
    }

    /// A server's connection in a new state. Without a confirmed connection no
    /// echo is awaited and no channel is joined.
    pub open spec fn update_connection(
        self,
        server: Seq<char>,
        connection: ConnectionState,
    ) -> SessionView {
        let told = self.set_connection(server, connection);
        if connection == ConnectionState::Connected {
            told
        } else {
            let id = text::lower(server);
            let quiet = told.without_echoes(id);
            SessionView {
                buffers: quiet.buffers.map_values(
                    |buffer: BufferView| unconfirmed(buffer, id, connection),
                ),
                ..quiet
            }
        }
    }

    /// A requested change of a connection that the worker has yet to consume.
    pub open spec fn begin_change(
        self,
        server: Seq<char>,
        connection: ConnectionState,
    ) -> SessionView {
        let told = self.update_connection(server, connection);
        let state = told.server_state(server);
        told.with_server(
            server,
            ServerStateView { pending_changes: state.pending_changes + 1, ..state },
        )
    }

    pub open spec fn has_pending_change(self, server: Seq<char>) -> bool {
        let id = text::lower(server);
        self.servers.contains_key(id) && self.servers[id].pending_changes > 0
    }

    /// Our confirmed nickname on a server.
    pub open spec fn nickname(self, server: Seq<char>) -> Option<Seq<char>> {
        let id = text::lower(server);
        if self.servers.contains_key(id) {
            self.servers[id].nickname
        } else {
            None
        }
    }

    pub open spec fn is_away(self, server: Seq<char>) -> bool {
        let id = text::lower(server);
        self.servers.contains_key(id) && self.servers[id].away
    }

    pub open spec fn server_connection(self, server: Seq<char>) -> ConnectionState {
        let id = text::lower(server);
        if self.servers.contains_key(id) {
            self.servers[id].connection
        } else {
            ConnectionState::Stopped
        }
    }

    /// The state of a server's connection, or of one channel on it.
    pub open spec fn connection_state(
        self,
        server: Seq<char>,
        channel: Option<Seq<char>>,
    ) -> ConnectionState {
        match channel {
            None => self.server_connection(server),
            Some(channel) => match self.channel_status(server, channel).state {
                ChannelState::Joined => if self.server_connection(server)
                    == ConnectionState::Connected {
                    ConnectionState::Connected
                } else {
                    ConnectionState::Stopped
                },
                ChannelState::Joining | ChannelState::Parting => ConnectionState::Connecting,
                ChannelState::NotJoined | ChannelState::Uncertain => ConnectionState::Stopped,
            },
        }
    }

    pub open spec fn with_channel_status(self, index: int, status: ChannelStatus) -> SessionView {
        self.with_buffer(index, BufferView { channel_status: status, ..self.buffers[index] })
    }

    /// A channel's reported status. A channel nobody opened gets a conversation;
    /// one with an unconsumed request keeps what was requested.
    pub open spec fn channel_event(
        self,
        server: Seq<char>,
        channel: Seq<char>,
        status: ChannelStatus,
    ) -> SessionView {
        match self.channel_index(server, channel) {
            Some(index) => if self.buffers[index].pending_channel_changes == 0 {
                self.with_channel_status(index, status)
            } else {
                self
            },
            None => if model::channel_name(channel) {
                let (opened, id) = self.open_channel(server, channel);
                match opened.index_of(id) {
                    Some(index) => opened.with_channel_status(index, status),
                    None => opened,
                }
            } else {
                self
            },
        }
    }

    /// The worker consumed one requested change of a connection.
    pub open spec fn control_applied(self, server: Seq<char>) -> SessionView {
        let state = self.server_state(server);
        self.with_server(
            server,
            ServerStateView { pending_changes: less_one(state.pending_changes), ..state },
        )
    }

    /// The worker consumed one requested change of a channel.
    pub open spec fn channel_control_applied(
        self,
        server: Seq<char>,
        channel: Seq<char>,
    ) -> SessionView {
        match self.channel_index(server, channel) {
            Some(index) => self.with_buffer(
                index,
                BufferView {
                    pending_channel_changes: less_one(self.buffers[index].pending_channel_changes),
                    ..self.buffers[index]
                },
            ),
            None => self,
        }
    }

    /// Our confirmed nickname; under another name no echo is awaited.
    pub open spec fn nickname_event(self, server: Seq<char>, nickname: Seq<char>) -> SessionView {
        let previous = self.nickname(server);
        let quiet = if previous is Some && !text::same_name(previous->0, nickname) {
            self.without_echoes(text::lower(server))
        } else {
            self
        };
        quiet.with_server(
            server,
            ServerStateView { nickname: Some(nickname), ..quiet.server_state(server) },
        )
    }

    /// The session after a worker's report on a connection.
    pub open spec fn apply_event(self, event: IrcEventView, at: SystemTime) -> SessionView {
        match event {
            IrcEventView::ControlApplied(server) => self.control_applied(server),
            IrcEventView::Connection(server, connection) => if self.has_pending_change(server) {
                self
            } else {
                self.update_connection(server, connection)
            },
            IrcEventView::ChannelControlApplied(server, channel) => self.channel_control_applied(
                server,
                channel,
            ),
            IrcEventView::Channel(server, channel, status) => if self.has_pending_change(server) {
                self
            } else {
                self.channel_event(server, channel, status)
            },
            IrcEventView::Nickname(server, nickname) => self.nickname_event(server, nickname),
            IrcEventView::PeerNickname(server, previous, nickname) => self.rename_query(
                server,
                previous,
                nickname,
                at,
            ),
            IrcEventView::Away(server, away) => self.with_server(
                server,
                ServerStateView { away, ..self.server_state(server) },
            ),
            _ => self,
        }
    }

    /// The session after any report of a worker.
    pub open spec fn handle_event(self, event: IrcEventView, at: SystemTime) -> SessionView {
        match event {
            IrcEventView::Message(message) => self.push(message).0,
            _ => self.apply_event(event, at),
        }
    }

    /// The first `count` configured channels registered and wanted.
    pub open spec fn register_channels(
        self,
        server: Seq<char>,
        channels: Seq<Seq<char>>,
        count: int,
    ) -> SessionView
        decreases count,
    {
        if count <= 0 {
            self
        } else {
            let before = self.register_channels(server, channels, count - 1);
            let channel = channels[count - 1];
            let opened = before.open_channel(server, channel).0;
            match opened.channel_index(server, channel) {
                Some(index) => opened.with_channel_status(
                    index,
                    ChannelStatus { desired: true, ..opened.buffers[index].channel_status },
                ),
                None => opened,
            }
        }
    }

    /// The first `count` configured private conversations registered.
    pub open spec fn register_queries(
        self,
        server: Seq<char>,
        queries: Seq<Seq<char>>,
        count: int,
    ) -> SessionView
        decreases count,
    {
        if count <= 0 {
            self
        } else {
            self.register_queries(server, queries, count - 1).open_query(
                server,
                queries[count - 1],
            ).0
        }
    }

    /// One configured server registered: its console, its channels, its private
    /// conversations, and that it is connecting.
    pub open spec fn register_server(
        self,
        name: Seq<char>,
        server: ServerConfigView,
    ) -> SessionView {
        let registered = self.open_server(name).0.register_channels(
            name,
            server.channels,
            server.channels.len() as int,
        ).register_queries(name, server.queries, server.queries.len() as int);
        if registered.has_pending_change(name) {
            registered
        } else {
            registered.update_connection(name, ConnectionState::Connecting)
        }
    }

    /// The first `count` configured servers registered.
    pub open spec fn register(
        self,
        servers: Seq<(Seq<char>, ServerConfigView)>,
        count: int,
    ) -> SessionView
        decreases count,
    {
        if count <= 0 {
            self
        } else {
            self.register(servers, count - 1).register_server(
                servers[count - 1].0,
                servers[count - 1].1,
            )
        }
    }
}

/// Most conversations that the first `count` configured servers register.
pub open spec fn conversations(
    servers: Seq<(Seq<char>, ServerConfigView)>,
    count: int,
) -> nat
    decreases count,
{
    if count <= 0 {
        0
    } else {
        conversations(servers, count - 1) + 1 + servers[count - 1].1.channels.len()
            + servers[count - 1].1.queries.len()
    }
}

impl Session {
    fn update_connection_state(&mut self, server: &str, connection: ConnectionState)
        requires
            old(self).wf(),
        ensures
            final(self).wf(),
            final(self)@ == old(self)@.update_connection(server@, connection),
    {
        let ghost before = self@;
        let mut state = self.servers.state(server);
        state.connection = connection;
        self.servers.put(server, state);
        let ghost told = before.set_connection(server@, connection);
        proof {
            assert(self@ =~= told);
            lemma_similar_wf(before, told);
        }
        if connection != ConnectionState::Connected {
            let id = ServerId::new(server);
            self.clear_self_echoes(&id);
            let ghost quiet = told.without_echoes(id@);
            let mut i: usize = 0;
            let count: usize = self.buffers.len();
            while i < count
                invariant
                    i <= count == quiet.buffers.len(),
                    self.parts_wf(),
                    self.buffers@.len() == count,
                    self@ == (SessionView { buffers: self@.buffers, ..quiet }),
                    forall|j: int|
                        0 <= j < i ==> #[trigger] self@.buffers[j] == unconfirmed(
                            quiet.buffers[j],
                            id@,
                            connection,
                        ),
                    forall|j: int| i <= j < count ==> #[trigger] self@.buffers[j] == quiet.buffers[j],
                decreases count - i,
            {
                let ghost was = self@.buffers;
                assert(was[i as int] == self.buffers@[i as int]@);
                let channel = match &self.buffers[i].kind {
                    BufferKind::Channel(_) => true,
                    _ => false,
                };
                if channel && self.buffers[i].server.same(&id) {
                    let joining = connection == ConnectionState::Connecting
                        && self.buffers[i].channel_status.desired;
                    self.buffers[i].channel_status.state = if joining {
                        ChannelState::Joining
                    } else {
                        ChannelState::NotJoined
                    };
                    assert(self@.buffers =~= was.update(
                        i as int,
                        unconfirmed(was[i as int], id@, connection),
                    ));
                }
                assert(self@.buffers[i as int] == unconfirmed(was[i as int], id@, connection));
                i = i + 1;
            }
            proof {
                let after = before.update_connection(server@, connection);
                assert(self@.buffers =~= after.buffers);
                assert(self@ =~= after);
                lemma_similar_wf(told, after);
            }
        }
    }

    /// Disable sending at once until all queued changes reach the worker.
    pub fn begin_connection_change(&mut self, server: &str, connection: ConnectionState)
        requires
            old(self).wf(),
            old(self)@.has_room(),
        ensures
            final(self).wf(),
            final(self)@ == old(self)@.begin_change(server@, connection),
    {
        self.update_connection_state(server, connection);
        let ghost told = self@;
        let mut state = self.servers.state(server);
        state.pending_changes = state.pending_changes + 1;
        self.servers.put(server, state);
        proof {
            lemma_similar_wf(told, self@);
        }
    }

    fn has_pending_connection_change(&self, server: &str) -> (answer: bool)
        requires
            self.wf(),
        ensures
            answer == self@.has_pending_change(server@),
    {
        let id = text::lowered(server);
        match self.servers.get(id.as_str()) {
            Some(state) => state.pending_changes > 0,
            None => false,
        }
    }

    fn set_channel_status(&mut self, index: usize, status: ChannelStatus)
        requires
            old(self).wf(),
            index < old(self)@.buffers.len(),
        ensures
            final(self).wf(),
            final(self)@ == old(self)@.with_channel_status(index as int, status),
    {
        let ghost before = self@;
        self.buffers[index].channel_status = status;
        proof {
            let buffer = BufferView { channel_status: status, ..before.buffers[index as int] };
            assert(self@.buffers =~= before.buffers.update(index as int, buffer));
            lemma_with_buffer_wf(before, index as int, buffer);
        }
    }

    fn channel_event(&mut self, server: &str, channel: &str, status: ChannelStatus)
        requires
            old(self).wf(),
            old(self)@.next_buffer_id < u64::MAX,
        ensures
            final(self).wf(),
            final(self)@ == old(self)@.channel_event(server@, channel@, status),
    {
        match self.channel_index(server, channel) {
            Some(index) => {
                assert(self@.buffers[index as int] == self.buffers@[index as int]@);
                if self.buffers[index].pending_channel_changes == 0 {
                    self.set_channel_status(index, status);
                }
            },
            None => {
                if model::valid_channel_name(channel) {
                    let id = self.open_channel(server, channel);
                    match self.find_id(id) {
                        Some(index) => {
                            self.set_channel_status(index, status);
                        },
                        None => {},
                    }
                }
            },
        }
    }

    fn set_server(&mut self, server: &str, state: ServerState)
        requires
            old(self).wf(),
            text::lower(state@.label) == text::lower(server@),
        ensures
            final(self).wf(),
            final(self)@ == old(self)@.with_server(server@, state@),
    {
        let ghost before = self@;
        self.servers.put(server, state);
        proof {
            assert(self@ =~= before.with_server(server@, state@));
            lemma_similar_wf(before, self@);
        }
    }

    fn control_applied(&mut self, server: &str)
        requires
            old(self).wf(),
        ensures
            final(self).wf(),
            final(self)@ == old(self)@.control_applied(server@),
    {
        let mut state = self.servers.state(server);
        if state.pending_changes > 0 {
            state.pending_changes = state.pending_changes - 1;
        }
        self.set_server(server, state);
    }

    fn channel_control_applied(&mut self, server: &str, channel: &str)
        requires
            old(self).wf(),
        ensures
            final(self).wf(),
            final(self)@ == old(self)@.channel_control_applied(server@, channel@),
    {
        let ghost before = self@;
        match self.channel_index(server, channel) {
            Some(index) => {
                let pending: usize = self.buffers[index].pending_channel_changes;
                assert(before.buffers[index as int] == self.buffers@[index as int]@);
                if pending > 0 {
                    self.buffers[index].pending_channel_changes = pending - 1;
                }
                proof {
                    let buffer = BufferView {
                        pending_channel_changes: less_one(pending as nat),
                        ..before.buffers[index as int]
                    };
                    assert(self@.buffers =~= before.buffers.update(index as int, buffer));
                    lemma_with_buffer_wf(before, index as int, buffer);
                }
            },
            None => {},
        }
    }

    fn nickname_event(&mut self, server: &str, nickname: &str)
        requires
            old(self).wf(),
        ensures
            final(self).wf(),
            final(self)@ == old(self)@.nickname_event(server@, nickname@),
    {
        let changed = match self.nickname(server) {
            Some(previous) => !text::names_match(previous, nickname),
            None => false,
        };
        if changed {
            let id = ServerId::new(server);
            self.clear_self_echoes(&id);
        }
        let mut state = self.servers.state(server);
        state.nickname = Some(nickname.to_owned());
        self.set_server(server, state);
    }

    /// Take note of a worker's report on a connection, told at `at`.
    pub fn apply_connection_event_at(&mut self, event: &IrcEvent, at: SystemTime)
        requires
            old(self).wf(),
            old(self)@.has_room(),
        ensures
            final(self).wf(),
            final(self)@ == old(self)@.apply_event(event@, at),
    {
        match event {
            IrcEvent::ControlApplied(server) => {
                self.control_applied(server.as_str());
            },
            IrcEvent::Connection(server, connection) => {
                if !self.has_pending_connection_change(server.as_str()) {
                    self.update_connection_state(server.as_str(), *connection);
                }
            },
            IrcEvent::ChannelControlApplied(server, channel) => {
                self.channel_control_applied(server.as_str(), channel.as_str());
            },
            IrcEvent::Channel(server, channel, status) => {
                if !self.has_pending_connection_change(server.as_str()) {
                    self.channel_event(server.as_str(), channel.as_str(), *status);
                }
            },
            IrcEvent::Nickname(server, nickname) => {
                self.nickname_event(server.as_str(), nickname.as_str());
            },
            IrcEvent::PeerNickname(server, previous, nickname) => {
                self.rename_query(server.as_str(), previous.as_str(), nickname.as_str(), at);
            },
            IrcEvent::Away(server, away) => {
                let mut state = self.servers.state(server.as_str());
                state.away = *away;
                self.set_server(server.as_str(), state);
            },
            _ => {},
        }
    }

    /// Take note of a worker's report on a connection, now.
    pub fn apply_connection_event(&mut self, event: &IrcEvent)
        requires
            old(self).wf(),
            old(self)@.has_room(),
        ensures
            final(self).wf(),
            exists|at: SystemTime| final(self)@ == #[trigger] old(self)@.apply_event(event@, at),
    {
        let at = model::clock();
        let ghost before = self@;
        self.apply_connection_event_at(event, at);
        assert(self@ == before.apply_event(event@, at));
    }

    /// Route a worker's report without involving the terminal, at `at`.
    pub fn handle_event_at(&mut self, event: IrcEvent, at: SystemTime)
        requires
            old(self).wf(),
            old(self)@.has_room(),
        ensures
            final(self).wf(),
            final(self)@ == old(self)@.handle_event(event@, at),
    {
        match event {
            IrcEvent::Message(message) => {
                let _ = self.push_message(message);
            },
            event => {
                self.apply_connection_event_at(&event, at);
            },
        }
    }

    /// Route a worker's report without involving the terminal, now.
    pub fn handle_event(&mut self, event: IrcEvent)
        requires
            old(self).wf(),
            old(self)@.has_room(),
        ensures
            final(self).wf(),
            old(self)@.active is Some ==> final(self)@.active == old(self)@.active,
            exists|at: SystemTime| final(self)@ == #[trigger] old(self)@.handle_event(event@, at),
    {
        let at = model::clock();
        let ghost before = self@;
        let ghost told = event@;
        proof {
            self.lemma_wf();
            law_reports_keep_the_active_conversation(before, told, at);
        }
        self.handle_event_at(event, at);
        assert(self@ == before.handle_event(told, at));
    }

    fn server_connection(&self, server: &str) -> (state: ConnectionState)
        requires
            self.wf(),
        ensures
            state == self@.server_connection(server@),
    {
        let id = text::lowered(server);
        match self.servers.get(id.as_str()) {
            Some(state) => state.connection,
            None => ConnectionState::Stopped,
        }
    }

    /// The state of a server's connection, or of one channel on it.
    pub fn connection_state(&self, server: &str, channel: Option<&str>) -> (state: ConnectionState)
        requires
            self.wf(),
        ensures
            state == self@.connection_state(server@, channel.deep_view()),
    {
        match channel {
            None => self.server_connection(server),
            Some(channel) => match self.channel_status(server, channel).state {
                ChannelState::Joined => if self.server_connection(server)
                    == ConnectionState::Connected {
                    ConnectionState::Connected
                } else {
                    ConnectionState::Stopped
                },
                ChannelState::Joining | ChannelState::Parting => ConnectionState::Connecting,
                ChannelState::NotJoined | ChannelState::Uncertain => ConnectionState::Stopped,
            },
        }
    }

    /// Our confirmed nickname on a server.
    pub fn nickname(&self, server: &str) -> (nickname: Option<&str>)
        requires
            self.wf(),
        ensures
            nickname.deep_view() == self@.nickname(server@),
    {
        let id = text::lowered(server);
        match self.servers.get(id.as_str()) {
            Some(state) => match &state.nickname {
                Some(nickname) => Some(nickname.as_str()),
                None => None,
            },
            None => None,
        }
    }

    pub fn is_away(&self, server: &str) -> (away: bool)
        requires
            self.wf(),
        ensures
            away == self@.is_away(server@),
    {
        let id = text::lowered(server);
        match self.servers.get(id.as_str()) {
            Some(state) => state.away,
            None => false,
        }
    }

    fn register_channels(&mut self, server: &str, channels: &Vec<String>)
        requires
            old(self).wf(),
            old(self)@.next_buffer_id + channels@.len() <= u64::MAX,
        ensures
            final(self).wf(),
            final(self)@.next_buffer_id <= old(self)@.next_buffer_id + channels@.len(),
            final(self)@ == old(self)@.register_channels(
                server@,
                channels.deep_view(),
                channels.deep_view().len() as int,
            ),
    {
        let ghost before = self@;
        let mut i: usize = 0;
        while i < channels.len()
            invariant
                i <= channels.len(),
                self.wf(),
                before.next_buffer_id + channels@.len() <= u64::MAX,
                self@.next_buffer_id <= before.next_buffer_id + i,
                self@ == before.register_channels(server@, channels.deep_view(), i as int),
            decreases channels.len() - i,
        {
            assert(channels.deep_view()[i as int] == channels@[i as int]@);
            let channel = channels[i].as_str();
            let _ = self.open_channel(server, channel);
            match self.channel_index(server, channel) {
                Some(index) => {
                    assert(self@.buffers[index as int] == self.buffers@[index as int]@);
                    let status = self.buffers[index].channel_status;
                    self.set_channel_status(index, ChannelStatus { desired: true, ..status });
                },
                None => {},
            }
            i = i + 1;
        }
    }

    fn register_queries(&mut self, server: &str, queries: &Vec<String>)
        requires
            old(self).wf(),
            old(self)@.next_buffer_id + queries@.len() <= u64::MAX,
        ensures
            final(self).wf(),
            final(self)@.next_buffer_id <= old(self)@.next_buffer_id + queries@.len(),
            final(self)@ == old(self)@.register_queries(
                server@,
                queries.deep_view(),
                queries.deep_view().len() as int,
            ),
    {
        let ghost before = self@;
        let mut i: usize = 0;
        while i < queries.len()
            invariant
                i <= queries.len(),
                self.wf(),
                before.next_buffer_id + queries@.len() <= u64::MAX,
                self@.next_buffer_id <= before.next_buffer_id + i,
                self@ == before.register_queries(server@, queries.deep_view(), i as int),
            decreases queries.len() - i,
        {
            assert(queries.deep_view()[i as int] == queries@[i as int]@);
            let _ = self.open_query(server, queries[i].as_str());
            i = i + 1;
        }
    }

    /// Whether what the configuration names can be registered: there are identities
    /// left for all of it.
    pub fn has_room_for(&self, config: &Config) -> (answer: bool)
        ensures
            answer == (self@.next_buffer_id + conversations(config@, config@.len() as int)
                <= u64::MAX),
    {
        let ghost servers = config@;
        let count: usize = config::entry_count(&config.servers);
        let mut next: u64 = self.next_buffer_id;
        let mut i: usize = 0;
        while i < count
            invariant
                i <= count == servers.len(),
                servers == config@,
                next == self@.next_buffer_id + conversations(servers, i as int),
            decreases count - i,
        {
            proof {
                lemma_conversations_grow(servers, i as int + 1, count as int);
            }
            match config::entry_at(&config.servers, i) {
                Some((name, server)) => {
                    assert(servers[i as int] == (name@, server@));
                    assert(server.channels.deep_view().len() == server.channels.len());
                    assert(server.queries.deep_view().len() == server.queries.len());
                    let more: u128 = 1 + server.channels.len() as u128 + server.queries.len() as u128;
                    let total: u128 = next as u128 + more;
                    if total > u64::MAX as u128 {
                        return false;
                    }
                    next = total as u64;
                },
                None => {},
            }
            i = i + 1;
        }
        true
    }

    /// Register what the configuration names, without showing any of it.
    pub fn register_config(&mut self, config: &Config)
        requires
            old(self).wf(),
            old(self)@.next_buffer_id + conversations(config@, config@.len() as int) <= u64::MAX,
        ensures
            final(self).wf(),
            final(self)@ == old(self)@.register(config@, config@.len() as int),
    {
        let ghost before = self@;
        let ghost servers = config@;
        let count: usize = config::entry_count(&config.servers);
        let mut i: usize = 0;
        while i < count
            invariant
                i <= count == servers.len(),
                servers == config@,
                self.wf(),
                before.next_buffer_id + conversations(servers, count as int) <= u64::MAX,
                self@.next_buffer_id <= before.next_buffer_id + conversations(servers, i as int),
                self@ == before.register(servers, i as int),
            decreases count - i,
        {
            proof {
                lemma_conversations_grow(servers, i as int + 1, count as int);
            }
            match config::entry_at(&config.servers, i) {
                Some((name, server)) => {
                    assert(servers[i as int] == (name@, server@));
                    let _ = self.open_server(name.as_str());
                    self.register_channels(name.as_str(), &server.channels);
                    self.register_queries(name.as_str(), &server.queries);
                    if !self.has_pending_connection_change(name.as_str()) {
                        self.update_connection_state(name.as_str(), ConnectionState::Connecting);
                    }
                },
                None => {},
            }
            i = i + 1;
        }
    }
}

proof fn lemma_conversations_grow(
    servers: Seq<(Seq<char>, ServerConfigView)>,
    count: int,
    more: int,
)
    requires
        count <= more,
    ensures
        conversations(servers, count) <= conversations(servers, more),
    decreases more - count,
{
    if count < more {
        lemma_conversations_grow(servers, count, more - 1);
    }
}

} // verus!
