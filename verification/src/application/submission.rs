//! Submitting the composer: decide, queue, then commit.
//!
//! Whether a queue takes something depends on its worker. So a submission has
//! two exact halves around the queueing: the plan that says what to queue, and
//! the completion that takes the answer.

use std::time::SystemTime;

use vstd::prelude::*;

use crate::application::laws::law_submitting_keeps_the_active_conversation;
use crate::application::{
    index_view, lemma_with_buffer_wf, BufferView, InputSubmission, InputSubmissionView, Session,
    SessionView, SubmissionEffect,
};
use crate::command::{
    parse_slash_command, parsed_slash, requested_action, CommandAction, CommandActionView,
    CommandError,
};
use crate::config::{self, Config, ServerConfigView};
use crate::connection::{try_queue, ConnectionHandle, ConnectionState};
use crate::model::{
    self, BufferKind, BufferKindView, ChannelState, ChannelStatus, ConnectionCommand,
    ConnectionCommandView, DeliveryState, Direction, DraftView, MessageContent, MessageContentView,
    MessageKind, MessageKindView, OutgoingMessage, OutgoingMessageView, RoutedMessage,
    RoutedMessageView, ServerId,
};
use crate::protocol::{
    channel_control_from_raw, control_error, controlled_raw, encode_outgoing, encoded,
    validate_control, SendError,
};
use crate::sequence::{first_index, lemma_is_first_index, lemma_no_first_index};
use crate::text;

verus! {

/// The workers' queues, by configuration key.
pub type Connections = Vec<(String, ConnectionHandle)>;

/// Why a command is not carried out.
#[derive(Debug, Clone, Copy, PartialEq, Eq, Structural)]
pub enum Refusal {
    NoServer,
    NoQuery,
    NotQuery,
    UnknownServer,
    NotConnected,
    NoChannel,
    UnknownChannel,
    ChannelBusy,
    InvalidControl,
    MissingName,
    InvalidCharacters,
    Unsupported,
    InvalidArguments,
    DisconnectedOrBusy,
}

impl Refusal {
    /// The word for it in a log.
    pub open spec fn word(self) -> Seq<char> {
        match self {
            Refusal::NoServer => "no_server"@,
            Refusal::NoQuery => "no_query"@,
            Refusal::NotQuery => "not_query"@,
            Refusal::UnknownServer => "unknown_server"@,
            Refusal::NotConnected => "not_connected"@,
            Refusal::NoChannel => "no_channel"@,
            Refusal::UnknownChannel => "unknown_channel"@,
            Refusal::ChannelBusy => "channel_busy"@,
            Refusal::InvalidControl => "invalid_control"@,
            Refusal::MissingName => "missing_name"@,
            Refusal::InvalidCharacters => "invalid_characters"@,
            Refusal::Unsupported => "unsupported"@,
            Refusal::InvalidArguments => "invalid_arguments"@,
            Refusal::DisconnectedOrBusy => "disconnected_or_busy"@,
        }
    }

    /// The word for it in a log. It says nothing of what the user wrote.
    pub fn reason(self) -> (word: &'static str)
        ensures
            word@ == self.word(),
    {
        match self {
            Refusal::NoServer => "no_server",
            Refusal::NoQuery => "no_query",
            Refusal::NotQuery => "not_query",
            Refusal::UnknownServer => "unknown_server",
            Refusal::NotConnected => "not_connected",
            Refusal::NoChannel => "no_channel",
            Refusal::UnknownChannel => "unknown_channel",
            Refusal::ChannelBusy => "channel_busy",
            Refusal::InvalidControl => "invalid_control",
            Refusal::MissingName => "missing_name",
            Refusal::InvalidCharacters => "invalid_characters",
            Refusal::Unsupported => "unsupported",
            Refusal::InvalidArguments => "invalid_arguments",
            Refusal::DisconnectedOrBusy => "disconnected_or_busy",
        }
    }
}

/// Why input with a command that has no action is not carried out.
pub open spec fn action_refusal(error: CommandError) -> Refusal {
    match error {
        CommandError::Unsupported => Refusal::Unsupported,
        CommandError::InvalidArguments => Refusal::InvalidArguments,
    }
}

pub ghost enum FeedbackView {
    Accepted,
    Rejected(Refusal),
    Unparsed(Refusal),
    ChannelRejected(Refusal),
    Unsent(Seq<char>),
}

/// What a submission leaves in the log, without anything that the user wrote.
#[derive(Debug, Clone, PartialEq, Eq)]
pub enum Feedback {
    /// A slash command was carried out or queued.
    Accepted,
    /// A slash command was not carried out.
    Rejected(Refusal),
    /// Slash input is no command.
    Unparsed(Refusal),
    /// A console line that joins or parts a channel was not carried out.
    ChannelRejected(Refusal),
    /// Something to say could not be queued for this server.
    Unsent(String),
}

impl View for Feedback {
    type V = FeedbackView;

    open spec fn view(&self) -> FeedbackView {
        match self {
            Feedback::Accepted => FeedbackView::Accepted,
            Feedback::Rejected(refusal) => FeedbackView::Rejected(*refusal),
            Feedback::Unparsed(refusal) => FeedbackView::Unparsed(*refusal),
            Feedback::ChannelRejected(refusal) => FeedbackView::ChannelRejected(*refusal),
            Feedback::Unsent(server) => FeedbackView::Unsent(server@),
        }
    }
}

impl DeepView for Feedback {
    type V = FeedbackView;

    open spec fn deep_view(&self) -> FeedbackView {
        self@
    }
}

/// A submission that is over: what the frontend does, and what the log records.
#[derive(Debug, PartialEq, Eq)]
pub struct Submitted {
    pub effect: SubmissionEffect,
    pub feedback: Option<Feedback>,
}

pub ghost enum PendingView {
    Message { connection: int, message: OutgoingMessageView, target: BufferKindView },
    Control {
        connection: int,
        server: Seq<char>,
        command: ConnectionCommandView,
        next: Option<ConnectionState>,
    },
    Join { connection: int, server: Seq<char>, channel: Seq<char>, command: ConnectionCommandView },
    Part { connection: int, server: Seq<char>, channel: Seq<char>, command: ConnectionCommandView },
}

impl PendingView {
    /// Whose queue it is for.
    pub open spec fn connection(self) -> int {
        match self {
            PendingView::Message { connection, .. } => connection,
            PendingView::Control { connection, .. } => connection,
            PendingView::Join { connection, .. } => connection,
            PendingView::Part { connection, .. } => connection,
        }
    }

    /// What is put into that queue: the message as it was planned, or the control.
    pub open spec fn item(self) -> QueueItemView {
        match self {
            PendingView::Message { message, .. } => QueueItemView::Message(message),
            PendingView::Control { command, .. } => QueueItemView::Control(command),
            PendingView::Join { command, .. } => QueueItemView::Control(command),
            PendingView::Part { command, .. } => QueueItemView::Control(command),
        }
    }
}

pub ghost enum QueueItemView {
    Message(OutgoingMessageView),
    Control(ConnectionCommandView),
}

/// What is offered to a worker's queues.
#[derive(Debug)]
pub enum QueueItem {
    Message(OutgoingMessage),
    Control(ConnectionCommand),
}

impl View for QueueItem {
    type V = QueueItemView;

    open spec fn view(&self) -> QueueItemView {
        match self {
            QueueItem::Message(message) => QueueItemView::Message(message@),
            QueueItem::Control(command) => QueueItemView::Control(command@),
        }
    }
}

/// Something to queue, with what its completion needs.
#[derive(Debug)]
pub enum Pending {
    /// Something to say.
    Message { connection: usize, message: OutgoingMessage, target: BufferKind },
    /// A control of the connection, and the state that it leads to.
    Control {
        connection: usize,
        server: String,
        command: ConnectionCommand,
        next: Option<ConnectionState>,
    },
    Join { connection: usize, server: String, channel: String, command: ConnectionCommand },
    Part { connection: usize, server: String, channel: String, command: ConnectionCommand },
}

impl View for Pending {
    type V = PendingView;

    open spec fn view(&self) -> PendingView {
        match self {
            Pending::Message { connection, message, target } => PendingView::Message {
                connection: *connection as int,
                message: message@,
                target: target@,
            },
            Pending::Control { connection, server, command, next } => PendingView::Control {
                connection: *connection as int,
                server: server@,
                command: command@,
                next: *next,
            },
            Pending::Join { connection, server, channel, command } => PendingView::Join {
                connection: *connection as int,
                server: server@,
                channel: channel@,
                command: command@,
            },
            Pending::Part { connection, server, channel, command } => PendingView::Part {
                connection: *connection as int,
                server: server@,
                channel: channel@,
                command: command@,
            },
        }
    }
}

/// A submission decided: settled in the session as shown, or waiting for a queue.
pub ghost enum PlanView {
    Settled {
        session: SessionView,
        status: Option<Seq<char>>,
        effect: SubmissionEffect,
        feedback: Option<FeedbackView>,
    },
    Queue(PendingView),
}

/// A submission decided.
#[derive(Debug)]
pub enum Plan {
    /// Nothing is left to do but this.
    Settled(Submitted),
    /// This has to be queued first.
    Queue(Pending),
}

/// The keys of the workers' queues.
pub open spec fn connection_names(connections: Connections) -> Seq<Seq<char>> {
    connections@.map_values(|entry: (String, ConnectionHandle)| entry.0@)
}

/// Names that equal `name` but for ASCII case.
pub open spec fn is_named(name: Seq<char>) -> spec_fn(Seq<char>) -> bool {
    |other: Seq<char>| text::same_name(other, name)
}

/// What the status says about something that cannot be sent.
pub open spec fn failed_text(error: SendError) -> Seq<char> {
    "failed to send ("@ + error.text() + ")"@
}

/// What the status says where the queue does not take a message.
pub open spec fn busy_text(server: Seq<char>) -> Seq<char> {
    "failed to send ("@ + server + " disconnected or busy)"@
}

/// What the status says where the peer took another name.
pub open spec fn blocked_text() -> Seq<char> {
    "query target changed; use /query to select a nickname"@
}

/// A status that may have been replaced.
pub open spec fn told(status: Seq<char>, news: Option<Seq<char>>) -> Seq<char> {
    match news {
        Some(news) => news,
        None => status,
    }
}

impl PlanView {
    /// Nothing happens, and the draft stays.
    pub open spec fn refused(session: SessionView) -> PlanView {
        PlanView::Settled {
            session,
            status: None,
            effect: SubmissionEffect::Nothing,
            feedback: None,
        }
    }

    /// The draft stays, and the status says why.
    pub open spec fn rejected(session: SessionView, status: Seq<char>) -> PlanView {
        PlanView::Settled {
            session,
            status: Some(status),
            effect: SubmissionEffect::Nothing,
            feedback: None,
        }
    }

    /// The same, with a record of it once it is settled.
    pub open spec fn noted(self, feedback: FeedbackView) -> PlanView {
        match self {
            PlanView::Settled { session, status, effect, .. } => PlanView::Settled {
                session,
                status,
                effect,
                feedback: Some(feedback),
            },
            PlanView::Queue(pending) => PlanView::Queue(pending),
        }
    }
}

impl SessionView {
    /// A command carried out in the session alone; its draft is used up.
    pub open spec fn carried_out(self, done: SessionView, effect: SubmissionEffect) -> PlanView {
        PlanView::Settled {
            session: done.without_source_draft(self.active),
            status: None,
            effect,
            feedback: None,
        }
    }

    /// A control for a worker, if it can be sent at all.
    pub open spec fn control_plan(
        self,
        connection: int,
        server: Seq<char>,
        command: ConnectionCommandView,
        next: Option<ConnectionState>,
    ) -> Result<PlanView, Refusal> {
        if control_error(command) is Some {
            Err(Refusal::InvalidControl)
        } else {
            Ok(PlanView::Queue(PendingView::Control { connection, server, command, next }))
        }
    }

    /// The name under which a channel is known, or else as given.
    pub open spec fn known_channel(self, server: Seq<char>, channel: Seq<char>) -> Seq<char> {
        match self.channel_index(server, channel) {
            Some(index) => match self.buffers[index].kind {
                BufferKindView::Channel(name) => name,
                _ => channel,
            },
            None => channel,
        }
    }

    /// Joining a channel. One that is joined or being joined is only shown.
    pub open spec fn join_plan(self, connection: int, server: Seq<char>, channel: Seq<char>) -> Result<
        PlanView,
        Refusal,
    > {
        let command = ConnectionCommandView::Join(self.known_channel(server, channel));
        let queued = Ok(
            PlanView::Queue(PendingView::Join { connection, server, channel, command }),
        );
        if control_error(command) is Some {
            Err(Refusal::InvalidControl)
        } else {
            match self.channel_index(server, channel) {
                Some(index) => match self.buffers[index].channel_status.state {
                    ChannelState::Joined | ChannelState::Joining => Ok(
                        self.carried_out(
                            self.with_buffer(
                                index,
                                BufferView { hidden: false, ..self.buffers[index] },
                            ),
                            SubmissionEffect::Activate(self.buffers[index].id),
                        ),
                    ),
                    ChannelState::Parting => Err(Refusal::ChannelBusy),
                    ChannelState::NotJoined | ChannelState::Uncertain => queued,
                },
                None => queued,
            }
        }
    }

    /// Leaving a channel. One that is being left, or neither joined nor wanted,
    /// needs nothing.
    pub open spec fn part_plan(
        self,
        connection: int,
        server: Seq<char>,
        channel: Seq<char>,
        reason: Option<Seq<char>>,
    ) -> Result<PlanView, Refusal> {
        match self.channel_index(server, channel) {
            None => Err(Refusal::UnknownChannel),
            Some(index) => {
                let command = ConnectionCommandView::Part {
                    channel: self.known_channel(server, channel),
                    reason,
                };
                let status = self.buffers[index].channel_status;
                if control_error(command) is Some {
                    Err(Refusal::InvalidControl)
                } else if status.state == ChannelState::Joining {
                    Err(Refusal::ChannelBusy)
                } else if status.state == ChannelState::Parting || (status.state
                    == ChannelState::NotJoined && !status.desired) {
                    Ok(self.carried_out(self, SubmissionEffect::Nothing))
                } else {
                    Ok(PlanView::Queue(PendingView::Part { connection, server, channel, command }))
                }
            },
        }
    }

    /// The server that a command is about: the one it names, or the active one.
    pub open spec fn requested_server(self, action: CommandActionView) -> Option<Seq<char>> {
        let explicit = match action {
            CommandActionView::Connect(server) => server,
            CommandActionView::Reconnect(server) => server,
            _ => None,
        };
        match explicit {
            Some(server) => Some(server),
            None => match self.active_buffer() {
                Some(buffer) => Some(buffer.server_label),
                None => None,
            },
        }
    }

    /// The channel of the active conversation.
    pub open spec fn active_channel(self) -> Option<Seq<char>> {
        match self.active_buffer() {
            Some(buffer) => match buffer.kind {
                BufferKindView::Channel(name) => Some(name),
                _ => None,
            },
            None => None,
        }
    }

    /// A command to the worker `connection` of the server `server`.
    pub open spec fn server_plan(
        self,
        connection: int,
        server: Seq<char>,
        action: CommandActionView,
    ) -> Result<PlanView, Refusal> {
        match action {
            CommandActionView::Connect(_) => self.control_plan(
                connection,
                server,
                ConnectionCommandView::Connect,
                None,
            ),
            CommandActionView::Reconnect(_) => self.control_plan(
                connection,
                server,
                ConnectionCommandView::Reconnect,
                Some(ConnectionState::Connecting),
            ),
            CommandActionView::Disconnect(reason) => self.control_plan(
                connection,
                server,
                ConnectionCommandView::Disconnect(reason),
                Some(ConnectionState::Stopped),
            ),
            _ => if self.server_connection(server) != ConnectionState::Connected {
                Err(Refusal::NotConnected)
            } else {
                match action {
                    CommandActionView::Nick(nick) => self.control_plan(
                        connection,
                        server,
                        ConnectionCommandView::Nick(nick),
                        None,
                    ),
                    CommandActionView::Away(reason) => self.control_plan(
                        connection,
                        server,
                        ConnectionCommandView::Away(reason),
                        None,
                    ),
                    CommandActionView::Join(channel) => self.join_plan(connection, server, channel),
                    CommandActionView::Part { channel, reason } => match (
                        channel,
                        self.active_channel(),
                    ) {
                        (Some(channel), _) => self.part_plan(connection, server, channel, reason),
                        (None, Some(channel)) => self.part_plan(
                            connection,
                            server,
                            channel,
                            reason,
                        ),
                        (None, None) => Err(Refusal::NoChannel),
                    },
                    CommandActionView::Back => self.control_plan(
                        connection,
                        server,
                        ConnectionCommandView::Back,
                        None,
                    ),
                    _ => Err(Refusal::InvalidControl),
                }
            },
        }
    }

    /// Carrying out a command.
    pub open spec fn command_plan(self, names: Seq<Seq<char>>, action: CommandActionView) -> Result<
        PlanView,
        Refusal,
    > {
        match action {
            CommandActionView::Query(nickname) => match self.active_buffer() {
                None => Err(Refusal::NoServer),
                Some(buffer) => {
                    let (opened, id) = self.open_query(buffer.server_label, nickname);
                    Ok(self.carried_out(opened, SubmissionEffect::Activate(id)))
                },
            },
            CommandActionView::Close => match self.active {
                None => Err(Refusal::NoQuery),
                Some(current) => match self.close_query(current) {
                    (closed, Some(console)) => Ok(
                        self.carried_out(closed, SubmissionEffect::Activate(console)),
                    ),
                    _ => Err(Refusal::NotQuery),
                },
            },
            _ => match self.requested_server(action) {
                None => Err(Refusal::NoServer),
                Some(requested) => match first_index(names, is_named(requested)) {
                    None => Err(Refusal::UnknownServer),
                    Some(connection) => self.server_plan(connection, names[connection], action),
                },
            },
        }
    }

    /// Saying something in the active conversation.
    pub open spec fn message_plan(self, names: Seq<Seq<char>>, message: OutgoingMessageView) -> PlanView {
        let (server, target) = match message {
            OutgoingMessageView::Privmsg { server, target, .. } => (
                server,
                match self.active_buffer() {
                    Some(buffer) => buffer.kind,
                    None => BufferKindView::Channel(target),
                },
            ),
            OutgoingMessageView::Raw { server, .. } => (server, BufferKindView::Server),
        };
        let joined = match target {
            BufferKindView::Channel(channel) => self.connection_state(server, Some(channel))
                == ConnectionState::Connected,
            _ => true,
        };
        let blocked = match self.active_buffer() {
            Some(buffer) => buffer.send_blocked,
            None => false,
        };
        if blocked {
            PlanView::rejected(self, blocked_text())
        } else if self.server_connection(server) == ConnectionState::Connected && joined {
            match first_index(names, is_named(server)) {
                Some(connection) => PlanView::Queue(
                    PendingView::Message { connection, message, target },
                ),
                None => self.unsent_plan(server),
            }
        } else {
            self.unsent_plan(server)
        }
    }

    /// Something to say that no queue can be offered.
    pub open spec fn unsent_plan(self, server: Seq<char>) -> PlanView {
        PlanView::rejected(self, busy_text(server)).noted(FeedbackView::Unsent(server))
    }

    /// The plan of a slash command that may have been refused.
    pub open spec fn slash_plan(self, plan: Result<PlanView, Refusal>) -> PlanView {
        match plan {
            Ok(plan) => plan.noted(FeedbackView::Accepted),
            Err(refusal) => PlanView::refused(self).noted(FeedbackView::Rejected(refusal)),
        }
    }

    /// The plan of a console line that joins or parts, which may have been refused.
    pub open spec fn channel_plan(self, plan: Result<PlanView, Refusal>) -> PlanView {
        match plan {
            Ok(plan) => plan,
            Err(refusal) => PlanView::refused(self).noted(FeedbackView::ChannelRejected(refusal)),
        }
    }

    /// Submitting a console line or something to say.
    pub open spec fn outgoing_plan(self, names: Seq<Seq<char>>, message: OutgoingMessageView) -> PlanView {
        if text::breaks_line(self.draft().text) {
            PlanView::rejected(self, failed_text(SendError::InvalidCharacters))
        } else {
            match encoded(message) {
                Err(error) => PlanView::rejected(self, failed_text(error)),
                Ok(_) => match message {
                    OutgoingMessageView::Raw { line, .. } => match controlled_raw(line) {
                        Err(error) => PlanView::rejected(self, failed_text(error)),
                        Ok(Some(ConnectionCommandView::Join(channel))) => self.channel_plan(
                            self.command_plan(names, CommandActionView::Join(channel)),
                        ),
                        Ok(Some(ConnectionCommandView::Part { channel, reason })) => self.channel_plan(
                            self.command_plan(
                                names,
                                CommandActionView::Part { channel: Some(channel), reason },
                            ),
                        ),
                        Ok(Some(_)) => PlanView::refused(self),
                        Ok(None) => self.message_plan(names, message),
                    },
                    _ => self.message_plan(names, message),
                },
            }
        }
    }

    /// Submitting what the composer holds.
    pub open spec fn plan(self, names: Seq<Seq<char>>) -> PlanView {
        let input = self.draft().text;
        match self.prepare_input() {
            None => if self.active_buffer() is Some && text::trim(input).len() == 0 {
                if text::breaks_line(input) {
                    PlanView::rejected(self, failed_text(SendError::InvalidCharacters))
                } else {
                    PlanView::refused(self.with_draft(DraftView::empty()))
                }
            } else {
                PlanView::refused(self)
            },
            Some(InputSubmissionView::InvalidSlash(_)) => PlanView::refused(self).noted(
                FeedbackView::Unparsed(Refusal::MissingName),
            ),
            Some(InputSubmissionView::Slash(command)) => self.slash_plan(
                if text::breaks_line(input) {
                    Err(Refusal::InvalidCharacters)
                } else {
                    match requested_action(command) {
                        Err(error) => Err(action_refusal(error)),
                        Ok(action) => self.command_plan(names, action),
                    }
                },
            ),
            Some(InputSubmissionView::Outgoing(message)) => self.outgoing_plan(names, message),
        }
    }

    /// Our name on a server: confirmed, or configured, or the server's own.
    pub open spec fn echo_nickname(
        self,
        servers: Seq<(Seq<char>, ServerConfigView)>,
        server: Seq<char>,
    ) -> Seq<char> {
        match self.nickname(server) {
            Some(nickname) => nickname,
            None => match first_index(servers, is_configured(server)) {
                Some(index) => servers[index].1.nickname,
                None => server,
            },
        }
    }

    /// The local echo of something said.
    pub open spec fn local_echo(
        self,
        servers: Seq<(Seq<char>, ServerConfigView)>,
        message: OutgoingMessageView,
        target: BufferKindView,
        at: SystemTime,
    ) -> RoutedMessageView {
        let (server, text) = match message {
            OutgoingMessageView::Privmsg { server, text, .. } => (server, text),
            OutgoingMessageView::Raw { server, line } => (server, line),
        };
        RoutedMessageView {
            server: text::lower(server),
            target,
            content: MessageContentView {
                kind: if target is Server {
                    MessageKindView::Console
                } else {
                    MessageKindView::Chat
                },
                direction: Direction::Outgoing,
                delivery: DeliveryState::Unconfirmed,
                ..MessageContentView::chat(self.echo_nickname(servers, server), text, at)
            },
        }
    }

    /// A channel whose join was queued.
    pub open spec fn joining(self, server: Seq<char>, channel: Seq<char>) -> (
        SessionView,
        SubmissionEffect,
    ) {
        let (opened, id) = self.open_channel(server, channel);
        (
            match opened.index_of(id) {
                Some(index) => opened.with_buffer(
                    index,
                    BufferView {
                        channel_status: ChannelStatus {
                            state: ChannelState::Joining,
                            desired: true,
                        },
                        pending_channel_changes: opened.buffers[index].pending_channel_changes + 1,
                        hidden: false,
                        ..opened.buffers[index]
                    },
                ),
                None => opened,
            },
            SubmissionEffect::Activate(id),
        )
    }

    /// A channel whose part was queued.
    pub open spec fn parting(self, server: Seq<char>, channel: Seq<char>) -> SessionView {
        match self.channel_index(server, channel) {
            Some(index) => {
                let buffer = self.buffers[index];
                let state = buffer.channel_status.state;
                self.with_buffer(
                    index,
                    BufferView {
                        channel_status: ChannelStatus {
                            state: if state == ChannelState::NotJoined {
                                ChannelState::NotJoined
                            } else {
                                ChannelState::Parting
                            },
                            desired: false,
                        },
                        pending_channel_changes: buffer.pending_channel_changes + 1,
                        ..buffer
                    },
                )
            },
            None => self,
        }
    }

    /// What the log records of a command that was offered to a queue. A console
    /// line that joins or parts is recorded only where it fails.
    pub open spec fn queue_feedback(self, queued: bool) -> Option<FeedbackView> {
        if parsed_slash(self.draft().text) is Some {
            Some(
                if queued {
                    FeedbackView::Accepted
                } else {
                    FeedbackView::Rejected(Refusal::DisconnectedOrBusy)
                },
            )
        } else if queued {
            None
        } else {
            Some(FeedbackView::ChannelRejected(Refusal::DisconnectedOrBusy))
        }
    }

    /// After the queue's answer: the session, the news for the status, what the
    /// frontend does, and what the log records.
    pub open spec fn complete(
        self,
        servers: Seq<(Seq<char>, ServerConfigView)>,
        pending: PendingView,
        queued: bool,
        at: SystemTime,
    ) -> (SessionView, Option<Seq<char>>, SubmissionEffect, Option<FeedbackView>) {
        match pending {
            PendingView::Message { message, target, .. } => if queued {
                (
                    self.push(self.local_echo(servers, message, target, at)).0.with_draft(
                        DraftView::empty(),
                    ),
                    None,
                    SubmissionEffect::Nothing,
                    None,
                )
            } else {
                let server = match message {
                    OutgoingMessageView::Privmsg { server, .. } => server,
                    OutgoingMessageView::Raw { server, .. } => server,
                };
                (
                    self,
                    Some(busy_text(server)),
                    SubmissionEffect::Nothing,
                    Some(FeedbackView::Unsent(server)),
                )
            },
            _ if !queued => (self, None, SubmissionEffect::Nothing, self.queue_feedback(false)),
            PendingView::Control { server, next, .. } => (
                (match next {
                    Some(state) => self.begin_change(server, state),
                    None => self,
                }).without_source_draft(self.active),
                None,
                SubmissionEffect::Nothing,
                self.queue_feedback(true),
            ),
            PendingView::Join { server, channel, .. } => {
                let (joining, effect) = self.joining(server, channel);
                (
                    joining.without_source_draft(self.active),
                    None,
                    effect,
                    self.queue_feedback(true),
                )
            },
            PendingView::Part { server, channel, .. } => (
                self.parting(server, channel).without_source_draft(self.active),
                None,
                SubmissionEffect::Nothing,
                self.queue_feedback(true),
            ),
        }
    }

    /// A whole submission, for the queue's answer `queued` at `at`.
    pub open spec fn submit(
        self,
        servers: Seq<(Seq<char>, ServerConfigView)>,
        names: Seq<Seq<char>>,
        queued: bool,
        at: SystemTime,
    ) -> (SessionView, Option<Seq<char>>, SubmissionEffect, Option<FeedbackView>) {
        match self.plan(names) {
            PlanView::Settled { session, status, effect, feedback } => (
                session,
                status,
                effect,
                feedback,
            ),
            PlanView::Queue(pending) => self.complete(servers, pending, queued, at),
        }
    }
}

/// Configured servers with this key but for ASCII case.
pub open spec fn is_configured(name: Seq<char>) -> spec_fn((Seq<char>, ServerConfigView)) -> bool {
    |entry: (Seq<char>, ServerConfigView)| text::same_name(entry.0, name)
}

/// A plan, as it stands with the session before and after planning.
pub open spec fn plan_is(
    plan: Plan,
    expected: PlanView,
    before: SessionView,
    after: SessionView,
) -> bool {
    match (plan, expected) {
        (Plan::Settled(submitted), PlanView::Settled { session, effect, feedback, .. }) => {
            submitted.effect == effect && submitted.feedback.deep_view() == feedback && after
                == session
        },
        (Plan::Queue(pending), PlanView::Queue(expected_pending)) => {
            pending@ == expected_pending && after == before
        },
        _ => false,
    }
}

/// A command's plan or refusal, as it stands with the session before and after.
pub open spec fn command_is(
    result: Result<Plan, Refusal>,
    expected: Result<PlanView, Refusal>,
    before: SessionView,
    after: SessionView,
) -> bool {
    match (result, expected) {
        (Ok(plan), Ok(expected_plan)) => plan_is(plan, expected_plan, before, after),
        (Err(refusal), Err(expected_refusal)) => refusal == expected_refusal && after == before,
        _ => false,
    }
}

/// A plan that is settled, with nothing to record yet.
fn settled(effect: SubmissionEffect) -> (plan: Plan)
    ensures
        plan == Plan::Settled(Submitted { effect, feedback: None }),
{
    Plan::Settled(Submitted { effect, feedback: None })
}

/// A plan that changes nothing, with a record of it.
fn refused(feedback: Feedback) -> (plan: Plan)
    ensures
        plan == Plan::Settled(
            Submitted { effect: SubmissionEffect::Nothing, feedback: Some(feedback) },
        ),
{
    Plan::Settled(Submitted { effect: SubmissionEffect::Nothing, feedback: Some(feedback) })
}

fn find_connection(connections: &Connections, name: &str) -> (found: Option<usize>)
    ensures
        index_view(found) == first_index(connection_names(*connections), is_named(name@)),
        found is Some ==> found->0 < connections@.len(),
{
    let ghost names = connection_names(*connections);
    let mut i: usize = 0;
    while i < connections.len()
        invariant
            i <= connections.len(),
            names == connection_names(*connections),
            forall|j: int| 0 <= j < i ==> !is_named(name@)(#[trigger] names[j]),
        decreases connections.len() - i,
    {
        assert(names[i as int] == connections@[i as int].0@);
        if text::names_match(connections[i].0.as_str(), name) {
            proof {
                lemma_is_first_index(names, is_named(name@), i as int);
            }
            return Some(i);
        }
        i = i + 1;
    }
    proof {
        lemma_no_first_index(names, is_named(name@));
    }
    None
}

fn plan_control(
    connection: usize,
    server: &str,
    command: ConnectionCommand,
    next: Option<ConnectionState>,
    Ghost(session): Ghost<SessionView>,
) -> (result: Result<Plan, Refusal>)
    ensures
        command_is(
            result,
            session.control_plan(connection as int, server@, command@, next),
            session,
            session,
        ),
{
    if validate_control(&command).is_err() {
        return Err(Refusal::InvalidControl);
    }
    Ok(Plan::Queue(Pending::Control { connection, server: server.to_owned(), command, next }))
}

impl Session {
    fn active_channel(&self) -> (channel: Option<String>)
        ensures
            channel.deep_view() == self@.active_channel(),
    {
        match self.active_buffer() {
            Some(buffer) => match &buffer.kind {
                BufferKind::Channel(name) => Some(name.clone()),
                _ => None,
            },
            None => None,
        }
    }

    fn channel_name_at(&self, index: usize, channel: &str) -> (name: String)
        requires
            index < self@.buffers.len(),
        ensures
            name@ == (match self@.buffers[index as int].kind {
                BufferKindView::Channel(name) => name,
                _ => channel@,
            }),
    {
        assert(self@.buffers[index as int] == self.buffers@[index as int]@);
        match &self.buffers[index].kind {
            BufferKind::Channel(name) => name.clone(),
            _ => channel.to_owned(),
        }
    }

    fn join_channel(&mut self, connection: usize, server: &str, channel: &str) -> (result: Result<
        Plan,
        Refusal,
    >)
        requires
            old(self).wf(),
        ensures
            final(self).wf(),
            command_is(
                result,
                old(self)@.join_plan(connection as int, server@, channel@),
                old(self)@,
                final(self)@,
            ),
    {
        let ghost before = self@;
        let index = self.channel_index(server, channel);
        let name = match index {
            Some(index) => self.channel_name_at(index, channel),
            None => channel.to_owned(),
        };
        let command = ConnectionCommand::Join(name);
        if validate_control(&command).is_err() {
            return Err(Refusal::InvalidControl);
        }
        match index {
            Some(index) => {
                assert(before.buffers[index as int] == self.buffers@[index as int]@);
                match self.buffers[index].channel_status.state {
                    ChannelState::Joined | ChannelState::Joining => {
                        let id = self.buffers[index].id;
                        let source = self.active();
                        self.buffers[index].hidden = false;
                        proof {
                            let buffer = BufferView {
                                hidden: false,
                                ..before.buffers[index as int]
                            };
                            assert(self@.buffers =~= before.buffers.update(index as int, buffer));
                            lemma_with_buffer_wf(before, index as int, buffer);
                        }
                        self.clear_source_draft(source);
                        return Ok(settled(SubmissionEffect::Activate(id)));
                    },
                    ChannelState::Parting => {
                        return Err(Refusal::ChannelBusy);
                    },
                    ChannelState::NotJoined | ChannelState::Uncertain => {},
                }
            },
            None => {},
        }
        Ok(
            Plan::Queue(
                Pending::Join {
                    connection,
                    server: server.to_owned(),
                    channel: channel.to_owned(),
                    command,
                },
            ),
        )
    }

    fn part_channel(
        &mut self,
        connection: usize,
        server: &str,
        channel: &str,
        reason: Option<String>,
    ) -> (result: Result<Plan, Refusal>)
        requires
            old(self).wf(),
        ensures
            final(self).wf(),
            command_is(
                result,
                old(self)@.part_plan(connection as int, server@, channel@, reason.deep_view()),
                old(self)@,
                final(self)@,
            ),
    {
        let index: usize = match self.channel_index(server, channel) {
            Some(index) => index,
            None => return Err(Refusal::UnknownChannel),
        };
        assert(self@.buffers[index as int] == self.buffers@[index as int]@);
        let command = ConnectionCommand::Part {
            channel: self.channel_name_at(index, channel),
            reason,
        };
        if validate_control(&command).is_err() {
            return Err(Refusal::InvalidControl);
        }
        let status = self.buffers[index].channel_status;
        match status.state {
            ChannelState::Joining => {
                return Err(Refusal::ChannelBusy);
            },
            ChannelState::Parting => {
                let source = self.active();
                self.clear_source_draft(source);
                return Ok(settled(SubmissionEffect::Nothing));
            },
            ChannelState::NotJoined => {
                if !status.desired {
                    let source = self.active();
                    self.clear_source_draft(source);
                    return Ok(settled(SubmissionEffect::Nothing));
                }
            },
            ChannelState::Joined | ChannelState::Uncertain => {},
        }
        Ok(
            Plan::Queue(
                Pending::Part {
                    connection,
                    server: server.to_owned(),
                    channel: channel.to_owned(),
                    command,
                },
            ),
        )
    }

    fn plan_server(&mut self, connection: usize, server: &str, action: CommandAction) -> (result:
        Result<Plan, Refusal>)
        requires
            old(self).wf(),
        ensures
            final(self).wf(),
            command_is(
                result,
                old(self)@.server_plan(connection as int, server@, action@),
                old(self)@,
                final(self)@,
            ),
    {
        let ghost before = self@;
        match action {
            CommandAction::Connect(_) => {
                return plan_control(
                    connection,
                    server,
                    ConnectionCommand::Connect,
                    None,
                    Ghost(before),
                );
            },
            CommandAction::Reconnect(_) => {
                return plan_control(
                    connection,
                    server,
                    ConnectionCommand::Reconnect,
                    Some(ConnectionState::Connecting),
                    Ghost(before),
                );
            },
            CommandAction::Disconnect(reason) => {
                return plan_control(
                    connection,
                    server,
                    ConnectionCommand::Disconnect(reason),
                    Some(ConnectionState::Stopped),
                    Ghost(before),
                );
            },
            _ => {},
        }
        if self.connection_state(server, None) != ConnectionState::Connected {
            return Err(Refusal::NotConnected);
        }
        match action {
            CommandAction::Nick(nick) => plan_control(
                connection,
                server,
                ConnectionCommand::Nick(nick),
                None,
                Ghost(before),
            ),
            CommandAction::Away(reason) => plan_control(
                connection,
                server,
                ConnectionCommand::Away(reason),
                None,
                Ghost(before),
            ),
            CommandAction::Back => plan_control(
                connection,
                server,
                ConnectionCommand::Back,
                None,
                Ghost(before),
            ),
            CommandAction::Join(channel) => self.join_channel(connection, server, channel.as_str()),
            CommandAction::Part { channel, reason } => {
                let channel = match channel {
                    Some(channel) => Some(channel),
                    None => self.active_channel(),
                };
                match channel {
                    Some(channel) => self.part_channel(
                        connection,
                        server,
                        channel.as_str(),
                        reason,
                    ),
                    None => Err(Refusal::NoChannel),
                }
            },
            _ => Err(Refusal::InvalidControl),
        }
    }

    fn requested_server(&self, action: &CommandAction) -> (server: Option<String>)
        ensures
            server.deep_view() == self@.requested_server(action@),
    {
        let explicit = match action {
            CommandAction::Connect(server) => text::copied(server),
            CommandAction::Reconnect(server) => text::copied(server),
            _ => None,
        };
        match explicit {
            Some(server) => Some(server),
            None => match self.active_buffer() {
                Some(buffer) => Some(buffer.server_label.clone()),
                None => None,
            },
        }
    }
}

/// Plan a command. What needs no queue is carried out at once.
pub fn execute_command(session: &mut Session, connections: &Connections, action: CommandAction) -> (
    result: Result<Plan, Refusal>)
    requires
        old(session).wf(),
        old(session)@.has_room(),
    ensures
        final(session).wf(),
        command_is(
            result,
            old(session)@.command_plan(connection_names(*connections), action@),
            old(session)@,
            final(session)@,
        ),
{
    let source = session.active();
    match &action {
        CommandAction::Query(nickname) => {
            let server = match session.active_buffer() {
                Some(buffer) => buffer.server_label.clone(),
                None => return Err(Refusal::NoServer),
            };
            let id = session.open_query(server.as_str(), nickname.as_str());
            session.clear_source_draft(source);
            return Ok(settled(SubmissionEffect::Activate(id)));
        },
        CommandAction::Close => {
            let current = match source {
                Some(current) => current,
                None => return Err(Refusal::NoQuery),
            };
            return match session.close_query(current) {
                Some(console) => {
                    session.clear_source_draft(source);
                    Ok(settled(SubmissionEffect::Activate(console)))
                },
                None => Err(Refusal::NotQuery),
            };
        },
        _ => {},
    }
    let requested = match session.requested_server(&action) {
        Some(requested) => requested,
        None => return Err(Refusal::NoServer),
    };
    match find_connection(connections, requested.as_str()) {
        Some(connection) => {
            assert(connection_names(*connections)[connection as int] == connections@[connection as int].0@);
            session.plan_server(connection, connections[connection].0.as_str(), action)
        },
        None => Err(Refusal::UnknownServer),
    }
}

fn failure(error: SendError) -> (status: String)
    ensures
        status@ == failed_text(error),
{
    let mut status = "failed to send (".to_owned();
    status.append(error.message());
    status.append(")");
    status
}

fn busy(server: &str) -> (status: String)
    ensures
        status@ == busy_text(server@),
{
    let mut status = "failed to send (".to_owned();
    status.append(server);
    status.append(" disconnected or busy)");
    status
}

/// A plan of a submission, as it stands with session and status before and after.
pub open spec fn submission_is(
    plan: Plan,
    expected: PlanView,
    before: SessionView,
    after: SessionView,
    status_before: Seq<char>,
    status_after: Seq<char>,
) -> bool {
    &&& plan_is(plan, expected, before, after)
    &&& status_after == (match expected {
        PlanView::Settled { status, .. } => told(status_before, status),
        PlanView::Queue(_) => status_before,
    })
}

/// The plan of a slash command that may have been refused.
fn slash_plan(result: Result<Plan, Refusal>) -> (plan: Plan)
    ensures
        match result {
            Ok(Plan::Settled(submitted)) => plan == Plan::Settled(
                Submitted { effect: submitted.effect, feedback: Some(Feedback::Accepted) },
            ),
            Ok(queued) => plan == queued,
            Err(refusal) => plan == Plan::Settled(
                Submitted {
                    effect: SubmissionEffect::Nothing,
                    feedback: Some(Feedback::Rejected(refusal)),
                },
            ),
        },
{
    match result {
        Ok(Plan::Settled(submitted)) => Plan::Settled(
            Submitted { effect: submitted.effect, feedback: Some(Feedback::Accepted) },
        ),
        Ok(queued) => queued,
        Err(refusal) => refused(Feedback::Rejected(refusal)),
    }
}

/// The plan of a console line that joins or parts, which may have been refused.
fn channel_plan(result: Result<Plan, Refusal>) -> (plan: Plan)
    ensures
        match result {
            Ok(planned) => plan == planned,
            Err(refusal) => plan == Plan::Settled(
                Submitted {
                    effect: SubmissionEffect::Nothing,
                    feedback: Some(Feedback::ChannelRejected(refusal)),
                },
            ),
        },
{
    match result {
        Ok(planned) => planned,
        Err(refusal) => refused(Feedback::ChannelRejected(refusal)),
    }
}

fn plan_message(
    session: &Session,
    connections: &Connections,
    message: OutgoingMessage,
    status: &mut String,
) -> (plan: Plan)
    requires
        session.wf(),
    ensures
        submission_is(
            plan,
            session@.message_plan(connection_names(*connections), message@),
            session@,
            session@,
            old(status)@,
            final(status)@,
        ),
{
    let (server, target) = match &message {
        OutgoingMessage::Privmsg { server, target, .. } => (
            server.clone(),
            match session.active_buffer() {
                Some(buffer) => buffer.kind.clone(),
                None => BufferKind::Channel(target.clone()),
            },
        ),
        OutgoingMessage::Raw { server, .. } => (server.clone(), BufferKind::Server),
    };
    let blocked = match session.active_buffer() {
        Some(buffer) => buffer.send_blocked,
        None => false,
    };
    if blocked {
        *status = "query target changed; use /query to select a nickname".to_owned();
        return settled(SubmissionEffect::Nothing);
    }
    let joined = match &target {
        BufferKind::Channel(channel) => session.connection_state(
            server.as_str(),
            Some(channel.as_str()),
        ) == ConnectionState::Connected,
        _ => true,
    };
    if session.connection_state(server.as_str(), None) == ConnectionState::Connected && joined {
        match find_connection(connections, server.as_str()) {
            Some(connection) => {
                return Plan::Queue(Pending::Message { connection, message, target });
            },
            None => {},
        }
    }
    *status = busy(server.as_str());
    refused(Feedback::Unsent(server))
}

fn plan_outgoing(
    session: &mut Session,
    connections: &Connections,
    message: OutgoingMessage,
    status: &mut String,
) -> (plan: Plan)
    requires
        old(session).wf(),
        old(session)@.has_room(),
    ensures
        final(session).wf(),
        submission_is(
            plan,
            old(session)@.outgoing_plan(connection_names(*connections), message@),
            old(session)@,
            final(session)@,
            old(status)@,
            final(status)@,
        ),
{
    if text::has_line_break(session.input()) {
        *status = failure(SendError::InvalidCharacters);
        return settled(SubmissionEffect::Nothing);
    }
    match encode_outgoing(&message) {
        Err(error) => {
            *status = failure(error);
            return settled(SubmissionEffect::Nothing);
        },
        Ok(_) => {},
    }
    match &message {
        OutgoingMessage::Raw { line, .. } => match channel_control_from_raw(line.as_str()) {
            Err(error) => {
                *status = failure(error);
                return settled(SubmissionEffect::Nothing);
            },
            Ok(Some(ConnectionCommand::Join(channel))) => {
                return channel_plan(
                    execute_command(session, connections, CommandAction::Join(channel)),
                );
            },
            Ok(Some(ConnectionCommand::Part { channel, reason })) => {
                return channel_plan(
                    execute_command(
                        session,
                        connections,
                        CommandAction::Part { channel: Some(channel), reason },
                    ),
                );
            },
            Ok(Some(_)) => {
                return settled(SubmissionEffect::Nothing);
            },
            Ok(None) => {},
        },
        _ => {},
    }
    plan_message(session, connections, message, status)
}

/// Decide what submitting the composer does. What needs no queue is done at
/// once; what is rejected leaves the draft as it is.
pub fn plan_submission(session: &mut Session, connections: &Connections, status: &mut String) -> (
    plan: Plan)
    requires
        old(session).wf(),
        old(session)@.has_room(),
    ensures
        final(session).wf(),
        submission_is(
            plan,
            old(session)@.plan(connection_names(*connections)),
            old(session)@,
            final(session)@,
            old(status)@,
            final(status)@,
        ),
{
    let invalid = text::has_line_break(session.input());
    let submission = match session.prepare_input() {
        Some(submission) => submission,
        None => {
            let blank = text::trimmed(session.input()).is_empty();
            if session.active_buffer().is_some() && blank {
                if invalid {
                    *status = failure(SendError::InvalidCharacters);
                } else {
                    session.clear_input();
                }
            }
            return settled(SubmissionEffect::Nothing);
        },
    };
    match submission {
        InputSubmission::InvalidSlash(_) => refused(Feedback::Unparsed(Refusal::MissingName)),
        InputSubmission::Slash(command) => slash_plan(
            if invalid {
                Err(Refusal::InvalidCharacters)
            } else {
                match command.action() {
                    Ok(action) => execute_command(session, connections, action),
                    Err(CommandError::Unsupported) => Err(Refusal::Unsupported),
                    Err(CommandError::InvalidArguments) => Err(Refusal::InvalidArguments),
                }
            },
        ),
        InputSubmission::Outgoing(message) => plan_outgoing(session, connections, message, status),
    }
}

fn configured_nickname(config: &Config, server: &str) -> (nickname: Option<String>)
    ensures
        nickname.deep_view() == (match first_index(config@, is_configured(server@)) {
            Some(index) => Some(config@[index].1.nickname),
            None => None,
        }),
{
    let ghost servers = config@;
    let count: usize = config::entry_count(&config.servers);
    let mut i: usize = 0;
    while i < count
        invariant
            i <= count == servers.len(),
            servers == config@,
            forall|j: int| 0 <= j < i ==> !is_configured(server@)(#[trigger] servers[j]),
        decreases count - i,
    {
        match config::entry_at(&config.servers, i) {
            Some((name, settings)) => {
                assert(servers[i as int] == (name@, settings@));
                if text::names_match(name.as_str(), server) {
                    proof {
                        lemma_is_first_index(servers, is_configured(server@), i as int);
                    }
                    return Some(settings.nickname.clone());
                }
            },
            None => {},
        }
        i = i + 1;
    }
    proof {
        lemma_no_first_index(servers, is_configured(server@));
    }
    None
}

fn local_echo(
    session: &Session,
    config: &Config,
    message: &OutgoingMessage,
    target: BufferKind,
    at: SystemTime,
) -> (echo: RoutedMessage)
    requires
        session.wf(),
    ensures
        echo@ == session@.local_echo(config@, message@, target@, at),
{
    let (server, text) = match message {
        OutgoingMessage::Privmsg { server, text, .. } => (server, text),
        OutgoingMessage::Raw { server, line } => (server, line),
    };
    let nickname = match session.nickname(server.as_str()) {
        Some(nickname) => nickname.to_owned(),
        None => match configured_nickname(config, server.as_str()) {
            Some(nickname) => nickname,
            None => server.clone(),
        },
    };
    let kind = match &target {
        BufferKind::Server => MessageKind::Console,
        _ => MessageKind::Chat,
    };
    let echo = RoutedMessage {
        server: ServerId::new(server.as_str()),
        target,
        content: MessageContent {
            nick: nickname,
            text: text.clone(),
            kind,
            direction: Direction::Outgoing,
            received_at: at,
            tags: Vec::new(),
            delivery: DeliveryState::Unconfirmed,
        },
    };
    assert(echo@.content.tags =~= Seq::empty());
    echo
}

impl Session {
    fn begin_joining(&mut self, server: &str, channel: &str) -> (effect: SubmissionEffect)
        requires
            old(self).wf(),
            old(self)@.has_room(),
        ensures
            final(self).wf(),
            (final(self)@, effect) == old(self)@.joining(server@, channel@),
    {
        let id = self.open_channel(server, channel);
        let ghost opened = self@;
        match self.find_id(id) {
            Some(index) => {
                assert(opened.buffers[index as int] == self.buffers@[index as int]@);
                let pending: usize = self.buffers[index].pending_channel_changes;
                self.buffers[index].channel_status = ChannelStatus {
                    state: ChannelState::Joining,
                    desired: true,
                };
                self.buffers[index].pending_channel_changes = pending + 1;
                self.buffers[index].hidden = false;
                proof {
                    let buffer = BufferView {
                        channel_status: ChannelStatus {
                            state: ChannelState::Joining,
                            desired: true,
                        },
                        pending_channel_changes: (pending + 1) as nat,
                        hidden: false,
                        ..opened.buffers[index as int]
                    };
                    assert(self@.buffers =~= opened.buffers.update(index as int, buffer));
                    lemma_with_buffer_wf(opened, index as int, buffer);
                }
            },
            None => {},
        }
        SubmissionEffect::Activate(id)
    }

    fn begin_parting(&mut self, server: &str, channel: &str)
        requires
            old(self).wf(),
            old(self)@.has_room(),
        ensures
            final(self).wf(),
            final(self)@ == old(self)@.parting(server@, channel@),
    {
        let ghost before = self@;
        match self.channel_index(server, channel) {
            Some(index) => {
                assert(before.buffers[index as int] == self.buffers@[index as int]@);
                let pending: usize = self.buffers[index].pending_channel_changes;
                let state = if self.buffers[index].channel_status.state
                    == ChannelState::NotJoined {
                    ChannelState::NotJoined
                } else {
                    ChannelState::Parting
                };
                self.buffers[index].channel_status = ChannelStatus { state, desired: false };
                self.buffers[index].pending_channel_changes = pending + 1;
                proof {
                    let buffer = BufferView {
                        channel_status: ChannelStatus { state, desired: false },
                        pending_channel_changes: (pending + 1) as nat,
                        ..before.buffers[index as int]
                    };
                    assert(self@.buffers =~= before.buffers.update(index as int, buffer));
                    lemma_with_buffer_wf(before, index as int, buffer);
                }
            },
            None => {},
        }
    }
}

/// What the log records of a command that was offered to a queue.
fn queue_feedback(session: &Session, queued: bool) -> (feedback: Option<Feedback>)
    ensures
        feedback.deep_view() == session@.queue_feedback(queued),
{
    if parse_slash_command(session.input()).is_some() {
        if queued {
            Some(Feedback::Accepted)
        } else {
            Some(Feedback::Rejected(Refusal::DisconnectedOrBusy))
        }
    } else if queued {
        None
    } else {
        Some(Feedback::ChannelRejected(Refusal::DisconnectedOrBusy))
    }
}

/// Take the queue's answer: commit what was queued, with the local echo and the
/// draft used up, or leave text and cursor untouched.
pub fn finish_submission(
    session: &mut Session,
    config: &Config,
    pending: Pending,
    queued: bool,
    at: SystemTime,
    status: &mut String,
) -> (submitted: Submitted)
    requires
        old(session).wf(),
        old(session)@.has_room(),
    ensures
        final(session).wf(),
        ({
            let (after, news, effect, feedback) = old(session)@.complete(
                config@,
                pending@,
                queued,
                at,
            );
            final(session)@ == after && final(status)@ == told(old(status)@, news)
                && submitted.effect == effect && submitted.feedback.deep_view() == feedback
        }),
{
    let source = session.active();
    let feedback = queue_feedback(session, queued);
    let mut effect = SubmissionEffect::Nothing;
    match pending {
        Pending::Message { message, target, .. } => {
            if queued {
                let echo = local_echo(session, config, &message, target, at);
                let _ = session.push_message(echo);
                session.clear_input();
                return Submitted { effect, feedback: None };
            }
            let server = match message {
                OutgoingMessage::Privmsg { server, .. } => server,
                OutgoingMessage::Raw { server, .. } => server,
            };
            *status = busy(server.as_str());
            return Submitted { effect, feedback: Some(Feedback::Unsent(server)) };
        },
        Pending::Control { server, next, .. } => {
            if queued {
                match next {
                    Some(state) => {
                        session.begin_connection_change(server.as_str(), state);
                    },
                    None => {},
                }
                session.clear_source_draft(source);
            }
        },
        Pending::Join { server, channel, .. } => {
            if queued {
                effect = session.begin_joining(server.as_str(), channel.as_str());
                session.clear_source_draft(source);
            }
        },
        Pending::Part { server, channel, .. } => {
            if queued {
                session.begin_parting(server.as_str(), channel.as_str());
                session.clear_source_draft(source);
            }
        },
    }
    Submitted { effect, feedback }
}

/// The worker that something pending is for, if there is such a worker, and what
/// is put into its queue.
fn destination<'a>(connections: &'a Connections, pending: &Pending) -> (found: (
    Option<&'a ConnectionHandle>,
    QueueItem,
))
    ensures
        found.1@ == pending@.item(),
        match found.0 {
            Some(handle) => {
                &&& pending@.connection() < connections@.len()
                &&& *handle == connections@[pending@.connection()].1
            },
            None => pending@.connection() >= connections@.len(),
        },
{
    let (connection, item): (usize, QueueItem) = match pending {
        Pending::Message { connection, message, .. } => (
            *connection,
            QueueItem::Message(message.clone()),
        ),
        Pending::Control { connection, command, .. } => (
            *connection,
            QueueItem::Control(command.clone()),
        ),
        Pending::Join { connection, command, .. } => (
            *connection,
            QueueItem::Control(command.clone()),
        ),
        Pending::Part { connection, command, .. } => (
            *connection,
            QueueItem::Control(command.clone()),
        ),
    };
    if connection < connections.len() {
        (Some(&connections[connection].1), item)
    } else {
        (None, item)
    }
}

/// Offer an item to the queue that a worker has for it. Whether the queue takes it
/// is up to the worker; what it does not take comes back.
fn offer(handle: &ConnectionHandle, item: QueueItem) -> (outcome: Result<(), QueueItem>)
    ensures
        outcome matches Err(back) ==> back@ == item@,
{
    match item {
        QueueItem::Message(message) => match try_queue(&handle.outgoing, message) {
            Ok(()) => Ok(()),
            Err(back) => Err(QueueItem::Message(back)),
        },
        QueueItem::Control(command) => match try_queue(&handle.control, command) {
            Ok(()) => Ok(()),
            Err(back) => Err(QueueItem::Control(back)),
        },
    }
}

/// Offer what is pending to its worker. Without such a worker it comes back.
fn queue_pending(connections: &Connections, pending: &Pending) -> (outcome: Result<(), QueueItem>)
    ensures
        match outcome {
            Ok(()) => pending@.connection() < connections@.len(),
            Err(back) => back@ == pending@.item(),
        },
{
    let (handle, item) = destination(connections, pending);
    match handle {
        Some(handle) => offer(handle, item),
        None => Err(item),
    }
}

/// Validate, queue, then commit the draft and local echo. Any failure leaves
/// both text and cursor untouched. What is to be recorded comes back with the
/// effect.
pub fn submit(
    session: &mut Session,
    config: &Config,
    connections: &Connections,
    status: &mut String,
) -> (submitted: Submitted)
    requires
        old(session).wf(),
        old(session)@.has_room(),
    ensures
        final(session).wf(),
        final(session)@.active == old(session)@.active,
        exists|queued: bool, at: SystemTime|
            {
                let (after, news, effect, feedback) = #[trigger] old(session)@.submit(
                    config@,
                    connection_names(*connections),
                    queued,
                    at,
                );
                final(session)@ == after && final(status)@ == told(old(status)@, news)
                    && submitted.effect == effect && submitted.feedback.deep_view() == feedback
            },
{
    let ghost before = session@;
    let ghost names = connection_names(*connections);
    match plan_submission(session, connections, status) {
        Plan::Settled(submitted) => {
            proof {
                let at: SystemTime = arbitrary();
                law_submitting_keeps_the_active_conversation(before, config@, names, false, at);
            }
            submitted
        },
        Plan::Queue(pending) => {
            let queued = queue_pending(connections, &pending).is_ok();
            let at = model::clock();
            let submitted = finish_submission(session, config, pending, queued, at, status);
            proof {
                law_submitting_keeps_the_active_conversation(before, config@, names, queued, at);
            }
            submitted
        },
    }
}

/// Validate, queue, then commit the draft and local echo. Any failure leaves
/// both text and cursor untouched.
pub fn submit_composer(
    session: &mut Session,
    config: &Config,
    connections: &Connections,
    status: &mut String,
) -> (effect: SubmissionEffect)
    requires
        old(session).wf(),
        old(session)@.has_room(),
    ensures
        final(session).wf(),
        final(session)@.active == old(session)@.active,
        exists|queued: bool, at: SystemTime|
            {
                let (after, news, expected, _) = #[trigger] old(session)@.submit(
                    config@,
                    connection_names(*connections),
                    queued,
                    at,
                );
                final(session)@ == after && final(status)@ == told(old(status)@, news) && effect
                    == expected
            },
{
    submit(session, config, connections, status).effect
}

} // verus!
