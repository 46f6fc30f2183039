//! One server's connection: attempts, bounded retries and confirmed state.
//!
//! The program around it owns the socket, the queues and the clock. It hands
//! every control, message and deadline to the worker, and does what it is told.

use std::time::SystemTime;

use vstd::prelude::*;

use crate::config::{ServerConfig, ServerConfigView};
use crate::connection::channels::{ChannelView, Channels, ChannelsView};
use crate::connection::{
    build_client_config, client_config, ClientConfig, ConnectionState, IrcEvent, IrcEventView,
    RetryPolicy,
};
use crate::model::{
    ConnectionCommand, ConnectionCommandView, OutgoingMessage, OutgoingMessageView,
};
use crate::protocol::{
    channel_control_from_raw, control_error, controlled_raw, decode_message_at, decoded, encode_outgoing,
    encoded, validate_control, ClientCommand, ClientCommandView, WireCommand, WireCommandView,
    WireMessage, WireMessageView,
};
use crate::text;

verus! {

/// A connection that lasted this long, in milliseconds, has earned its retries back.
pub const HEALTHY_AFTER: u64 = 30_000;

/// Longest wait before a retry, in milliseconds.
pub const MAX_DELAY: u64 = 30_000;

pub const RPL_WELCOME: u16 = 1;

pub const RPL_UNAWAY: u16 = 305;

pub const RPL_NOWAWAY: u16 = 306;

pub const ERR_PASSWDMISMATCH: u16 = 464;

pub const ERR_YOUREBANNEDCREEP: u16 = 465;

/// How an attempt or a connection ended.
#[derive(Debug, Clone, Copy, PartialEq, Eq, Structural)]
pub enum End {
    /// The user asked to stop.
    Stop,
    /// The user asked to start over.
    Restart,
    /// The application is gone.
    Shutdown,
    Failed {
        /// Retrying cannot help.
        permanent: bool,
        /// The connection had been registered for a good while.
        healthy: bool,
        /// The connection had been registered.
        registered: bool,
    },
}

pub ghost enum StepView {
    Wait,
    Send(ClientCommandView),
    SendRaw(Seq<char>),
    Close { reason: Seq<char>, end: End },
}

/// What to do on an open connection.
#[derive(Debug, PartialEq, Eq)]
pub enum Step {
    /// Nothing.
    Wait,
    /// Send a command.
    Send(ClientCommand),
    /// Send a checked line that the user wrote.
    SendRaw(String),
    /// Say goodbye with a reason and close.
    Close { reason: String, end: End },
}

impl View for Step {
    type V = StepView;

    open spec fn view(&self) -> StepView {
        match self {
            Step::Wait => StepView::Wait,
            Step::Send(command) => StepView::Send(command@),
            Step::SendRaw(line) => StepView::SendRaw(line@),
            Step::Close { reason, end } => StepView::Close { reason: reason@, end: *end },
        }
    }
}

/// What a received message asks for: commands to send, then perhaps to show the
/// message, then perhaps the end. Where a command cannot be sent, nothing follows.
#[derive(Debug, PartialEq, Eq)]
pub struct Reaction {
    pub commands: Vec<ClientCommand>,
    pub shown: bool,
    pub end: Option<End>,
}

#[verifier::ext_equal]
pub ghost struct ReactionView {
    pub commands: Seq<ClientCommandView>,
    pub shown: bool,
    pub end: Option<End>,
}

impl View for Reaction {
    type V = ReactionView;

    open spec fn view(&self) -> ReactionView {
        ReactionView { commands: self.commands.deep_view(), shown: self.shown, end: self.end }
    }
}

/// The channel control that a queued message stands for.
pub open spec fn raw_control(message: OutgoingMessageView) -> Option<ConnectionCommandView> {
    match message {
        OutgoingMessageView::Raw { line, .. } => match controlled_raw(line) {
            Ok(command) => command,
            Err(_) => None,
        },
        _ => None,
    }
}

/// The barrier that answers a control.
pub open spec fn acknowledged(
    channels: ChannelsView,
    command: Option<ConnectionCommandView>,
) -> ChannelsView {
    match command {
        Some(ConnectionCommandView::Join(channel)) => channels.emitted(
            IrcEventView::ChannelControlApplied(channels.label, channel),
        ),
        Some(ConnectionCommandView::Part { channel, .. }) => channels.emitted(
            IrcEventView::ChannelControlApplied(channels.label, channel),
        ),
        Some(ConnectionCommandView::Disconnect(_)) => channels.emitted(
            IrcEventView::ControlApplied(channels.label),
        ),
        Some(ConnectionCommandView::Reconnect) => channels.emitted(
            IrcEventView::ControlApplied(channels.label),
        ),
        _ => channels,
    }
}

/// Channels after a message that is not sent: what it wanted is kept.
pub open spec fn retained(
    channels: ChannelsView,
    message: OutgoingMessageView,
    now: u64,
) -> ChannelsView {
    match raw_control(message) {
        Some(command) => channels.request(command, false, now).0,
        None => channels,
    }
}

/// Channels after the first `count` queued messages are dropped.
pub open spec fn discarded(
    channels: ChannelsView,
    queued: Seq<OutgoingMessageView>,
    count: int,
    now: u64,
) -> ChannelsView
    decreases count,
{
    if count <= 0 {
        channels
    } else {
        retained(discarded(channels, queued, count - 1, now), queued[count - 1], now)
    }
}

/// How much longer than the first wait the wait after `failures` failures is.
pub open spec fn backoff(failures: u32) -> u64 {
    if failures == 0 {
        1
    } else if failures == 1 {
        2
    } else if failures == 2 {
        4
    } else if failures == 3 {
        8
    } else if failures == 4 {
        16
    } else {
        32
    }
}

/// The wait before the next attempt.
pub open spec fn retry_delay(policy: RetryPolicy, failures: u32) -> int {
    let delay = policy.delay * backoff(failures);
    if delay < MAX_DELAY {
        delay
    } else {
        MAX_DELAY as int
    }
}

#[verifier::ext_equal]
pub ghost struct WorkerView {
    pub server: ServerConfigView,
    pub channels: ChannelsView,
    pub policy: RetryPolicy,
    pub next: Option<u64>,
    pub failures: u32,
    pub deadline: u64,
    pub registered_at: Option<u64>,
    pub away: bool,
}

impl WorkerView {
    pub open spec fn wf(self) -> bool {
        &&& self.channels.wf()
        &&& self.channels.timeout == self.policy.timeout
    }

    /// The clock leaves room for a deadline and a retry.
    pub open spec fn in_time(self, now: u64) -> bool {
        now + self.policy.timeout <= u64::MAX && now + MAX_DELAY <= u64::MAX
    }

    pub open spec fn initial(
        server: ServerConfigView,
        label: Seq<char>,
        channels: Seq<Seq<char>>,
        policy: RetryPolicy,
        now: u64,
    ) -> WorkerView {
        WorkerView {
            server,
            channels: ChannelsView::initial(channels, label, policy.timeout),
            policy,
            next: Some(now),
            failures: 0,
            deadline: now,
            registered_at: None,
            away: false,
        }
    }

    pub open spec fn with(self, channels: ChannelsView) -> WorkerView {
        WorkerView { channels, ..self }
    }

    pub open spec fn emitted(self, event: IrcEventView) -> WorkerView {
        self.with(self.channels.emitted(event))
    }

    pub open spec fn state(self, state: ConnectionState) -> WorkerView {
        self.emitted(IrcEventView::Connection(self.channels.label, state))
    }

    /// A control that is taken up without a connection.
    pub open spec fn noted(self, command: Option<ConnectionCommandView>, now: u64) -> WorkerView {
        let channels = acknowledged(self.channels, command);
        match command {
            Some(command) => self.with(channels.request(command, false, now).0),
            None => self.with(channels),
        }
    }

    /// A fresh retry budget and an attempt at once.
    pub open spec fn restarted(self, now: u64) -> WorkerView {
        WorkerView { failures: 0, next: Some(now), ..self }
    }

    /// No further attempt until the user asks.
    pub open spec fn stopped(self) -> WorkerView {
        WorkerView { next: None, ..self }.state(ConnectionState::Stopped)
    }

    /// A control between attempts, and whether the worker goes on.
    pub open spec fn idle_control(self, command: Option<ConnectionCommandView>, now: u64) -> (
        WorkerView,
        bool,
    ) {
        if command is Some && control_error(command->0) is Some {
            (self, true)
        } else {
            let noted = self.noted(command, now);
            match command {
                None => (noted, false),
                Some(ConnectionCommandView::Connect) => if self.next is None {
                    (noted.restarted(now), true)
                } else {
                    (noted, true)
                },
                Some(ConnectionCommandView::Reconnect) => (noted.restarted(now), true),
                Some(ConnectionCommandView::Disconnect(_)) => (noted.stopped(), true),
                _ => (noted, true),
            }
        }
    }

    /// A message without a connection, and whether the worker goes on.
    pub open spec fn idle_outgoing(self, message: Option<OutgoingMessageView>, now: u64) -> (
        WorkerView,
        bool,
    ) {
        match message {
            None => (self, false),
            Some(message) => (self.with(retained(self.channels, message, now)), true),
        }
    }

    /// A new attempt; messages queued for an earlier connection are dropped.
    pub open spec fn begin(self, queued: Seq<OutgoingMessageView>, now: u64) -> WorkerView {
        WorkerView {
            deadline: (now + self.policy.timeout) as u64,
            registered_at: None,
            away: false,
            ..self.with(discarded(self.channels, queued, queued.len() as int, now)).state(
                ConnectionState::Connecting,
            )
        }
    }

    /// A control while a connection is being made, and whether that ends it.
    pub open spec fn connecting_control(self, command: Option<ConnectionCommandView>, now: u64) -> (
        WorkerView,
        Option<End>,
    ) {
        if command is Some && control_error(command->0) is Some {
            (self, None)
        } else {
            (
                self.noted(command, now),
                match command {
                    None => Some(End::Shutdown),
                    Some(ConnectionCommandView::Disconnect(_)) => Some(End::Stop),
                    Some(ConnectionCommandView::Reconnect) => Some(End::Restart),
                    _ => None,
                },
            )
        }
    }

    /// What an away request without a reason means.
    pub open spec fn away_reason(self, reason: Option<Seq<char>>) -> Option<Seq<char>> {
        match reason {
            Some(reason) => Some(reason),
            None => if self.away {
                None
            } else {
                Some("Away"@)
            },
        }
    }

    /// A control on an open connection, and what to do.
    pub open spec fn session_control(self, command: Option<ConnectionCommandView>, now: u64) -> (
        WorkerView,
        StepView,
    ) {
        if command is Some && control_error(command->0) is Some {
            (self, StepView::Wait)
        } else {
            let answered = self.with(acknowledged(self.channels, command));
            let registered = self.registered_at is Some;
            match command {
                None => (answered, StepView::Close { reason: ""@, end: End::Shutdown }),
                Some(ConnectionCommandView::Disconnect(reason)) => (
                    answered,
                    StepView::Close { reason, end: End::Stop },
                ),
                Some(ConnectionCommandView::Reconnect) => (
                    answered,
                    StepView::Close { reason: "Reconnecting"@, end: End::Restart },
                ),
                Some(ConnectionCommandView::Connect) => (answered, StepView::Wait),
                Some(ConnectionCommandView::Nick(nick)) => (
                    answered,
                    if registered {
                        StepView::Send(ClientCommandView::Nick(nick))
                    } else {
                        StepView::Wait
                    },
                ),
                Some(ConnectionCommandView::Away(reason)) => (
                    answered,
                    if registered {
                        StepView::Send(ClientCommandView::Away(self.away_reason(reason)))
                    } else {
                        StepView::Wait
                    },
                ),
                Some(ConnectionCommandView::Back) => (
                    answered,
                    if registered {
                        StepView::Send(ClientCommandView::Away(None))
                    } else {
                        StepView::Wait
                    },
                ),
                Some(command) => {
                    let (channels, wire) = answered.channels.request(command, registered, now);
                    (
                        self.with(channels),
                        match wire {
                            Some(wire) => StepView::Send(wire),
                            None => StepView::Wait,
                        },
                    )
                },
            }
        }
    }

    /// A message on an open connection, and what to do.
    pub open spec fn session_outgoing(self, message: Option<OutgoingMessageView>, now: u64) -> (
        WorkerView,
        StepView,
    ) {
        match message {
            None => (self, StepView::Close { reason: ""@, end: End::Shutdown }),
            Some(message) => if self.registered_at is None {
                (self.with(retained(self.channels, message, now)), StepView::Wait)
            } else if encoded(message) is Err {
                (self, StepView::Wait)
            } else {
                match raw_control(message) {
                    Some(command) => {
                        let (channels, wire) = self.channels.request(command, true, now);
                        (
                            self.with(channels),
                            match wire {
                                Some(wire) => StepView::Send(wire),
                                None => StepView::Wait,
                            },
                        )
                    },
                    None => (
                        self,
                        match message {
                            OutgoingMessageView::Privmsg { target, text, .. } => if self.channels.can_send(
                                target,
                            ) {
                                StepView::Send(ClientCommandView::Privmsg { target, text })
                            } else {
                                StepView::Wait
                            },
                            OutgoingMessageView::Raw { line, .. } => StepView::SendRaw(line),
                        },
                    ),
                }
            },
        }
    }

    /// How a failure ends the attempt or connection.
    pub open spec fn failed(self, permanent: bool, now: u64) -> End {
        End::Failed {
            permanent,
            registered: self.registered_at is Some,
            healthy: self.registered_at is Some && now - self.registered_at->0 >= HEALTHY_AFTER,
        }
    }

    /// A message from a user with our nickname.
    pub open spec fn own(self, message: WireMessageView) -> bool {
        message.source is Some && text::same_name(message.source->0, self.server.nickname)
    }

    pub open spec fn renamed(self, nickname: Seq<char>) -> WorkerView {
        WorkerView { server: ServerConfigView { nickname, ..self.server }, ..self }
    }

    /// A message that confirms the registration.
    pub open spec fn welcomes(self, message: WireMessageView) -> bool {
        &&& self.registered_at is None
        &&& message.command matches WireCommandView::Response(code, _) && code == RPL_WELCOME
    }

    /// A confirmed registration: our name, back from away, connected, and the
    /// wanted channels asked for.
    pub open spec fn welcomed(
        self,
        args: Seq<Seq<char>>,
        queued: Seq<OutgoingMessageView>,
        now: u64,
    ) -> (WorkerView, Seq<ClientCommandView>) {
        let named = if args.len() > 0 {
            self.renamed(args[0])
        } else {
            self
        };
        let label = self.channels.label;
        let announced = WorkerView {
            registered_at: Some(now),
            ..named.with(discarded(self.channels, queued, queued.len() as int, now))
        }.emitted(IrcEventView::Nickname(label, named.server.nickname)).emitted(
            IrcEventView::Away(label, false),
        ).state(ConnectionState::Connected);
        let (channels, commands) = announced.channels.start(
            announced.channels.entries.len() as int,
            now,
        );
        (announced.with(channels), commands)
    }

    /// What is said when we are kicked.
    pub open spec fn kick_text(channel: Seq<char>, reason: Option<Seq<char>>) -> Seq<char> {
        "Kicked from "@ + channel + ": "@ + (match reason {
            Some(reason) => reason,
            None => "no reason given"@,
        })
    }

    /// A numeric that may refuse a channel.
    pub open spec fn refused(self, code: u16, args: Seq<Seq<char>>) -> WorkerView {
        if args.len() > 1 {
            self.with(self.channels.error(code, args[1]))
        } else {
            self
        }
    }

    /// What a message says about the connection: the worker after it, commands
    /// to send, the end if it ends, and whether it is also shown.
    pub open spec fn observed(
        self,
        message: WireMessageView,
        queued: Seq<OutgoingMessageView>,
        now: u64,
        at: SystemTime,
    ) -> (WorkerView, Seq<ClientCommandView>, Option<End>, bool) {
        let label = self.channels.label;
        match message.command {
            WireCommandView::Response(code, args) => if code == RPL_WELCOME && self.registered_at
                is None {
                let (worker, commands) = self.welcomed(args, queued, now);
                (worker, commands, None, true)
            } else if code == ERR_PASSWDMISMATCH || code == ERR_YOUREBANNEDCREEP {
                (self, Seq::empty(), Some(self.failed(true, now)), true)
            } else if code == RPL_NOWAWAY || code == RPL_UNAWAY {
                let away = code == RPL_NOWAWAY;
                (
                    WorkerView { away, ..self }.emitted(IrcEventView::Away(label, away)),
                    Seq::empty(),
                    None,
                    false,
                )
            } else {
                (self.refused(code, args), Seq::empty(), None, true)
            },
            WireCommandView::Raw(word, args) => (
                match text::parsed_u16(word) {
                    Some(code) => self.refused(code, args),
                    None => self,
                },
                Seq::empty(),
                None,
                true,
            ),
            WireCommandView::Nick(nick) => if self.own(message) {
                (
                    self.renamed(nick).emitted(IrcEventView::Nickname(label, nick)),
                    Seq::empty(),
                    None,
                    true,
                )
            } else {
                (
                    match message.source {
                        Some(previous) => self.emitted(
                            IrcEventView::PeerNickname(label, previous, nick),
                        ),
                        None => self,
                    },
                    Seq::empty(),
                    None,
                    true,
                )
            },
            WireCommandView::Join(channel) => if self.own(message) {
                let (channels, wire) = self.channels.joined(channel, now);
                (
                    self.with(channels),
                    match wire {
                        Some(wire) => seq![wire],
                        None => Seq::empty(),
                    },
                    None,
                    true,
                )
            } else {
                (self, Seq::empty(), None, true)
            },
            WireCommandView::Part(channel) => (
                if self.own(message) {
                    self.with(self.channels.left(channel, false))
                } else {
                    self
                },
                Seq::empty(),
                None,
                true,
            ),
            WireCommandView::Kick { channel, nick, reason } => (
                if text::same_name(nick, self.server.nickname) {
                    self.with(
                        self.channels.left(channel, true).notice(
                            channel,
                            WorkerView::kick_text(channel, reason),
                            at,
                        ),
                    )
                } else {
                    self
                },
                Seq::empty(),
                None,
                true,
            ),
            WireCommandView::Error => (self, Seq::empty(), Some(self.failed(false, now)), false),
            _ => (self, Seq::empty(), None, true),
        }
    }

    pub open spec fn names(self) -> Seq<Seq<char>> {
        self.channels.entries.map_values(|entry: ChannelView| entry.name)
    }

    /// The message shown to the user, if it says anything.
    pub open spec fn shown(self, message: WireMessageView, at: SystemTime) -> WorkerView {
        match decoded(message, self.channels.label, self.names(), self.server.nickname, at) {
            Some(routed) => self.emitted(IrcEventView::Message(routed)),
            None => self,
        }
    }

    /// A received message, and what to do: send the commands, and once they are sent
    /// show the message and end the connection where that is asked for.
    pub open spec fn received(
        self,
        message: WireMessageView,
        queued: Seq<OutgoingMessageView>,
        now: u64,
        at: SystemTime,
    ) -> (WorkerView, ReactionView) {
        let (worker, commands, end, shown) = self.observed(message, queued, now, at);
        (worker, ReactionView { commands, shown, end })
    }

    /// After the end of an attempt or connection, and whether the worker goes on.
    pub open spec fn finish(self, end: End, now: u64) -> (WorkerView, bool) {
        let left = self.with(self.channels.disconnected(self.channels.entries.len() as int));
        let label = self.channels.label;
        match end {
            End::Shutdown => (left, false),
            End::Stop => (left.stopped(), true),
            End::Restart => (left.restarted(now), true),
            End::Failed { permanent, healthy, registered } => {
                let failures = if healthy {
                    0
                } else {
                    self.failures
                };
                let told = WorkerView { failures, ..left }.emitted(
                    if registered {
                        IrcEventView::Status(label, "disconnected (connection closed)"@)
                    } else {
                        IrcEventView::Error(label, "connection or registration failed"@)
                    },
                );
                if permanent || failures >= self.policy.max_retries {
                    (told.stopped(), true)
                } else {
                    let waiting = if registered {
                        told.state(ConnectionState::Connecting)
                    } else {
                        told
                    };
                    (
                        WorkerView {
                            failures: (failures + 1) as u32,
                            next: Some((now + retry_delay(self.policy, failures)) as u64),
                            ..waiting
                        },
                        true,
                    )
                }
            },
        }
    }
}

/// The state of one server's connection.
#[derive(Debug)]
pub struct Worker {
    server: ServerConfig,
    channels: Channels,
    policy: RetryPolicy,
    next: Option<u64>,
    failures: u32,
    deadline: u64,
    registered_at: Option<u64>,
    away: bool,
}

impl View for Worker {
    type V = WorkerView;

    closed spec fn view(&self) -> WorkerView {
        WorkerView {
            server: self.server@,
            channels: self.channels@,
            policy: self.policy,
            next: self.next,
            failures: self.failures,
            deadline: self.deadline,
            registered_at: self.registered_at,
            away: self.away,
        }
    }
}

fn raw_channel_control(message: &OutgoingMessage) -> (command: Option<ConnectionCommand>)
    ensures
        command.deep_view() == raw_control(message@),
{
    match message {
        OutgoingMessage::Raw { line, .. } => match channel_control_from_raw(line.as_str()) {
            Ok(command) => command,
            Err(_) => None,
        },
        _ => None,
    }
}

fn rejected(command: &Option<ConnectionCommand>) -> (answer: bool)
    ensures
        answer == (command.deep_view() is Some && control_error(command.deep_view()->0) is Some),
{
    match command {
        Some(command) => validate_control(command).is_err(),
        None => false,
    }
}

impl Worker {
    /// A worker that makes its first attempt at once. Times are milliseconds on
    /// one clock.
    pub fn new(
        server: ServerConfig,
        label: &str,
        channels: &[String],
        policy: RetryPolicy,
        now: u64,
    ) -> (worker: Self)
        ensures
            worker@ == WorkerView::initial(server@, label@, channels.deep_view(), policy, now),
            worker@.wf(),
    {
        let channels = Channels::new(channels, label, policy.timeout);
        proof {
            lemma_initial_timeout(channels@, policy.timeout);
        }
        Worker {
            server,
            channels,
            policy,
            next: Some(now),
            failures: 0,
            deadline: now,
            registered_at: None,
            away: false,
        }
    }

    /// When the next attempt is due; `None` while stopped.
    pub fn next_attempt(&self) -> (next: Option<u64>)
        ensures
            next == self@.next,
    {
        self.next
    }

    /// When an unregistered connection is given up.
    pub fn registration_deadline(&self) -> (deadline: Option<u64>)
        ensures
            deadline == (if self@.registered_at is None {
                Some(self@.deadline)
            } else {
                None
            }),
    {
        if self.registered_at.is_none() {
            Some(self.deadline)
        } else {
            None
        }
    }

    /// When the next unconfirmed join or part is given up.
    pub fn channel_deadline(&self) -> (deadline: Option<u64>)
        ensures
            deadline == (if self@.registered_at is Some {
                self@.channels.deadline(self@.channels.entries.len() as int)
            } else {
                None
            }),
    {
        if self.registered_at.is_some() {
            self.channels.deadline()
        } else {
            None
        }
    }

    /// The events since they were last taken, oldest first.
    pub fn take_events(&mut self) -> (events: Vec<IrcEvent>)
        ensures
            events.deep_view() == old(self)@.channels.events,
            final(self)@ == old(self)@.with(
                ChannelsView { events: Seq::empty(), ..old(self)@.channels },
            ),
            old(self)@.wf() ==> final(self)@.wf(),
    {
        self.channels.take_events()
    }

    fn state(&mut self, state: ConnectionState)
        ensures
            final(self)@ == old(self)@.state(state),
            old(self)@.wf() ==> final(self)@.wf(),
    {
        let event = IrcEvent::Connection(self.channels.label().to_owned(), state);
        self.channels.report(event);
    }

    fn acknowledge(&mut self, command: &Option<ConnectionCommand>)
        ensures
            final(self)@ == old(self)@.with(
                acknowledged(old(self)@.channels, command.deep_view()),
            ),
            old(self)@.wf() ==> final(self)@.wf(),
    {
        let label = self.channels.label().to_owned();
        match command {
            Some(ConnectionCommand::Join(channel)) => {
                self.channels.report(IrcEvent::ChannelControlApplied(label, channel.clone()));
            },
            Some(ConnectionCommand::Part { channel, .. }) => {
                self.channels.report(IrcEvent::ChannelControlApplied(label, channel.clone()));
            },
            Some(ConnectionCommand::Disconnect(_)) => {
                self.channels.report(IrcEvent::ControlApplied(label));
            },
            Some(ConnectionCommand::Reconnect) => {
                self.channels.report(IrcEvent::ControlApplied(label));
            },
            _ => {},
        }
    }

    fn note(&mut self, command: &Option<ConnectionCommand>, now: u64)
        requires
            old(self)@.wf(),
            old(self)@.in_time(now),
        ensures
            final(self)@ == old(self)@.noted(command.deep_view(), now),
            final(self)@.wf(),
    {
        self.acknowledge(command);
        match command {
            Some(command) => {
                let ghost channels = self.channels@;
                let _ = self.channels.request(command, false, now);
                proof {
                    lemma_request_keeps_timeout(channels, command@, false, now);
                }
            },
            None => {},
        }
    }

    fn restart(&mut self, now: u64)
        ensures
            final(self)@ == old(self)@.restarted(now),
            old(self)@.wf() ==> final(self)@.wf(),
    {
        self.failures = 0;
        self.next = Some(now);
    }

    fn stop(&mut self)
        ensures
            final(self)@ == old(self)@.stopped(),
            old(self)@.wf() ==> final(self)@.wf(),
    {
        self.next = None;
        self.state(ConnectionState::Stopped);
    }

    /// A control between attempts; `None` is a closed queue. Tells whether the
    /// worker goes on.
    pub fn idle_control(&mut self, command: Option<ConnectionCommand>, now: u64) -> (goes_on: bool)
        requires
            old(self)@.wf(),
            old(self)@.in_time(now),
        ensures
            final(self)@.wf(),
            (final(self)@, goes_on) == old(self)@.idle_control(command.deep_view(), now),
    {
        if rejected(&command) {
            return true;
        }
        let resting = self.next.is_none();
        self.note(&command, now);
        match command {
            None => {
                return false;
            },
            Some(ConnectionCommand::Connect) => {
                if resting {
                    self.restart(now);
                }
            },
            Some(ConnectionCommand::Reconnect) => {
                self.restart(now);
            },
            Some(ConnectionCommand::Disconnect(_)) => {
                self.stop();
            },
            _ => {},
        }
        true
    }

    fn retain(&mut self, message: &OutgoingMessage, now: u64)
        requires
            old(self)@.wf(),
            old(self)@.in_time(now),
        ensures
            final(self)@ == old(self)@.with(retained(old(self)@.channels, message@, now)),
            final(self)@.wf(),
    {
        match raw_channel_control(message) {
            Some(command) => {
                let ghost channels = self.channels@;
                let _ = self.channels.request(&command, false, now);
                proof {
                    lemma_request_keeps_timeout(channels, command@, false, now);
                }
            },
            None => {},
        }
    }

    /// A message while there is no registered connection; `None` is a closed
    /// queue. Tells whether the worker goes on.
    pub fn idle_outgoing(&mut self, message: Option<OutgoingMessage>, now: u64) -> (goes_on: bool)
        requires
            old(self)@.wf(),
            old(self)@.in_time(now),
        ensures
            final(self)@.wf(),
            (final(self)@, goes_on) == old(self)@.idle_outgoing(message.deep_view(), now),
    {
        match message {
            None => false,
            Some(message) => {
                self.retain(&message, now);
                true
            },
        }
    }

    fn discard(&mut self, queued: &Vec<OutgoingMessage>, now: u64)
        requires
            old(self)@.wf(),
            old(self)@.in_time(now),
        ensures
            final(self)@.wf(),
            final(self)@ == old(self)@.with(
                discarded(
                    old(self)@.channels,
                    queued.deep_view(),
                    queued.deep_view().len() as int,
                    now,
                ),
            ),
    {
        let ghost before = self@;
        let mut i: usize = 0;
        while i < queued.len()
            invariant
                i <= queued.len(),
                self@.wf(),
                before.in_time(now),
                self@ == before.with(
                    discarded(before.channels, queued.deep_view(), i as int, now),
                ),
            decreases queued.len() - i,
        {
            assert(queued.deep_view()[i as int] == queued@[i as int]@);
            self.retain(&queued[i], now);
            i = i + 1;
        }
    }

    /// Begin an attempt. `queued` is what waited for an earlier connection: it
    /// is never sent. The settings are for the client to connect with.
    pub fn begin(&mut self, queued: &Vec<OutgoingMessage>, now: u64) -> (client: ClientConfig)
        requires
            old(self)@.wf(),
            old(self)@.in_time(now),
        ensures
            final(self)@.wf(),
            final(self)@ == old(self)@.begin(queued.deep_view(), now),
            client@ == client_config(old(self)@.server, Seq::empty()),
            client@.server == Some(old(self)@.server.server),
            client@.port == Some(old(self)@.server.port),
            client@.use_tls == Some(old(self)@.server.use_tls),
            client@.nickname == Some(old(self)@.server.nickname),
            client@.username == Some(old(self)@.server.username),
            client@.password == Some(old(self)@.server.password),
            client@.channels.len() == 0,
    {
        self.discard(queued, now);
        self.state(ConnectionState::Connecting);
        self.deadline = now + self.policy.timeout;
        self.registered_at = None;
        self.away = false;
        let none: Vec<String> = Vec::new();
        assert(none.deep_view() =~= Seq::empty());
        build_client_config(&self.server, none.as_slice())
    }

    /// A control while a connection is being made; `None` is a closed queue.
    pub fn connecting_control(&mut self, command: Option<ConnectionCommand>, now: u64) -> (end:
        Option<End>)
        requires
            old(self)@.wf(),
            old(self)@.in_time(now),
        ensures
            final(self)@.wf(),
            (final(self)@, end) == old(self)@.connecting_control(command.deep_view(), now),
    {
        if rejected(&command) {
            return None;
        }
        self.note(&command, now);
        match command {
            None => Some(End::Shutdown),
            Some(ConnectionCommand::Disconnect(_)) => Some(End::Stop),
            Some(ConnectionCommand::Reconnect) => Some(End::Restart),
            _ => None,
        }
    }

    fn request(&mut self, command: &ConnectionCommand, connected: bool, now: u64) -> (step: Step)
        requires
            old(self)@.wf(),
            old(self)@.in_time(now),
        ensures
            final(self)@.wf(),
            final(self)@ == old(self)@.with(
                old(self)@.channels.request(command@, connected, now).0,
            ),
            step@ == (match old(self)@.channels.request(command@, connected, now).1 {
                Some(wire) => StepView::Send(wire),
                None => StepView::Wait,
            }),
    {
        let ghost channels = self.channels@;
        proof {
            lemma_request_keeps_timeout(channels, command@, connected, now);
        }
        match self.channels.request(command, connected, now) {
            Some(wire) => Step::Send(wire),
            None => Step::Wait,
        }
    }

    /// A control on an open connection; `None` is a closed queue.
    pub fn session_control(&mut self, command: Option<ConnectionCommand>, now: u64) -> (step: Step)
        requires
            old(self)@.wf(),
            old(self)@.in_time(now),
        ensures
            final(self)@.wf(),
            (final(self)@, step@) == old(self)@.session_control(command.deep_view(), now),
    {
        if rejected(&command) {
            return Step::Wait;
        }
        self.acknowledge(&command);
        let registered = self.registered_at.is_some();
        match command {
            None => Step::Close { reason: "".to_owned(), end: End::Shutdown },
            Some(ConnectionCommand::Disconnect(reason)) => Step::Close { reason, end: End::Stop },
            Some(ConnectionCommand::Reconnect) => Step::Close {
                reason: "Reconnecting".to_owned(),
                end: End::Restart,
            },
            Some(ConnectionCommand::Connect) => Step::Wait,
            Some(ConnectionCommand::Nick(nick)) => {
                if registered {
                    Step::Send(ClientCommand::Nick(nick))
                } else {
                    Step::Wait
                }
            },
            Some(ConnectionCommand::Away(reason)) => {
                if !registered {
                    Step::Wait
                } else {
                    let reason = match reason {
                        Some(reason) => Some(reason),
                        None => if self.away {
                            None
                        } else {
                            Some("Away".to_owned())
                        },
                    };
                    Step::Send(ClientCommand::Away(reason))
                }
            },
            Some(ConnectionCommand::Back) => {
                if registered {
                    Step::Send(ClientCommand::Away(None))
                } else {
                    Step::Wait
                }
            },
            Some(command) => self.request(&command, registered, now),
        }
    }

    /// A message on an open connection; `None` is a closed queue.
    pub fn session_outgoing(&mut self, message: Option<OutgoingMessage>, now: u64) -> (step: Step)
        requires
            old(self)@.wf(),
            old(self)@.in_time(now),
        ensures
            final(self)@.wf(),
            (final(self)@, step@) == old(self)@.session_outgoing(message.deep_view(), now),
    {
        let message = match message {
            None => return Step::Close { reason: "".to_owned(), end: End::Shutdown },
            Some(message) => message,
        };
        if self.registered_at.is_none() {
            self.retain(&message, now);
            return Step::Wait;
        }
        if encode_outgoing(&message).is_err() {
            return Step::Wait;
        }
        match raw_channel_control(&message) {
            Some(command) => {
                return self.request(&command, true, now);
            },
            None => {},
        }
        match message {
            OutgoingMessage::Privmsg { target, text, .. } => {
                if self.channels.can_send(target.as_str()) {
                    Step::Send(ClientCommand::Privmsg { target, text })
                } else {
                    Step::Wait
                }
            },
            OutgoingMessage::Raw { line, .. } => Step::SendRaw(line),
        }
    }

    /// Whether a message confirms the registration. What is queued by then was meant
    /// for an earlier connection, and is to be taken out of the queue for
    /// [`Worker::received`].
    pub fn is_welcome(&self, message: &WireMessage) -> (answer: bool)
        ensures
            answer == self@.welcomes(message@),
    {
        match &message.command {
            WireCommand::Response(code, _) => *code == RPL_WELCOME && self.registered_at.is_none(),
            _ => false,
        }
    }

    /// Give up the joins and parts whose deadline has come.
    pub fn expire(&mut self, now: u64, at: SystemTime)
        requires
            old(self)@.wf(),
        ensures
            final(self)@.wf(),
            final(self)@ == old(self)@.with(
                old(self)@.channels.expire(old(self)@.channels.entries.len() as int, now, at),
            ),
    {
        let ghost channels = self.channels@;
        self.channels.expire(now, at);
        proof {
            lemma_expire_keeps_timeout(channels, channels.entries.len() as int, now, at);
        }
    }

    /// How a failure at `now` ends the attempt or connection.
    pub fn failed(&self, permanent: bool, now: u64) -> (end: End)
        ensures
            end == self@.failed(permanent, now),
    {
        let healthy = match self.registered_at {
            Some(start) => now >= start && now - start >= HEALTHY_AFTER,
            None => false,
        };
        End::Failed { permanent, healthy, registered: self.registered_at.is_some() }
    }

    /// The server took none of the nicknames. Before registration that is the
    /// end; afterwards only the change has failed.
    pub fn nickname_rejected(&self, now: u64) -> (end: Option<End>)
        ensures
            end == (if self@.registered_at is Some {
                None
            } else {
                Some(self@.failed(true, now))
            }),
    {
        if self.registered_at.is_some() {
            None
        } else {
            Some(self.failed(true, now))
        }
    }

    fn is_own(&self, message: &WireMessage) -> (answer: bool)
        ensures
            answer == self@.own(message@),
    {
        match &message.source {
            Some(nick) => text::names_match(nick.as_str(), self.server.nickname.as_str()),
            None => false,
        }
    }

    fn rename(&mut self, nickname: &String)
        ensures
            final(self)@ == old(self)@.renamed(nickname@),
            old(self)@.wf() ==> final(self)@.wf(),
    {
        self.server.nickname = nickname.clone();
    }

    fn welcome(&mut self, args: &Vec<String>, queued: &Vec<OutgoingMessage>, now: u64) -> (commands:
        Vec<ClientCommand>)
        requires
            old(self)@.wf(),
            old(self)@.in_time(now),
        ensures
            final(self)@.wf(),
            (final(self)@, commands.deep_view()) == old(self)@.welcomed(
                args.deep_view(),
                queued.deep_view(),
                now,
            ),
    {
        if args.len() > 0 {
            self.rename(&args[0]);
        }
        self.discard(queued, now);
        proof {
            lemma_discarded_keeps_label(
                old(self)@.channels,
                queued.deep_view(),
                queued.deep_view().len() as int,
                now,
            );
        }
        self.registered_at = Some(now);
        let label = self.channels.label().to_owned();
        let nickname = self.server.nickname.clone();
        self.channels.report(IrcEvent::Nickname(label.clone(), nickname));
        self.channels.report(IrcEvent::Away(label, false));
        self.state(ConnectionState::Connected);
        let ghost channels = self.channels@;
        let commands = self.channels.start(now);
        proof {
            lemma_start_keeps_timeout(channels, channels.entries.len() as int, now);
        }
        commands
    }

    fn refuse(&mut self, code: u16, args: &Vec<String>)
        requires
            old(self)@.wf(),
        ensures
            final(self)@.wf(),
            final(self)@ == old(self)@.refused(code, args.deep_view()),
    {
        if args.len() > 1 {
            self.channels.error(code, args[1].as_str());
        }
    }

    fn kicked(&mut self, channel: &str, reason: &Option<String>, at: SystemTime)
        requires
            old(self)@.wf(),
        ensures
            final(self)@.wf(),
            final(self)@ == old(self)@.with(
                old(self)@.channels.left(channel@, true).notice(
                    channel@,
                    WorkerView::kick_text(channel@, reason.deep_view()),
                    at,
                ),
            ),
    {
        self.channels.left(channel, true);
        let mut text = "Kicked from ".to_owned();
        text.append(channel);
        text.append(": ");
        match reason {
            Some(reason) => {
                text.append(reason.as_str());
            },
            None => {
                text.append("no reason given");
            },
        }
        self.channels.notice(channel, text.as_str(), at);
    }

    /// Report a received message to the user, if it says anything.
    pub fn show(&mut self, message: &WireMessage, at: SystemTime)
        ensures
            final(self)@ == old(self)@.shown(message@, at),
            old(self)@.wf() ==> final(self)@.wf(),
    {
        let names = self.channels.names();
        match decode_message_at(
            message,
            self.channels.label(),
            names.as_slice(),
            self.server.nickname.as_str(),
            at,
        ) {
            Some(routed) => {
                self.channels.report(IrcEvent::Message(routed));
            },
            None => {},
        }
    }

    /// A message on an open connection. `queued` is what waited for an earlier
    /// connection; it is dropped when the message confirms registration. Once the
    /// commands of the reaction are sent, the message is to be shown where the
    /// reaction says so.
    pub fn received(
        &mut self,
        message: &WireMessage,
        queued: &Vec<OutgoingMessage>,
        now: u64,
        at: SystemTime,
    ) -> (reaction: Reaction)
        requires
            old(self)@.wf(),
            old(self)@.in_time(now),
        ensures
            final(self)@.wf(),
            (final(self)@, reaction@) == old(self)@.received(message@, queued.deep_view(), now, at),
    {
        let mut commands: Vec<ClientCommand> = Vec::new();
        let mut end: Option<End> = None;
        let mut shown = true;
        let label = self.channels.label().to_owned();
        assert(commands.deep_view() =~= Seq::empty());
        match &message.command {
            WireCommand::Response(code, args) => {
                let code: u16 = *code;
                if code == RPL_WELCOME && self.registered_at.is_none() {
                    commands = self.welcome(args, queued, now);
                } else if code == ERR_PASSWDMISMATCH || code == ERR_YOUREBANNEDCREEP {
                    end = Some(self.failed(true, now));
                } else if code == RPL_NOWAWAY || code == RPL_UNAWAY {
                    self.away = code == RPL_NOWAWAY;
                    self.channels.report(IrcEvent::Away(label, code == RPL_NOWAWAY));
                    shown = false;
                } else {
                    self.refuse(code, args);
                }
            },
            WireCommand::Raw(word, args) => match text::parse_u16(word.as_str()) {
                Some(code) => {
                    self.refuse(code, args);
                },
                None => {},
            },
            WireCommand::Nick(nick) => {
                if self.is_own(message) {
                    self.rename(nick);
                    self.channels.report(IrcEvent::Nickname(label, nick.clone()));
                } else {
                    match &message.source {
                        Some(previous) => {
                            self.channels.report(
                                IrcEvent::PeerNickname(label, previous.clone(), nick.clone()),
                            );
                        },
                        None => {},
                    }
                }
            },
            WireCommand::Join(channel) => {
                if self.is_own(message) {
                    let ghost channels = self.channels@;
                    proof {
                        lemma_joined_keeps_timeout(channels, channel@, now);
                    }
                    match self.channels.joined(channel.as_str(), now) {
                        Some(wire) => {
                            commands.push(wire);
                            assert(commands.deep_view() =~= seq![wire@]);
                        },
                        None => {},
                    }
                }
            },
            WireCommand::Part(channel) => {
                if self.is_own(message) {
                    self.channels.left(channel.as_str(), false);
                }
            },
            WireCommand::Kick { channel, nick, reason } => {
                if text::names_match(nick.as_str(), self.server.nickname.as_str()) {
                    self.kicked(channel.as_str(), reason, at);
                }
            },
            WireCommand::Error => {
                end = Some(self.failed(false, now));
                shown = false;
            },
            _ => {},
        }
        Reaction { commands, shown, end }
    }

    /// Take up the end of an attempt or connection. Tells whether the worker
    /// goes on.
    pub fn finish(&mut self, end: End, now: u64) -> (goes_on: bool)
        requires
            old(self)@.wf(),
            old(self)@.in_time(now),
        ensures
            final(self)@.wf(),
            (final(self)@, goes_on) == old(self)@.finish(end, now),
    {
        let ghost channels = self.channels@;
        self.channels.disconnected();
        proof {
            lemma_disconnected_keeps_timeout(channels, channels.entries.len() as int);
        }
        let label = self.channels.label().to_owned();
        match end {
            End::Shutdown => {
                return false;
            },
            End::Stop => {
                self.stop();
            },
            End::Restart => {
                self.restart(now);
            },
            End::Failed { permanent, healthy, registered } => {
                if healthy {
                    self.failures = 0;
                }
                self.channels.report(
                    if registered {
                        IrcEvent::Status(label, "disconnected (connection closed)".to_owned())
                    } else {
                        IrcEvent::Error(label, "connection or registration failed".to_owned())
                    },
                );
                if permanent || self.failures >= self.policy.max_retries {
                    self.stop();
                } else {
                    let delay: u64 = delay_after(self.policy, self.failures);
                    self.failures = self.failures + 1;
                    if registered {
                        self.state(ConnectionState::Connecting);
                    }
                    self.next = Some(now + delay);
                }
            },
        }
        true
    }
}

fn delay_after(policy: RetryPolicy, failures: u32) -> (delay: u64)
    ensures
        delay == retry_delay(policy, failures),
        delay <= MAX_DELAY,
{
    let factor: u64 = if failures == 0 {
        1
    } else if failures == 1 {
        2
    } else if failures == 2 {
        4
    } else if failures == 3 {
        8
    } else if failures == 4 {
        16
    } else {
        32
    };
    if policy.delay >= MAX_DELAY {
        assert(policy.delay * factor >= MAX_DELAY) by (nonlinear_arith)
            requires
                policy.delay >= MAX_DELAY,
                factor >= 1,
        ;
        MAX_DELAY
    } else {
        assert(policy.delay * factor <= 30_000 * 32) by (nonlinear_arith)
            requires
                policy.delay < MAX_DELAY,
                MAX_DELAY == 30_000,
                factor <= 32,
        ;
        let delay: u64 = policy.delay * factor;
        if delay < MAX_DELAY {
            delay
        } else {
            MAX_DELAY
        }
    }
}

proof fn lemma_initial_timeout(channels: ChannelsView, timeout: u64)
    requires
        exists|names: Seq<Seq<char>>, label: Seq<char>|
            channels == #[trigger] ChannelsView::initial(names, label, timeout),
    ensures
        channels.timeout == timeout,
{
    let (names, label) = choose|names: Seq<Seq<char>>, label: Seq<char>|
        channels == #[trigger] ChannelsView::initial(names, label, timeout);
    lemma_initial_keeps_timeout(names, label, timeout);
}

proof fn lemma_initial_keeps_timeout(names: Seq<Seq<char>>, label: Seq<char>, timeout: u64)
    ensures
        ChannelsView::initial(names, label, timeout).timeout == timeout,
    decreases names.len(),
{
    if names.len() > 0 {
        lemma_initial_keeps_timeout(names.drop_last(), label, timeout);
    }
}

proof fn lemma_request_keeps_timeout(
    channels: ChannelsView,
    command: ConnectionCommandView,
    connected: bool,
    now: u64,
)
    ensures
        channels.request(command, connected, now).0.timeout == channels.timeout,
        channels.request(command, connected, now).0.label == channels.label,
{
}

proof fn lemma_discarded_keeps_label(
    channels: ChannelsView,
    queued: Seq<OutgoingMessageView>,
    count: int,
    now: u64,
)
    ensures
        discarded(channels, queued, count, now).label == channels.label,
    decreases count,
{
    if count > 0 {
        lemma_discarded_keeps_label(channels, queued, count - 1, now);
    }
}

proof fn lemma_joined_keeps_timeout(channels: ChannelsView, name: Seq<char>, now: u64)
    ensures
        channels.joined(name, now).0.timeout == channels.timeout,
{
}

proof fn lemma_start_keeps_timeout(channels: ChannelsView, count: int, now: u64)
    ensures
        channels.start(count, now).0.timeout == channels.timeout,
    decreases count,
{
    if count > 0 {
        lemma_start_keeps_timeout(channels, count - 1, now);
    }
}

proof fn lemma_disconnected_keeps_timeout(channels: ChannelsView, count: int)
    ensures
        channels.disconnected(count).timeout == channels.timeout,
        channels.disconnected(count).label == channels.label,
    decreases count,
{
    if count > 0 {
        lemma_disconnected_keeps_timeout(channels, count - 1);
    }
}

proof fn lemma_expire_keeps_timeout(channels: ChannelsView, count: int, now: u64, at: SystemTime)
    ensures
        channels.expire(count, now, at).timeout == channels.timeout,
    decreases count,
{
    if count > 0 {
        lemma_expire_keeps_timeout(channels, count - 1, now, at);
    }
}

/// Each wait before a retry is twice the one before, until the longest wait.
pub proof fn law_waits_double_up_to_the_longest(policy: RetryPolicy, failures: u32)
    ensures
        retry_delay(policy, failures) <= MAX_DELAY,
        failures < 5 ==> backoff((failures + 1) as u32) == 2 * backoff(failures),
        failures < 5 && 2 * retry_delay(policy, failures) <= MAX_DELAY ==> retry_delay(
            policy,
            (failures + 1) as u32,
        ) == 2 * retry_delay(policy, failures),
        retry_delay(policy, 0) == (if policy.delay < MAX_DELAY {
            policy.delay
        } else {
            MAX_DELAY
        }),
{
    let delay = policy.delay as int;
    let factor = backoff(failures) as int;
    assert(delay * (2 * factor) == 2 * (delay * factor)) by (nonlinear_arith);
}

impl WorkerView {
    /// The worker after `count` attempts that all failed before they were
    /// registered, the attempt `i` at the time `times[i]`.
    pub open spec fn failing(self, times: Seq<u64>, count: int) -> WorkerView
        decreases count,
    {
        if count <= 0 {
            self
        } else {
            self.failing(times, count - 1).begin(Seq::empty(), times[count - 1]).finish(
                End::Failed { permanent: false, healthy: false, registered: false },
                times[count - 1],
            ).0
        }
    }
}

/// A worker with its whole retry budget makes as many retries as the policy
/// allows, each after its wait, and stops after the last of them failed.
pub proof fn law_retries_are_bounded(worker: WorkerView, times: Seq<u64>, count: int)
    requires
        worker.failures == 0,
        0 < count <= worker.policy.max_retries + 1,
        forall|i: int| 0 <= i < times.len() ==> #[trigger] times[i] + MAX_DELAY <= u64::MAX,
        count <= times.len(),
    ensures
        worker.failing(times, count).policy == worker.policy,
        count <= worker.policy.max_retries ==> {
            &&& worker.failing(times, count).failures == count
            &&& worker.failing(times, count).next == Some(
                (times[count - 1] + retry_delay(worker.policy, (count - 1) as u32)) as u64,
            )
        },
        count > worker.policy.max_retries ==> worker.failing(times, count).next is None,
    decreases count,
{
    reveal_with_fuel(WorkerView::failing, 2);
    if count > 1 {
        law_retries_are_bounded(worker, times, count - 1);
    }
    assert(times[count - 1] + MAX_DELAY <= u64::MAX);
}

/// Where retrying cannot help, no attempt follows.
pub proof fn law_permanent_failures_stop(
    worker: WorkerView,
    healthy: bool,
    registered: bool,
    now: u64,
)
    ensures
        ({
            let (after, goes_on) = worker.finish(
                End::Failed { permanent: true, healthy, registered },
                now,
            );
            &&& after.next is None
            &&& goes_on
            &&& after.channels.events.last() == IrcEventView::Connection(
                after.channels.label,
                ConnectionState::Stopped,
            )
        }),
{
}

/// A rejected password and a ban end the connection for good.
pub proof fn law_rejections_are_permanent(
    worker: WorkerView,
    message: WireMessageView,
    queued: Seq<OutgoingMessageView>,
    now: u64,
    at: SystemTime,
)
    requires
        message.command matches WireCommandView::Response(code, _) && (code == ERR_PASSWDMISMATCH
            || code == ERR_YOUREBANNEDCREEP),
    ensures
        worker.received(message, queued, now, at).1.end matches Some(
            End::Failed { permanent, .. },
        ) && permanent,
{
}

/// A connection that was registered for long enough gives the retries back: its
/// end counts as the first failure.
pub proof fn law_a_healthy_connection_restores_the_budget(worker: WorkerView, now: u64)
    requires
        worker.registered_at is Some,
        now - worker.registered_at->0 >= HEALTHY_AFTER,
        worker.policy.max_retries > 0,
        now + MAX_DELAY <= u64::MAX,
    ensures
        ({
            let after = worker.finish(worker.failed(false, now), now).0;
            &&& after.failures == 1
            &&& after.next == Some((now + retry_delay(worker.policy, 0)) as u64)
        }),
{
}

/// Asking a stopped worker to connect, or any to reconnect, starts over at once
/// with the whole budget.
pub proof fn law_asking_restores_the_budget(worker: WorkerView, now: u64)
    ensures
        worker.next is None ==> {
            let after = worker.idle_control(Some(ConnectionCommandView::Connect), now).0;
            after.failures == 0 && after.next == Some(now)
        },
        ({
            let after = worker.idle_control(Some(ConnectionCommandView::Reconnect), now).0;
            after.failures == 0 && after.next == Some(now)
        }),
        ({
            let after = worker.finish(End::Restart, now).0;
            after.failures == 0 && after.next == Some(now)
        }),
{
}

/// Asking to disconnect cancels the retries, and nothing but asking to connect
/// brings an attempt back.
pub proof fn law_disconnecting_cancels_retries(
    worker: WorkerView,
    command: ConnectionCommandView,
    now: u64,
)
    ensures
        command is Disconnect && control_error(command) is None ==> worker.idle_control(
            Some(command),
            now,
        ).0.next is None,
        worker.finish(End::Stop, now).0.next is None,
        worker.next is None && !(command is Connect || command is Reconnect)
            ==> worker.idle_control(Some(command), now).0.next is None,
{
}

/// What was queued for an earlier connection is never sent: a received message,
/// the one that confirms the registration too, asks for joins and parts alone,
/// and before the registration nothing queued is sent.
pub proof fn law_queued_messages_are_never_replayed(
    worker: WorkerView,
    message: WireMessageView,
    queued: Seq<OutgoingMessageView>,
    outgoing: Option<OutgoingMessageView>,
    now: u64,
    at: SystemTime,
    i: int,
)
    ensures
        0 <= i < worker.received(message, queued, now, at).1.commands.len() ==> {
            let command = worker.received(message, queued, now, at).1.commands[i];
            command is Join || command is Part
        },
        worker.registered_at is None ==> {
            let step = worker.session_outgoing(outgoing, now).1;
            step is Wait || step is Close
        },
{
    if let WireCommandView::Response(code, args) = message.command {
        if code == RPL_WELCOME && worker.registered_at is None {
            let named = if args.len() > 0 {
                worker.renamed(args[0])
            } else {
                worker
            };
            let label = worker.channels.label;
            let announced = WorkerView {
                registered_at: Some(now),
                ..named.with(discarded(worker.channels, queued, queued.len() as int, now))
            }.emitted(IrcEventView::Nickname(label, named.server.nickname)).emitted(
                IrcEventView::Away(label, false),
            ).state(ConnectionState::Connected);
            lemma_start_joins(announced.channels, announced.channels.entries.len() as int, now);
        }
    }
}

proof fn lemma_start_joins(channels: ChannelsView, count: int, now: u64)
    ensures
        forall|i: int|
            0 <= i < channels.start(count, now).1.len() ==> #[trigger] channels.start(
                count,
                now,
            ).1[i] is Join,
    decreases count,
{
    if count > 0 {
        lemma_start_joins(channels, count - 1, now);
    }
}

/// A confirmed nickname outlives the connection: neither its end nor the next
/// attempt changes it.
pub proof fn law_reconnecting_keeps_the_nickname(
    worker: WorkerView,
    end: End,
    queued: Seq<OutgoingMessageView>,
    now: u64,
    then: u64,
)
    ensures
        worker.finish(end, now).0.begin(queued, then).server == worker.server,
{
}

/// A new attempt forgets that we were away, and a confirmed registration says so.
pub proof fn law_registering_clears_away(
    worker: WorkerView,
    args: Seq<Seq<char>>,
    queued: Seq<OutgoingMessageView>,
    now: u64,
)
    ensures
        !worker.begin(queued, now).away,
        worker.welcomed(args, queued, now).0.away == worker.away,
        worker.welcomed(args, queued, now).0.channels.events.contains(
            IrcEventView::Away(worker.channels.label, false),
        ),
{
    let named = if args.len() > 0 {
        worker.renamed(args[0])
    } else {
        worker
    };
    let label = worker.channels.label;
    let said = WorkerView {
        registered_at: Some(now),
        ..named.with(discarded(worker.channels, queued, queued.len() as int, now))
    }.emitted(IrcEventView::Nickname(label, named.server.nickname)).emitted(
        IrcEventView::Away(label, false),
    );
    let announced = said.state(ConnectionState::Connected);
    let count = announced.channels.entries.len() as int;
    let place = said.channels.events.len() - 1;
    lemma_start_keeps_events(announced.channels, count, now, place);
    lemma_discarded_keeps_label(worker.channels, queued, queued.len() as int, now);
    let events = announced.channels.start(count, now).0.events;
    assert(events[place] == IrcEventView::Away(label, false));
}

proof fn lemma_start_keeps_events(channels: ChannelsView, count: int, now: u64, place: int)
    requires
        0 <= place < channels.events.len(),
    ensures
        place < channels.start(count, now).0.events.len(),
        channels.start(count, now).0.events[place] == channels.events[place],
    decreases count,
{
    if count > 0 {
        lemma_start_keeps_events(channels, count - 1, now, place);
    }
}

/// Only a welcome takes queued messages: of any other message the outcome is the
/// same whatever is queued.
pub proof fn law_only_a_welcome_takes_the_queue(
    worker: WorkerView,
    message: WireMessageView,
    queued: Seq<OutgoingMessageView>,
    other: Seq<OutgoingMessageView>,
    now: u64,
    at: SystemTime,
)
    requires
        !worker.welcomes(message),
    ensures
        worker.received(message, queued, now, at) == worker.received(message, other, now, at),
{
}

/// Only the server's welcome confirms a registration.
pub proof fn law_only_a_welcome_registers(
    worker: WorkerView,
    message: WireMessageView,
    queued: Seq<OutgoingMessageView>,
    now: u64,
    at: SystemTime,
)
    requires
        worker.registered_at is None,
        worker.received(message, queued, now, at).0.registered_at is Some,
    ensures
        message.command matches WireCommandView::Response(code, _) && code == RPL_WELCOME,
{
}

} // verus!
