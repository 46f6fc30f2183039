//! Connections: their state, their events, and what a worker does with them.

pub mod channels;
pub mod laws;
pub mod worker;

use tokio::sync::mpsc::Sender;
use vstd::prelude::*;

use crate::config::{ServerConfig, ServerConfigView};
use crate::model::{
    ChannelStatus, ConnectionCommand, OutgoingMessage, RoutedMessage, RoutedMessageView,
};
use crate::text;

verus! {

#[derive(Debug, Clone, Copy, PartialEq, Eq, Structural)]
pub enum ConnectionState {
    Connecting,
    Connected,
    Stopped,
}

impl Default for ConnectionState {
    fn default() -> (state: Self)
        ensures
            state == ConnectionState::Stopped,
    {
        ConnectionState::Stopped
    }
}

#[verifier::external_type_specification]
#[verifier::external_body]
#[verifier::reject_recursive_types(T)]
pub struct ExSender<T>(tokio::sync::mpsc::Sender<T>);

/// The queues that lead to one connection's worker.
#[derive(Debug)]
pub struct ConnectionHandle {
    pub outgoing: Sender<OutgoingMessage>,
    pub control: Sender<ConnectionCommand>,
}

/// Trusted: tokio's `Sender::try_send` queues the value unless the queue is full
/// or closed, and then hands the very value back. Which of these holds depends on
/// the worker, so nothing is said of when the value is queued.
#[verifier::external_body]
pub(crate) fn try_queue<T>(queue: &Sender<T>, value: T) -> (outcome: Result<(), T>)
    ensures
        outcome matches Err(back) ==> back == value,
{
    queue.try_send(value).map_err(|error| match error {
        tokio::sync::mpsc::error::TrySendError::Full(back) => back,
        tokio::sync::mpsc::error::TrySendError::Closed(back) => back,
    })
}

/// How a worker retries, with times in milliseconds.
#[derive(Debug, Clone, Copy, PartialEq, Eq, Structural)]
pub struct RetryPolicy {
    pub max_retries: u32,
    /// Wait before the first retry; each further one waits twice as long.
    pub delay: u64,
    /// Longest wait for registration and for a channel's confirmation.
    pub timeout: u64,
}

impl Default for RetryPolicy {
    fn default() -> (policy: Self)
        ensures
            policy == (RetryPolicy { max_retries: 3, delay: 1_000, timeout: 30_000 }),
    {
        RetryPolicy { max_retries: 3, delay: 1_000, timeout: 30_000 }
    }
}

pub ghost enum IrcEventView {
    ControlApplied(Seq<char>),
    ChannelControlApplied(Seq<char>, Seq<char>),
    Connection(Seq<char>, ConnectionState),
    Channel(Seq<char>, Seq<char>, ChannelStatus),
    Nickname(Seq<char>, Seq<char>),
    PeerNickname(Seq<char>, Seq<char>, Seq<char>),
    Away(Seq<char>, bool),
    Message(RoutedMessageView),
    Status(Seq<char>, Seq<char>),
    Error(Seq<char>, Seq<char>),
}

/// What a worker reports. The first field names the server's configuration key.
#[derive(Debug, PartialEq, Eq)]
pub enum IrcEvent {
    /// Ordered barrier: the worker has consumed a manual disconnect or reconnect.
    ControlApplied(String),
    /// Ordered barrier: the worker has consumed a join or part of the channel.
    ChannelControlApplied(String, String),
    Connection(String, ConnectionState),
    Channel(String, String, ChannelStatus),
    Nickname(String, String),
    /// A peer's nickname before and after a change.
    PeerNickname(String, String, String),
    Away(String, bool),
    /// A message from the server, a channel or a peer.
    Message(RoutedMessage),
    /// Informational status.
    Status(String, String),
    /// A failed attempt; a later state tells whether the worker retries.
    Error(String, String),
}

impl View for IrcEvent {
    type V = IrcEventView;

    open spec fn view(&self) -> IrcEventView {
        match self {
            IrcEvent::ControlApplied(server) => IrcEventView::ControlApplied(server@),
            IrcEvent::ChannelControlApplied(server, channel) => IrcEventView::ChannelControlApplied(
                server@,
                channel@,
            ),
            IrcEvent::Connection(server, state) => IrcEventView::Connection(server@, *state),
            IrcEvent::Channel(server, channel, status) => IrcEventView::Channel(
                server@,
                channel@,
                *status,
            ),
            IrcEvent::Nickname(server, nickname) => IrcEventView::Nickname(server@, nickname@),
            IrcEvent::PeerNickname(server, previous, nickname) => IrcEventView::PeerNickname(
                server@,
                previous@,
                nickname@,
            ),
            IrcEvent::Away(server, away) => IrcEventView::Away(server@, *away),
            IrcEvent::Message(message) => IrcEventView::Message(message@),
            IrcEvent::Status(server, text) => IrcEventView::Status(server@, text@),
            IrcEvent::Error(server, text) => IrcEventView::Error(server@, text@),
        }
    }
}

impl DeepView for IrcEvent {
    type V = IrcEventView;

    open spec fn deep_view(&self) -> IrcEventView {
        self@
    }
}

impl Clone for IrcEvent {
    fn clone(&self) -> (copy: Self)
        ensures
            copy@ == self@,
    {
        match self {
            IrcEvent::ControlApplied(server) => IrcEvent::ControlApplied(server.clone()),
            IrcEvent::ChannelControlApplied(server, channel) => IrcEvent::ChannelControlApplied(
                server.clone(),
                channel.clone(),
            ),
            IrcEvent::Connection(server, state) => IrcEvent::Connection(server.clone(), *state),
            IrcEvent::Channel(server, channel, status) => IrcEvent::Channel(
                server.clone(),
                channel.clone(),
                *status,
            ),
            IrcEvent::Nickname(server, nickname) => IrcEvent::Nickname(
                server.clone(),
                nickname.clone(),
            ),
            IrcEvent::PeerNickname(server, previous, nickname) => IrcEvent::PeerNickname(
                server.clone(),
                previous.clone(),
                nickname.clone(),
            ),
            IrcEvent::Away(server, away) => IrcEvent::Away(server.clone(), *away),
            IrcEvent::Message(message) => IrcEvent::Message(message.clone()),
            IrcEvent::Status(server, text) => IrcEvent::Status(server.clone(), text.clone()),
            IrcEvent::Error(server, text) => IrcEvent::Error(server.clone(), text.clone()),
        }
    }
}

/// How many messages may wait for a worker before queueing fails.
pub const OUTGOING_CAPACITY: usize = 64;

/// How many controls may wait for a worker before queueing fails.
pub const CONTROL_CAPACITY: usize = 16;

#[verifier::ext_equal]
pub ghost struct ClientConfigView {
    pub nickname: Option<Seq<char>>,
    pub username: Option<Seq<char>>,
    pub realname: Option<Seq<char>>,
    pub server: Option<Seq<char>>,
    pub port: Option<u16>,
    pub password: Option<Seq<char>>,
    pub use_tls: Option<bool>,
    pub channels: Seq<Seq<char>>,
}

/// The settings that an IRC client is made with.
#[derive(Debug, PartialEq, Eq)]
pub struct ClientConfig {
    pub nickname: Option<String>,
    pub username: Option<String>,
    pub realname: Option<String>,
    pub server: Option<String>,
    pub port: Option<u16>,
    pub password: Option<String>,
    pub use_tls: Option<bool>,
    pub channels: Vec<String>,
}

impl View for ClientConfig {
    type V = ClientConfigView;

    open spec fn view(&self) -> ClientConfigView {
        ClientConfigView {
            nickname: self.nickname.deep_view(),
            username: self.username.deep_view(),
            realname: self.realname.deep_view(),
            server: self.server.deep_view(),
            port: self.port,
            password: self.password.deep_view(),
            use_tls: self.use_tls,
            channels: self.channels.deep_view(),
        }
    }
}

/// The client settings for a server: its own, with the nickname as real name,
/// and the channels to join.
pub open spec fn client_config(server: ServerConfigView, channels: Seq<Seq<char>>) -> ClientConfigView {
    ClientConfigView {
        nickname: Some(server.nickname),
        username: Some(server.username),
        realname: Some(server.nickname),
        server: Some(server.server),
        port: Some(server.port),
        password: Some(server.password),
        use_tls: Some(server.use_tls),
        channels,
    }
}

/// The client settings for `server`, joining every channel in `channels`.
pub fn build_client_config(server: &ServerConfig, channels: &[String]) -> (config: ClientConfig)
    ensures
        config@ == client_config(server@, channels.deep_view()),
        config@.server == Some(server@.server),
        config@.port == Some(server@.port),
        config@.use_tls == Some(server@.use_tls),
        config@.nickname == Some(server@.nickname),
        config@.realname == Some(server@.nickname),
        config@.username == Some(server@.username),
        config@.password == Some(server@.password),
        config@.channels == channels.deep_view(),
{
    ClientConfig {
        nickname: Some(server.nickname.clone()),
        username: Some(server.username.clone()),
        realname: Some(server.nickname.clone()),
        server: Some(server.server.clone()),
        port: Some(server.port),
        password: Some(server.password.clone()),
        use_tls: Some(server.use_tls),
        channels: text::copied_all(channels),
    }
}

} // verus!
