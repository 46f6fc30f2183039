//! One connection without retries: what it reports and what it sends.
//!
//! The program connects, registers and reads the socket. Each decision on the way is
//! made here, on plain values.

use vstd::prelude::*;

pub use crate::connection::build_client_config;
pub use crate::model::OutgoingMessage;

use crate::message::{channel_chat, console_line, ChatMessage, ChatMessageView};
use crate::model::OutgoingMessageView;
use crate::protocol::{WireCommand, WireCommandView, WireMessage, WireMessageView};
use crate::text;

verus! {

#[verifier::ext_equal]
pub ghost enum IrcEventView {
    Message(ChatMessageView),
    Status(Seq<char>, Seq<char>),
    Error(Seq<char>, Seq<char>),
}

/// What a connection reports. A server is named by its configured name.
#[derive(Debug, PartialEq, Eq)]
pub enum IrcEvent {
    /// A message in one of the joined channels, or a line for the console.
    Message(ChatMessage),
    /// Something to know about the connection to a server.
    Status(String, String),
    /// A failure of the connection to a server, which ends it.
    Error(String, String),
}

impl View for IrcEvent {
    type V = IrcEventView;

    open spec fn view(&self) -> IrcEventView {
        match self {
            IrcEvent::Message(message) => IrcEventView::Message(message@),
            IrcEvent::Status(server, text) => IrcEventView::Status(server@, text@),
            IrcEvent::Error(server, text) => IrcEventView::Error(server@, text@),
        }
    }
}

impl DeepView for IrcEvent {
    type V = IrcEventView;

    open spec fn deep_view(&self) -> IrcEventView {
        self@
    }
}

impl Clone for IrcEvent {
    fn clone(&self) -> (copy: Self)
        ensures
            copy == *self,
    {
        match self {
            IrcEvent::Message(message) => IrcEvent::Message(message.clone()),
            IrcEvent::Status(server, text) => IrcEvent::Status(server.clone(), text.clone()),
            IrcEvent::Error(server, text) => IrcEvent::Error(server.clone(), text.clone()),
        }
    }
}

/// The report of a connection that is registered with `host`.
pub fn connected(label: &str, host: &str) -> (event: IrcEvent)
    ensures
        event@ == IrcEventView::Status(label@, "connected to "@ + host@),
{
    let mut text = "connected to ".to_owned();
    text.append(host);
    IrcEvent::Status(label.to_owned(), text)
}

/// The last report of a connection: it was closed, or it failed.
pub open spec fn last_report(
    label: Seq<char>,
    host: Seq<char>,
    error: Option<Seq<char>>,
) -> IrcEventView {
    match error {
        Some(error) => IrcEventView::Error(label, error),
        None => IrcEventView::Status(
            label,
            "disconnected from "@ + host + " (connection closed)"@,
        ),
    }
}

/// A connection always ends with a report.
pub fn ended(label: &str, host: &str, error: Option<&str>) -> (event: IrcEvent)
    ensures
        event@ == last_report(label@, host@, error.deep_view()),
{
    match error {
        Some(error) => IrcEvent::Error(label.to_owned(), error.to_owned()),
        None => {
            let mut text = "disconnected from ".to_owned();
            text.append(host);
            text.append(" (connection closed)");
            IrcEvent::Status(label.to_owned(), text)
        },
    }
}

#[verifier::ext_equal]
pub ghost enum SendingView {
    Stop,
    Privmsg { target: Seq<char>, text: Seq<char> },
    Raw { command: Seq<char>, arguments: Seq<Seq<char>> },
}

/// What is done with the next item of the outgoing queue.
#[derive(Debug, PartialEq, Eq)]
pub enum Sending {
    /// The queue is closed, so the connection ends.
    Stop,
    Privmsg { target: String, text: String },
    Raw { command: String, arguments: Vec<String> },
}

impl View for Sending {
    type V = SendingView;

    open spec fn view(&self) -> SendingView {
        match self {
            Sending::Stop => SendingView::Stop,
            Sending::Privmsg { target, text } => SendingView::Privmsg {
                target: target@,
                text: text@,
            },
            Sending::Raw { command, arguments } => SendingView::Raw {
                command: command@,
                arguments: arguments.deep_view(),
            },
        }
    }
}

/// A raw line is a command and its arguments, word by word.
pub open spec fn sending(message: Option<OutgoingMessageView>) -> SendingView {
    match message {
        None => SendingView::Stop,
        Some(OutgoingMessageView::Privmsg { target, text, .. }) => SendingView::Privmsg {
            target,
            text,
        },
        Some(OutgoingMessageView::Raw { line, .. }) => {
            let words = text::words(line);
            if words.len() == 0 {
                SendingView::Raw { command: Seq::empty(), arguments: Seq::empty() }
            } else {
                SendingView::Raw { command: words[0], arguments: words.skip(1) }
            }
        },
    }
}

/// Find what is done with the next item of the outgoing queue.
pub fn outgoing(message: Option<OutgoingMessage>) -> (next: Sending)
    ensures
        next@ == sending(message.deep_view()),
{
    match message {
        None => Sending::Stop,
        Some(OutgoingMessage::Privmsg { target, text, .. }) => Sending::Privmsg { target, text },
        Some(OutgoingMessage::Raw { line, .. }) => {
            let mut words = text::words_of(line.as_str());
            let ghost all = words.deep_view();
            if words.len() == 0 {
                let command = String::new();
                assert(command@ =~= Seq::empty());
                assert(all =~= Seq::empty());
                return Sending::Raw { command, arguments: words };
            }
            let command = words.remove(0);
            assert(words.deep_view() =~= all.skip(1));
            Sending::Raw { command, arguments: words }
        },
    }
}

/// The numerics that list who is on a channel.
pub const RPL_NAMREPLY: u16 = 353;

pub const RPL_ENDOFNAMES: u16 = 366;

/// A reply that lists who is on a channel.
pub open spec fn names_reply(message: WireMessageView) -> bool {
    message.command matches WireCommandView::Response(code, _) && (code == RPL_NAMREPLY || code
        == RPL_ENDOFNAMES)
}

/// What a received message is reported as: chat in one of the channels, or a line
/// for the server's console. Lists of names would flood the console.
pub open spec fn reported(
    message: WireMessageView,
    label: Seq<char>,
    channels: Seq<Seq<char>>,
) -> Option<ChatMessageView> {
    match channel_chat(message, label, channels) {
        Some(chat) => Some(chat),
        None => if names_reply(message) {
            None
        } else {
            console_line(message, label)
        },
    }
}

fn is_names_reply(message: &WireMessage) -> (answer: bool)
    ensures
        answer == names_reply(message@),
{
    match &message.command {
        WireCommand::Response(code, _) => *code == RPL_NAMREPLY || *code == RPL_ENDOFNAMES,
        _ => false,
    }
}

/// Find what a received message is reported as.
pub fn received(message: &WireMessage, label: &str, channels: &[String]) -> (event: Option<IrcEvent>)
    ensures
        event.deep_view() == (match reported(message@, label@, channels.deep_view()) {
            Some(chat) => Some(IrcEventView::Message(chat)),
            None => None,
        }),
{
    match ChatMessage::from_proto(message, label, channels) {
        Some(chat) => Some(IrcEvent::Message(chat)),
        None => if is_names_reply(message) {
            None
        } else {
            match ChatMessage::raw_from_proto(message, label) {
                Some(line) => Some(IrcEvent::Message(line)),
                None => None,
            }
        },
    }
}

/// Something to say is sent as it is, a raw line as its first word and the words
/// behind it, and the end of the queue ends the connection.
pub proof fn law_the_queue_is_sent_word_for_word(
    server: Seq<char>,
    target: Seq<char>,
    said: Seq<char>,
    before: Seq<char>,
    command: Seq<char>,
    rest: Seq<char>,
)
    requires
        text::blank(before),
        command.len() > 0,
        forall|i: int| 0 <= i < command.len() ==> !text::whitespace(#[trigger] command[i]),
        rest.len() > 0 ==> text::whitespace(rest[0]),
    ensures
        sending(None) == SendingView::Stop,
        sending(Some(OutgoingMessageView::Privmsg { server, target, text: said })) == (
        SendingView::Privmsg { target, text: said }),
        sending(Some(OutgoingMessageView::Raw { server, line: before + command + rest })) == (
        SendingView::Raw { command, arguments: text::words(rest) }),
        sending(Some(OutgoingMessageView::Raw { server, line: before })) == (SendingView::Raw {
            command: Seq::empty(),
            arguments: Seq::empty(),
        }),
{
    text::law_words_are_what_whitespace_parts(before, command, rest);
    let words = text::words(before + command + rest);
    assert(words[0] == command);
    assert(words.skip(1) =~= text::words(rest));
}

/// What a user says in a known channel is reported there, in their name; replies and
/// notices are reported on the console, as they stand on the wire; and nothing else
/// is, nor any list of names.
pub proof fn law_what_is_received_is_reported(
    message: WireMessageView,
    label: Seq<char>,
    channels: Seq<Seq<char>>,
    line: Seq<char>,
    end: Seq<char>,
)
    requires
        message.line == line + end,
        line.len() > 0 ==> line.last() != '\r' && line.last() != '\n',
        forall|i: int| 0 <= i < end.len() ==> #[trigger] end[i] == '\r' || end[i] == '\n',
    ensures
        ({
            let told = reported(message, label, channels);
            &&& message.command matches WireCommandView::Privmsg { target, text: body } ==> {
                let known = exists|i: int|
                    0 <= i < channels.len() && text::same_name(#[trigger] channels[i], target);
                &&& told is Some <==> known && message.source is Some && crate::protocol::spoken(
                    body,
                ) is Some
                &&& told is Some ==> {
                    &&& told->0.server == label
                    &&& told->0.channel == target
                    &&& Some(told->0.nick) == message.source
                    &&& crate::protocol::spoken(body) matches Some((said, _)) && told->0.text == said
                }
            }
            &&& message.command matches WireCommandView::Response(code, _) ==> {
                &&& code == 353 || code == 366 ==> told is None
                &&& code != 353 && code != 366 ==> told == Some(
                    ChatMessageView {
                        server: label,
                        channel: Seq::empty(),
                        nick: Seq::empty(),
                        text: line,
                    },
                )
            }
            &&& message.command is Notice ==> told == Some(
                ChatMessageView {
                    server: label,
                    channel: Seq::empty(),
                    nick: Seq::empty(),
                    text: line,
                },
            )
            &&& !(message.command is Privmsg || message.command is Response || message.command
                is Notice) ==> told is None
        }),
{
    let ends = seq!['\r', '\n'];
    assert(ends[0] == '\r' && ends[1] == '\n');
    assert forall|i: int| 0 <= i < end.len() implies ends.contains(#[trigger] end[i]) by {
        assert(end[i] == ends[0] || end[i] == ends[1]);
    }
    text::law_trailing_characters_are_dropped(line, end, ends);
}

/// A connection that fails ends with its error, and one that is closed says from
/// where, each under the name of its server.
pub proof fn law_connections_end_with_a_report(
    label: Seq<char>,
    host: Seq<char>,
    error: Seq<char>,
)
    ensures
        last_report(label, host, Some(error)) == IrcEventView::Error(label, error),
        last_report(label, host, None) == IrcEventView::Status(
            label,
            "disconnected from "@ + host + " (connection closed)"@,
        ),
{
}

} // verus!
