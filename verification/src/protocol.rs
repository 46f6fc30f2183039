//! IRC wire rules: what may be sent, and what a received message means.
//!
//! A received message comes as a [`WireMessage`], plain values that the reader
//! of the socket fills in; what is sent is checked as the text of one line.

use std::time::SystemTime;

use vstd::prelude::*;
use vstd::utf8::encode_utf8;

use crate::model::{
    self, BufferKind, BufferKindView, ConnectionCommand, ConnectionCommandView, DeliveryState,
    Direction, MessageContent, MessageContentView, MessageKind, MessageKindView, OutgoingMessage,
    OutgoingMessageView, RoutedMessage, RoutedMessageView, ServerId,
};
use crate::text;

pub mod laws;

verus! {

/// Longest IRC line in bytes, with the carriage return and line feed that end it.
pub const MAX_WIRE_BYTES: usize = 512;

/// Safe to display or log: it never holds the user's input.
#[derive(Debug, Clone, Copy, PartialEq, Eq, Structural)]
pub enum SendError {
    InvalidCharacters,
    InvalidCommand,
    TooLong,
}

impl SendError {
    pub open spec fn text(self) -> Seq<char> {
        match self {
            SendError::InvalidCharacters => "message contains an invalid control character"@,
            SendError::InvalidCommand => "invalid IRC command"@,
            SendError::TooLong => "message exceeds the 512-byte IRC line limit"@,
        }
    }

    /// The error in words for the user.
    pub fn message(&self) -> (text: &'static str)
        ensures
            text@ == self.text(),
    {
        match self {
            SendError::InvalidCharacters => "message contains an invalid control character",
            SendError::InvalidCommand => "invalid IRC command",
            SendError::TooLong => "message exceeds the 512-byte IRC line limit",
        }
    }
}

pub ghost enum ClientCommandView {
    Privmsg { target: Seq<char>, text: Seq<char> },
    Nick(Seq<char>),
    Quit(Seq<char>),
    Away(Option<Seq<char>>),
    Join(Seq<char>),
    Part { channel: Seq<char>, reason: Option<Seq<char>> },
}

/// A command that the client itself makes up.
#[derive(Debug, PartialEq, Eq)]
pub enum ClientCommand {
    Privmsg { target: String, text: String },
    Nick(String),
    Quit(String),
    Away(Option<String>),
    Join(String),
    Part { channel: String, reason: Option<String> },
}

impl View for ClientCommand {
    type V = ClientCommandView;

    open spec fn view(&self) -> ClientCommandView {
        match self {
            ClientCommand::Privmsg { target, text } => ClientCommandView::Privmsg {
                target: target@,
                text: text@,
            },
            ClientCommand::Nick(nick) => ClientCommandView::Nick(nick@),
            ClientCommand::Quit(reason) => ClientCommandView::Quit(reason@),
            ClientCommand::Away(reason) => ClientCommandView::Away(reason.deep_view()),
            ClientCommand::Join(channel) => ClientCommandView::Join(channel@),
            ClientCommand::Part { channel, reason } => ClientCommandView::Part {
                channel: channel@,
                reason: reason.deep_view(),
            },
        }
    }
}

impl DeepView for ClientCommand {
    type V = ClientCommandView;

    open spec fn deep_view(&self) -> ClientCommandView {
        self@
    }
}

/// A last parameter as it stands on the wire: marked with a colon where it is
/// empty, holds a space or starts with a colon.
pub open spec fn last_parameter(value: Seq<char>) -> Seq<char> {
    if value.len() == 0 || value.contains(' ') || value[0] == ':' {
        seq![':'] + value
    } else {
        value
    }
}

/// A line with one parameter.
pub open spec fn line_with_one(command: Seq<char>, last: Seq<char>) -> Seq<char> {
    command.push(' ') + last_parameter(last) + "\r\n"@
}

/// A line with two parameters; an empty first one leaves no trace.
pub open spec fn line_with_two(command: Seq<char>, first: Seq<char>, last: Seq<char>) -> Seq<char> {
    if first.len() == 0 {
        line_with_one(command, last)
    } else {
        line_with_one(command.push(' ') + first, last)
    }
}

/// The line that a command is on the wire.
pub open spec fn client_line(command: ClientCommandView) -> Seq<char> {
    match command {
        ClientCommandView::Privmsg { target, text } => line_with_two("PRIVMSG"@, target, text),
        ClientCommandView::Nick(nick) => line_with_one("NICK"@, nick),
        ClientCommandView::Quit(reason) => line_with_one("QUIT"@, reason),
        ClientCommandView::Away(Some(reason)) => line_with_one("AWAY"@, reason),
        ClientCommandView::Away(None) => "AWAY"@ + "\r\n"@,
        ClientCommandView::Join(channel) => line_with_one("JOIN"@, channel),
        ClientCommandView::Part { channel, reason: Some(reason) } => line_with_two(
            "PART"@,
            channel,
            reason,
        ),
        ClientCommandView::Part { channel, reason: None } => line_with_one("PART"@, channel),
    }
}

/// Trusted: the irc crate writes the message of one command as a line, with
/// `Message`'s `Display`. The contract says which line: the command's word and
/// its parameters with single spaces between them, the last parameter marked as
/// [`last_parameter`] says, then a carriage return and a line feed.
#[verifier::external_body]
fn rendered(command: ClientCommand) -> (line: String)
    ensures
        line@ == client_line(command@),
{
    let wire = match command {
        ClientCommand::Privmsg { target, text } => ::irc::proto::Command::PRIVMSG(target, text),
        ClientCommand::Nick(nick) => ::irc::proto::Command::NICK(nick),
        ClientCommand::Quit(reason) => ::irc::proto::Command::QUIT(Some(reason)),
        ClientCommand::Away(reason) => ::irc::proto::Command::AWAY(reason),
        ClientCommand::Join(channel) => ::irc::proto::Command::JOIN(channel, None, None),
        ClientCommand::Part { channel, reason } => ::irc::proto::Command::PART(channel, reason),
    };
    ::irc::proto::Message::from(wire).to_string()
}

pub ghost enum LineCommandView {
    Join { channel: Seq<char>, key: Option<Seq<char>>, name: Option<Seq<char>> },
    Part { channel: Seq<char>, reason: Option<Seq<char>> },
    Raw(Seq<char>),
    Other,
}

/// The command of a line that the user wrote, as far as it is looked at.
#[derive(Debug, PartialEq, Eq)]
pub enum LineCommand {
    Join { channel: String, key: Option<String>, name: Option<String> },
    Part { channel: String, reason: Option<String> },
    /// A command word that is not a known one, or has unusual parameters.
    Raw(String),
    Other,
}

impl View for LineCommand {
    type V = LineCommandView;

    open spec fn view(&self) -> LineCommandView {
        match self {
            LineCommand::Join { channel, key, name } => LineCommandView::Join {
                channel: channel@,
                key: key.deep_view(),
                name: name.deep_view(),
            },
            LineCommand::Part { channel, reason } => LineCommandView::Part {
                channel: channel@,
                reason: reason.deep_view(),
            },
            LineCommand::Raw(word) => LineCommandView::Raw(word@),
            LineCommand::Other => LineCommandView::Other,
        }
    }
}

#[verifier::ext_equal]
pub ghost struct ParsedLineView {
    pub tagged: bool,
    pub prefixed: bool,
    pub command: LineCommandView,
    pub text: Seq<char>,
}

/// A line that the user wrote, taken apart.
#[derive(Debug, PartialEq, Eq)]
pub struct ParsedLine {
    /// The line has message tags.
    pub tagged: bool,
    /// The line names a source.
    pub prefixed: bool,
    pub command: LineCommand,
    /// The line as it goes out, with its line end.
    pub text: String,
}

impl View for ParsedLine {
    type V = ParsedLineView;

    open spec fn view(&self) -> ParsedLineView {
        ParsedLineView {
            tagged: self.tagged,
            prefixed: self.prefixed,
            command: self.command@,
            text: self.text@,
        }
    }
}

impl DeepView for ParsedLine {
    type V = ParsedLineView;

    open spec fn deep_view(&self) -> ParsedLineView {
        self@
    }
}

/// What the irc crate makes of a line: `None` where it does not parse.
pub uninterp spec fn parsed_line(line: Seq<char>) -> Option<ParsedLineView>;

/// Trusted: the irc crate's `FromStr` for `Message`, and `Display` for what it
/// parsed. The grammar takes pages, so the result is the name [`parsed_line`].
#[verifier::external_body]
fn parse_line(line: &str) -> (parsed: Option<ParsedLine>)
    ensures
        parsed.deep_view() == parsed_line(line@),
{
    let message: ::irc::proto::Message = line.parse().ok()?;
    let text = message.to_string();
    let (tagged, prefixed) = (message.tags.is_some(), message.prefix.is_some());
    let command = match message.command {
        ::irc::proto::Command::JOIN(channel, key, name) => LineCommand::Join { channel, key, name },
        ::irc::proto::Command::PART(channel, reason) => LineCommand::Part { channel, reason },
        ::irc::proto::Command::Raw(word, _) => LineCommand::Raw(word),
        _ => LineCommand::Other,
    };
    Some(ParsedLine { tagged, prefixed, command, text })
}

/// A line, if it keeps to the limit.
pub open spec fn within_limit(line: Seq<char>) -> Result<Seq<char>, SendError> {
    if encode_utf8(line).len() > MAX_WIRE_BYTES {
        Err(SendError::TooLong)
    } else {
        Ok(line)
    }
}

pub open spec fn alphanumeric(c: char) -> bool {
    ('0' <= c && c <= '9') || ('a' <= c && c <= 'z') || ('A' <= c && c <= 'Z')
}

/// A command word that can be sent without knowing it.
pub open spec fn command_word(word: Seq<char>) -> bool {
    word.len() > 0 && forall|i: int| 0 <= i < word.len() ==> alphanumeric(#[trigger] word[i])
}

/// What a taken-apart line goes out as.
pub open spec fn encoded_line(parsed: Option<ParsedLineView>) -> Result<Seq<char>, SendError> {
    match parsed {
        None => Err(SendError::InvalidCommand),
        Some(line) => match line.command {
            LineCommandView::Raw(word) if !command_word(word) => Err(SendError::InvalidCommand),
            _ => within_limit(line.text),
        },
    }
}

/// A name that can be addressed: one word that is not taken for a last parameter.
pub open spec fn addressable(name: Seq<char>) -> bool {
    name.len() > 0 && !text::has_space(name) && name[0] != ':'
}

/// What a message goes out as.
pub open spec fn encoded(message: OutgoingMessageView) -> Result<Seq<char>, SendError> {
    match message {
        OutgoingMessageView::Privmsg { target, text, .. } => if text::breaks_line(target)
            || text::breaks_line(text) {
            Err(SendError::InvalidCharacters)
        } else if !addressable(target) {
            Err(SendError::InvalidCommand)
        } else {
            within_limit(client_line(ClientCommandView::Privmsg { target, text }))
        },
        OutgoingMessageView::Raw { line, .. } => if text::breaks_line(line) {
            Err(SendError::InvalidCharacters)
        } else {
            encoded_line(parsed_line(line))
        },
    }
}

/// Whether a control can be sent, and if not, why.
pub open spec fn control_error(command: ConnectionCommandView) -> Option<SendError> {
    match command {
        ConnectionCommandView::Connect | ConnectionCommandView::Reconnect => None,
        ConnectionCommandView::Disconnect(reason) => if text::breaks_line(reason) {
            Some(SendError::InvalidCharacters)
        } else {
            limit_error(ClientCommandView::Quit(reason))
        },
        ConnectionCommandView::Nick(nick) => if text::breaks_line(nick) {
            Some(SendError::InvalidCharacters)
        } else if !addressable(nick) {
            Some(SendError::InvalidCommand)
        } else {
            limit_error(ClientCommandView::Nick(nick))
        },
        ConnectionCommandView::Away(reason) => if reason is Some && text::breaks_line(reason->0) {
            Some(SendError::InvalidCharacters)
        } else {
            limit_error(ClientCommandView::Away(reason))
        },
        ConnectionCommandView::Back => limit_error(ClientCommandView::Away(None)),
        ConnectionCommandView::Join(channel) => if text::breaks_line(channel) {
            Some(SendError::InvalidCharacters)
        } else if !model::channel_name(channel) {
            Some(SendError::InvalidCommand)
        } else {
            limit_error(ClientCommandView::Join(channel))
        },
        ConnectionCommandView::Part { channel, reason } => if text::breaks_line(channel) || (
        reason is Some && text::breaks_line(reason->0)) {
            Some(SendError::InvalidCharacters)
        } else if !model::channel_name(channel) {
            Some(SendError::InvalidCommand)
        } else {
            limit_error(ClientCommandView::Part { channel, reason })
        },
    }
}

pub open spec fn limit_error(command: ClientCommandView) -> Option<SendError> {
    match within_limit(client_line(command)) {
        Ok(_) => None,
        Err(error) => Some(error),
    }
}

/// The text of an encoding's outcome, for contracts.
pub open spec fn line_view(result: Result<String, SendError>) -> Result<Seq<char>, SendError> {
    match result {
        Ok(line) => Ok(line@),
        Err(error) => Err(error),
    }
}

fn check_limit(line: String) -> (result: Result<String, SendError>)
    ensures
        line_view(result) == within_limit(line@),
{
    if line.as_str().as_bytes().len() > MAX_WIRE_BYTES {
        Err(SendError::TooLong)
    } else {
        Ok(line)
    }
}

fn is_command_word(word: &str) -> (answer: bool)
    ensures
        answer == command_word(word@),
{
    let chars = text::chars_of(word);
    let mut i: usize = 0;
    while i < chars.len()
        invariant
            chars@ == word@,
            i <= chars.len(),
            forall|j: int| 0 <= j < i ==> alphanumeric(#[trigger] word@[j]),
        decreases chars.len() - i,
    {
        let c = chars[i];
        if !(('0' <= c && c <= '9') || ('a' <= c && c <= 'z') || ('A' <= c && c <= 'Z')) {
            assert(!alphanumeric(word@[i as int]));
            return false;
        }
        i = i + 1;
    }
    chars.len() > 0
}

fn is_addressable(name: &str) -> (answer: bool)
    ensures
        answer == addressable(name@),
{
    !name.is_empty() && !text::has_whitespace(name) && name.get_char(0) != ':'
}

/// The line that a taken-apart line goes out as.
pub fn encode_parsed(parsed: Option<ParsedLine>) -> (result: Result<String, SendError>)
    ensures
        line_view(result) == encoded_line(parsed.deep_view()),
{
    match parsed {
        None => Err(SendError::InvalidCommand),
        Some(line) => {
            match &line.command {
                LineCommand::Raw(word) => {
                    if !is_command_word(word.as_str()) {
                        return Err(SendError::InvalidCommand);
                    }
                },
                _ => {},
            }
            check_limit(line.text)
        },
    }
}

/// The line that a message goes out as. Encoded once before queueing; the
/// worker encodes again for what reaches it otherwise.
pub fn encode_outgoing(message: &OutgoingMessage) -> (result: Result<String, SendError>)
    ensures
        line_view(result) == encoded(message@),
{
    match message {
        OutgoingMessage::Privmsg { target, text, .. } => {
            if text::has_line_break(target.as_str()) || text::has_line_break(text.as_str()) {
                return Err(SendError::InvalidCharacters);
            }
            if !is_addressable(target.as_str()) {
                return Err(SendError::InvalidCommand);
            }
            check_limit(
                rendered(ClientCommand::Privmsg { target: target.clone(), text: text.clone() }),
            )
        },
        OutgoingMessage::Raw { line, .. } => {
            if text::has_line_break(line.as_str()) {
                return Err(SendError::InvalidCharacters);
            }
            encode_parsed(parse_line(line.as_str()))
        },
    }
}

fn check_command(command: ClientCommand) -> (result: Result<(), SendError>)
    ensures
        result == (match limit_error(command@) {
            None => Ok::<(), SendError>(()),
            Some(error) => Err(error),
        }),
{
    match check_limit(rendered(command)) {
        Ok(_) => Ok(()),
        Err(error) => Err(error),
    }
}

fn option_breaks_line(text: &Option<String>) -> (answer: bool)
    ensures
        answer == (text.deep_view() is Some && text::breaks_line(text.deep_view()->0)),
{
    match text {
        Some(text) => text::has_line_break(text.as_str()),
        None => false,
    }
}

/// Check a control before any state changes or queue writes.
pub fn validate_control(command: &ConnectionCommand) -> (result: Result<(), SendError>)
    ensures
        result == (match control_error(command@) {
            None => Ok::<(), SendError>(()),
            Some(error) => Err(error),
        }),
{
    match command {
        ConnectionCommand::Connect | ConnectionCommand::Reconnect => Ok(()),
        ConnectionCommand::Disconnect(reason) => {
            if text::has_line_break(reason.as_str()) {
                return Err(SendError::InvalidCharacters);
            }
            check_command(ClientCommand::Quit(reason.clone()))
        },
        ConnectionCommand::Nick(nick) => {
            if text::has_line_break(nick.as_str()) {
                return Err(SendError::InvalidCharacters);
            }
            if !is_addressable(nick.as_str()) {
                return Err(SendError::InvalidCommand);
            }
            check_command(ClientCommand::Nick(nick.clone()))
        },
        ConnectionCommand::Away(reason) => {
            if option_breaks_line(reason) {
                return Err(SendError::InvalidCharacters);
            }
            check_command(ClientCommand::Away(text::copied(reason)))
        },
        ConnectionCommand::Back => check_command(ClientCommand::Away(None)),
        ConnectionCommand::Join(channel) => {
            if text::has_line_break(channel.as_str()) {
                return Err(SendError::InvalidCharacters);
            }
            if !model::valid_channel_name(channel.as_str()) {
                return Err(SendError::InvalidCommand);
            }
            check_command(ClientCommand::Join(channel.clone()))
        },
        ConnectionCommand::Part { channel, reason } => {
            if text::has_line_break(channel.as_str()) || option_breaks_line(reason) {
                return Err(SendError::InvalidCharacters);
            }
            if !model::valid_channel_name(channel.as_str()) {
                return Err(SendError::InvalidCommand);
            }
            check_command(
                ClientCommand::Part { channel: channel.clone(), reason: text::copied(reason) },
            )
        },
    }
}

/// The channel control that a taken-apart line stands for.
pub open spec fn controlled(parsed: Option<ParsedLineView>) -> Result<
    Option<ConnectionCommandView>,
    SendError,
> {
    match parsed {
        None => Err(SendError::InvalidCommand),
        Some(line) => match line.command {
            LineCommandView::Join { channel, key, name } => if line.tagged || line.prefixed
                || key is Some || name is Some {
                Err(SendError::InvalidCommand)
            } else {
                checked(ConnectionCommandView::Join(channel))
            },
            LineCommandView::Part { channel, reason } => if line.tagged || line.prefixed {
                Err(SendError::InvalidCommand)
            } else {
                checked(ConnectionCommandView::Part { channel, reason })
            },
            LineCommandView::Raw(word) => if text::same_name(word, "JOIN"@) || text::same_name(
                word,
                "PART"@,
            ) {
                Err(SendError::InvalidCommand)
            } else {
                Ok(None)
            },
            LineCommandView::Other => Ok(None),
        },
    }
}

pub open spec fn checked(command: ConnectionCommandView) -> Result<
    Option<ConnectionCommandView>,
    SendError,
> {
    match control_error(command) {
        None => Ok(Some(command)),
        Some(error) => Err(error),
    }
}

/// The channel control that a console line stands for.
pub open spec fn controlled_raw(line: Seq<char>) -> Result<Option<ConnectionCommandView>, SendError> {
    if text::breaks_line(line) {
        Err(SendError::InvalidCharacters)
    } else {
        controlled(parsed_line(line))
    }
}

/// The meaning of a control's outcome, for contracts.
pub open spec fn control_view(result: Result<Option<ConnectionCommand>, SendError>) -> Result<
    Option<ConnectionCommandView>,
    SendError,
> {
    match result {
        Ok(Some(command)) => Ok(Some(command@)),
        Ok(None) => Ok(None),
        Err(error) => Err(error),
    }
}

fn check_control(command: ConnectionCommand) -> (result: Result<
    Option<ConnectionCommand>,
    SendError,
>)
    ensures
        control_view(result) == checked(command@),
{
    match validate_control(&command) {
        Ok(()) => Ok(Some(command)),
        Err(error) => Err(error),
    }
}

/// The channel control that a taken-apart line stands for. Joining and leaving
/// one plain channel are controls; other forms of JOIN and PART are refused.
pub fn control_of_parsed(parsed: Option<ParsedLine>) -> (result: Result<
    Option<ConnectionCommand>,
    SendError,
>)
    ensures
        control_view(result) == controlled(parsed.deep_view()),
{
    match parsed {
        None => Err(SendError::InvalidCommand),
        Some(line) => {
            let sourced = line.tagged || line.prefixed;
            match line.command {
                LineCommand::Join { channel, key, name } => {
                    if sourced || key.is_some() || name.is_some() {
                        Err(SendError::InvalidCommand)
                    } else {
                        check_control(ConnectionCommand::Join(channel))
                    }
                },
                LineCommand::Part { channel, reason } => {
                    if sourced {
                        Err(SendError::InvalidCommand)
                    } else {
                        check_control(ConnectionCommand::Part { channel, reason })
                    }
                },
                LineCommand::Raw(word) => {
                    if text::names_match(word.as_str(), "JOIN") || text::names_match(
                        word.as_str(),
                        "PART",
                    ) {
                        Err(SendError::InvalidCommand)
                    } else {
                        Ok(None)
                    }
                },
                LineCommand::Other => Ok(None),
            }
        },
    }
}

/// The channel control that a console line stands for, if it is one.
pub fn channel_control_from_raw(line: &str) -> (result: Result<
    Option<ConnectionCommand>,
    SendError,
>)
    ensures
        control_view(result) == controlled_raw(line@),
{
    if text::has_line_break(line) {
        return Err(SendError::InvalidCharacters);
    }
    control_of_parsed(parse_line(line))
}

pub ghost enum WireCommandView {
    Privmsg { target: Seq<char>, text: Seq<char> },
    Notice { target: Seq<char>, text: Seq<char> },
    Nick(Seq<char>),
    Join(Seq<char>),
    Part(Seq<char>),
    Kick { channel: Seq<char>, nick: Seq<char>, reason: Option<Seq<char>> },
    Error,
    Response(u16, Seq<Seq<char>>),
    Raw(Seq<char>, Seq<Seq<char>>),
    Other,
}

/// The command of a received message, as far as it is looked at.
#[derive(Debug, PartialEq, Eq)]
pub enum WireCommand {
    Privmsg { target: String, text: String },
    Notice { target: String, text: String },
    Nick(String),
    Join(String),
    Part(String),
    Kick { channel: String, nick: String, reason: Option<String> },
    Error,
    /// A numeric reply with its parameters.
    Response(u16, Vec<String>),
    /// A command or numeric that has no form of its own.
    Raw(String, Vec<String>),
    Other,
}

impl View for WireCommand {
    type V = WireCommandView;

    open spec fn view(&self) -> WireCommandView {
        match self {
            WireCommand::Privmsg { target, text } => WireCommandView::Privmsg {
                target: target@,
                text: text@,
            },
            WireCommand::Notice { target, text } => WireCommandView::Notice {
                target: target@,
                text: text@,
            },
            WireCommand::Nick(nick) => WireCommandView::Nick(nick@),
            WireCommand::Join(channel) => WireCommandView::Join(channel@),
            WireCommand::Part(channel) => WireCommandView::Part(channel@),
            WireCommand::Kick { channel, nick, reason } => WireCommandView::Kick {
                channel: channel@,
                nick: nick@,
                reason: reason.deep_view(),
            },
            WireCommand::Error => WireCommandView::Error,
            WireCommand::Response(code, args) => WireCommandView::Response(
                *code,
                args.deep_view(),
            ),
            WireCommand::Raw(word, args) => WireCommandView::Raw(word@, args.deep_view()),
            WireCommand::Other => WireCommandView::Other,
        }
    }
}

#[verifier::ext_equal]
pub ghost struct WireMessageView {
    pub tags: Seq<(Seq<char>, Option<Seq<char>>)>,
    pub source: Option<Seq<char>>,
    pub command: WireCommandView,
    pub line: Seq<char>,
}

/// A message received from a server.
#[derive(Debug, PartialEq, Eq)]
pub struct WireMessage {
    pub tags: Vec<(String, Option<String>)>,
    /// The nickname of the user that the message comes from, if it is from one.
    pub source: Option<String>,
    pub command: WireCommand,
    /// The message as one line of text.
    pub line: String,
}

impl View for WireMessage {
    type V = WireMessageView;

    open spec fn view(&self) -> WireMessageView {
        WireMessageView {
            tags: self.tags.deep_view(),
            source: self.source.deep_view(),
            command: self.command@,
            line: self.line@,
        }
    }
}

/// A message's destination and content, before it is stamped and addressed.
#[verifier::ext_equal]
pub ghost struct PayloadView {
    pub target: BufferKindView,
    pub nick: Seq<char>,
    pub text: Seq<char>,
    pub kind: MessageKindView,
}

struct Payload {
    target: BufferKind,
    nick: String,
    text: String,
    kind: MessageKind,
}

impl View for Payload {
    type V = PayloadView;

    closed spec fn view(&self) -> PayloadView {
        PayloadView {
            target: self.target@,
            nick: self.nick@,
            text: self.text@,
            kind: self.kind@,
        }
    }
}

impl DeepView for Payload {
    type V = PayloadView;

    closed spec fn deep_view(&self) -> PayloadView {
        self@
    }
}

/// Text that names a channel by its first character.
pub open spec fn is_channel(value: Seq<char>) -> bool {
    value.len() > 0 && (value[0] == '#' || value[0] == '&')
}

/// A name that is one of `names`, but for ASCII case.
pub open spec fn listed(names: Seq<Seq<char>>, name: Seq<char>) -> bool {
    exists|i: int| 0 <= i < names.len() && text::same_name(#[trigger] names[i], name)
}

/// What the body of a private message says, and how: chat, an action, or
/// nothing where it is some other query between clients.
pub open spec fn spoken(body: Seq<char>) -> Option<(Seq<char>, MessageKindView)> {
    let body = text::trim_end_set(body, seq!['\r', '\n']);
    if body.len() > 0 && body[0] == '\x01' {
        let inner = text::trim_end_set(body.drop_first(), seq!['\x01']);
        if text::has_prefix(inner, "ACTION "@) {
            Some(("* "@ + inner.skip("ACTION "@.len() as int), MessageKindView::Action))
        } else {
            None
        }
    } else {
        Some((body, MessageKindView::Chat))
    }
}

/// Where a private message goes: to its channel, or to its sender where it is
/// addressed to us.
pub open spec fn speech_target(
    target: Seq<char>,
    source: Seq<char>,
    channels: Seq<Seq<char>>,
    nickname: Seq<char>,
) -> Option<BufferKindView> {
    if listed(channels, target) {
        Some(BufferKindView::Channel(target))
    } else if text::same_name(target, nickname) {
        Some(BufferKindView::Query(source))
    } else {
        None
    }
}

/// Numerics of refusals.
pub open spec fn is_error_code(code: u16) -> bool {
    400 <= code < 600
}

/// Automatic floods after registration: feature lists, user counts and names.
pub open spec fn is_ignored_code(code: u16) -> bool {
    code == 5 || 251 <= code <= 255 || code == 265 || code == 266 || code == 353 || code == 366
}

/// The parameters of a refusal between our own name and the explanation.
pub open spec fn error_parameters(args: Seq<Seq<char>>) -> Seq<Seq<char>> {
    if args.len() >= 2 {
        args.subrange(1, args.len() - 1)
    } else {
        Seq::empty()
    }
}

/// The first channel among parameters.
pub open spec fn first_channel(parameters: Seq<Seq<char>>) -> Option<Seq<char>>
    decreases parameters.len(),
{
    if parameters.len() == 0 {
        None
    } else if is_channel(parameters[0]) {
        Some(parameters[0])
    } else {
        first_channel(parameters.drop_first())
    }
}

/// What a refusal is about: a channel where one is named, else the first parameter.
pub open spec fn error_target(args: Seq<Seq<char>>) -> Option<Seq<char>> {
    let parameters = error_parameters(args);
    match first_channel(parameters) {
        Some(channel) => Some(channel),
        None => if parameters.len() > 0 {
            Some(parameters[0])
        } else {
            None
        },
    }
}

/// What a refusal with this numeric says. The first parameter names us, the
/// last one explains.
pub open spec fn refusal(code: u16, args: Seq<Seq<char>>, channels: Seq<Seq<char>>) -> PayloadView {
    let target = error_target(args);
    let details = if args.len() > 0 {
        text::spaced(args.skip(1))
    } else {
        Seq::empty()
    };
    PayloadView {
        target: match target {
            Some(name) if listed(channels, name) => BufferKindView::Channel(name),
            _ => BufferKindView::Server,
        },
        nick: Seq::empty(),
        text: if details.len() == 0 {
            text::decimal(code as nat)
        } else {
            text::decimal(code as nat).push(' ') + details
        },
        kind: MessageKindView::Error {
            code,
            target,
            reason: if args.len() > 1 {
                args.last()
            } else {
                Seq::empty()
            },
        },
    }
}

/// A console line, unless there is nothing in it.
pub open spec fn console_line(target: BufferKindView, text: Seq<char>) -> Option<PayloadView> {
    let text = text::trim(text);
    if text.len() == 0 {
        None
    } else {
        Some(PayloadView { target, nick: Seq::empty(), text, kind: MessageKindView::Console })
    }
}

/// The numeric that says a peer is away.
pub const RPL_AWAY: u16 = 301;

/// Where a reply is shown: an away notice belongs to the peer's conversation.
pub open spec fn reply_target(code: u16, args: Seq<Seq<char>>) -> BufferKindView {
    if code == RPL_AWAY && args.len() > 2 {
        BufferKindView::Query(args[1])
    } else {
        BufferKindView::Server
    }
}

/// What a received message says, and to which conversation.
pub open spec fn payload(
    message: WireMessageView,
    channels: Seq<Seq<char>>,
    nickname: Seq<char>,
) -> Option<PayloadView> {
    match message.command {
        WireCommandView::Privmsg { target, text } => match message.source {
            None => None,
            Some(source) => match (
                speech_target(target, source, channels, nickname),
                spoken(text),
            ) {
                (Some(target), Some((text, kind))) => Some(
                    PayloadView { target, nick: source, text, kind },
                ),
                _ => None,
            },
        },
        WireCommandView::Response(code, args) => if is_error_code(code) {
            Some(refusal(code, args, channels))
        } else if is_ignored_code(code) || args.len() <= 1 || first_channel(args) is Some {
            None
        } else {
            console_line(reply_target(code, args), text::spaced(args.skip(1)))
        },
        WireCommandView::Raw(word, args) => match text::parsed_u16(word) {
            Some(code) if is_error_code(code) => Some(refusal(code, args, channels)),
            _ => None,
        },
        WireCommandView::Notice { target, text } => if is_channel(target) {
            None
        } else {
            console_line(BufferKindView::Server, text)
        },
        _ => None,
    }
}

/// The message for the application that a received one becomes.
pub open spec fn routed(
    payload: PayloadView,
    tags: Seq<(Seq<char>, Option<Seq<char>>)>,
    server: Seq<char>,
    at: SystemTime,
) -> RoutedMessageView {
    RoutedMessageView {
        server: text::lower(server),
        target: payload.target,
        content: MessageContentView {
            nick: payload.nick,
            text: payload.text,
            kind: payload.kind,
            direction: Direction::Incoming,
            received_at: at,
            tags,
            delivery: DeliveryState::Received,
        },
    }
}

/// What a received message becomes for the application, received at `at`.
pub open spec fn decoded(
    message: WireMessageView,
    server: Seq<char>,
    channels: Seq<Seq<char>>,
    nickname: Seq<char>,
    at: SystemTime,
) -> Option<RoutedMessageView> {
    match payload(message, channels, nickname) {
        Some(payload) => Some(routed(payload, message.tags, server, at)),
        None => None,
    }
}

fn names_channel(value: &str) -> (answer: bool)
    ensures
        answer == is_channel(value@),
{
    if value.is_empty() {
        false
    } else {
        let c = value.get_char(0);
        c == '#' || c == '&'
    }
}

/// Whether `name` is one of `names`, but for ASCII case.
pub fn is_listed(names: &[String], name: &str) -> (answer: bool)
    ensures
        answer == listed(names.deep_view(), name@),
{
    let mut i: usize = 0;
    while i < names.len()
        invariant
            i <= names.len(),
            forall|j: int| 0 <= j < i ==> !text::same_name(#[trigger] names.deep_view()[j], name@),
        decreases names.len() - i,
    {
        if text::names_match(names[i].as_str(), name) {
            assert(text::same_name(names.deep_view()[i as int], name@));
            return true;
        }
        i = i + 1;
    }
    false
}

/// What the body of a private message says, and how.
pub(crate) fn speech(body: &str) -> (spoken_text: Option<(String, MessageKind)>)
    ensures
        match spoken_text {
            Some((text, kind)) => spoken(body@) == Some((text@, kind@)),
            None => spoken(body@) is None,
        },
{
    assert(['\r', '\n']@ =~= seq!['\r', '\n']);
    assert(['\x01']@ =~= seq!['\x01']);
    let body = text::trimmed_end_set(body, &['\r', '\n']);
    if !body.is_empty() && body.get_char(0) == '\x01' {
        let rest = text::tail(body, 1);
        assert(rest@ =~= body@.drop_first());
        let inner = text::trimmed_end_set(rest, &['\x01']);
        match text::after_prefix(inner, "ACTION ") {
            Some(action) => {
                let mut shown = "* ".to_owned();
                shown.append(action);
                Some((shown, MessageKind::Action))
            },
            None => None,
        }
    } else {
        Some((body.to_owned(), MessageKind::Chat))
    }
}

fn find_channel(args: &Vec<String>, from: usize, to: usize) -> (found: Option<String>)
    requires
        from <= to <= args@.len(),
    ensures
        found.deep_view() == first_channel(args.deep_view().subrange(from as int, to as int)),
{
    let mut i: usize = from;
    let ghost parameters = args.deep_view().subrange(from as int, to as int);
    assert(parameters.skip(0) =~= parameters);
    while i < to
        invariant
            from <= i <= to <= args@.len(),
            parameters == args.deep_view().subrange(from as int, to as int),
            first_channel(parameters) == first_channel(parameters.skip(i - from)),
        decreases to - i,
    {
        let ghost rest = parameters.skip(i - from);
        assert(rest[0] == args@[i as int]@);
        if names_channel(args[i].as_str()) {
            return Some(args[i].clone());
        }
        assert(rest.drop_first() =~= parameters.skip(i - from + 1));
        i = i + 1;
    }
    None
}

fn refuse(code: u16, args: &Vec<String>, channels: &[String]) -> (payload: Payload)
    ensures
        payload@ == refusal(code, args.deep_view(), channels.deep_view()),
{
    let count: usize = args.len();
    let ghost all = args.deep_view();
    let target = if count >= 2 {
        match find_channel(args, 1, count - 1) {
            Some(channel) => Some(channel),
            None => if count > 2 {
                assert(error_parameters(all)[0] == args@[1]@);
                Some(args[1].clone())
            } else {
                None
            },
        }
    } else {
        None
    };
    assert(target.deep_view() == error_target(all));
    let destination = match &target {
        Some(name) => if is_listed(channels, name.as_str()) {
            BufferKind::Channel(name.clone())
        } else {
            BufferKind::Server
        },
        None => BufferKind::Server,
    };
    let details = text::join_from(args, 1);
    let mut shown = text::number(code as u64);
    if !details.as_str().is_empty() {
        shown.push(' ');
        shown.append(details.as_str());
    }
    let reason = if count > 1 {
        args[count - 1].clone()
    } else {
        String::new()
    };
    Payload {
        target: destination,
        nick: String::new(),
        text: shown,
        kind: MessageKind::Error { code, target, reason },
    }
}

fn console(target: BufferKind, text: &str) -> (line: Option<Payload>)
    ensures
        line.deep_view() == console_line(target@, text@),
{
    let text = text::trimmed(text);
    if text.is_empty() {
        None
    } else {
        Some(
            Payload {
                target,
                nick: String::new(),
                text: text.to_owned(),
                kind: MessageKind::Console,
            },
        )
    }
}

fn read_payload(message: &WireMessage, channels: &[String], nickname: &str) -> (read: Option<
    Payload,
>)
    ensures
        read.deep_view() == payload(message@, channels.deep_view(), nickname@),
{
    match &message.command {
        WireCommand::Privmsg { target, text } => {
            let source = match &message.source {
                Some(source) => source,
                None => return None,
            };
            let destination = if is_listed(channels, target.as_str()) {
                BufferKind::Channel(target.clone())
            } else if text::names_match(target.as_str(), nickname) {
                BufferKind::Query(source.clone())
            } else {
                return None;
            };
            match speech(text.as_str()) {
                Some((text, kind)) => Some(
                    Payload { target: destination, nick: source.clone(), text, kind },
                ),
                None => None,
            }
        },
        WireCommand::Response(code, args) => {
            let code: u16 = *code;
            if 400 <= code && code < 600 {
                return Some(refuse(code, args, channels));
            }
            if code == 5 || (251 <= code && code <= 255) || code == 265 || code == 266 || code
                == 353 || code == 366 {
                return None;
            }
            assert(args.deep_view().subrange(0, args@.len() as int) =~= args.deep_view());
            if args.len() <= 1 || find_channel(args, 0, args.len()).is_some() {
                return None;
            }
            let target = if code == RPL_AWAY && args.len() > 2 {
                BufferKind::Query(args[1].clone())
            } else {
                BufferKind::Server
            };
            let joined = text::join_from(args, 1);
            console(target, joined.as_str())
        },
        WireCommand::Raw(word, args) => match text::parse_u16(word.as_str()) {
            Some(code) => if 400 <= code && code < 600 {
                Some(refuse(code, args, channels))
            } else {
                None
            },
            None => None,
        },
        WireCommand::Notice { target, text } => {
            if names_channel(target.as_str()) {
                None
            } else {
                console(BufferKind::Server, text.as_str())
            }
        },
        _ => None,
    }
}

/// The view of a message that may be none, for contracts.
pub open spec fn routed_view(message: Option<RoutedMessage>) -> Option<RoutedMessageView> {
    match message {
        Some(message) => Some(message@),
        None => None,
    }
}

/// Decode one received message into one destination and payload, received at `at`.
pub fn decode_message_at(
    message: &WireMessage,
    server: &str,
    channels: &[String],
    nickname: &str,
    at: SystemTime,
) -> (decoded_message: Option<RoutedMessage>)
    ensures
        routed_view(decoded_message) == decoded(
            message@,
            server@,
            channels.deep_view(),
            nickname@,
            at,
        ),
{
    match read_payload(message, channels, nickname) {
        Some(payload) => Some(
            RoutedMessage {
                server: ServerId::new(server),
                target: payload.target,
                content: MessageContent {
                    nick: payload.nick,
                    text: payload.text,
                    kind: payload.kind,
                    direction: Direction::Incoming,
                    received_at: at,
                    tags: model::copied_tags(&message.tags),
                    delivery: DeliveryState::Received,
                },
            },
        ),
        None => None,
    }
}

/// Decode one received message into one destination and payload, received now.
pub fn decode_message(
    message: &WireMessage,
    server: &str,
    channels: &[String],
    nickname: &str,
) -> (decoded_message: Option<RoutedMessage>)
    ensures
        match decoded_message {
            Some(routed) => decoded(
                message@,
                server@,
                channels.deep_view(),
                nickname@,
                routed@.content.received_at,
            ) == Some(routed@),
            None => payload(message@, channels.deep_view(), nickname@) is None,
        },
{
    decode_message_at(message, server, channels, nickname, model::clock())
}

/// What is sent keeps to the limit, and nothing that would break a line apart
/// is sent.
pub proof fn law_sent_lines_keep_the_limit(message: OutgoingMessageView)
    ensures
        encoded(message) is Ok ==> encode_utf8(encoded(message)->Ok_0).len() <= MAX_WIRE_BYTES,
        (match message {
            OutgoingMessageView::Privmsg { target, text, .. } => text::breaks_line(target)
                || text::breaks_line(text),
            OutgoingMessageView::Raw { line, .. } => text::breaks_line(line),
        }) <==> encoded(message) == Err::<Seq<char>, SendError>(SendError::InvalidCharacters),
{
}

/// Something said goes out as one line: the line end stands at its end and
/// nowhere before.
pub proof fn law_something_said_is_one_line(message: OutgoingMessageView, i: int)
    requires
        message is Privmsg,
        encoded(message) is Ok,
        0 <= i < encoded(message)->Ok_0.len() - 2,
    ensures
        !text::line_breaking(encoded(message)->Ok_0[i]),
        encoded(message)->Ok_0.skip(encoded(message)->Ok_0.len() - 2) == seq!['\r', '\n'],
{
    reveal_strlit("PRIVMSG");
    reveal_strlit("\r\n");
    if let OutgoingMessageView::Privmsg { target, text, .. } = message {
        let line = encoded(message)->Ok_0;
        let start = "PRIVMSG"@.push(' ') + target;
        let last = last_parameter(text);
        assert(line == start.push(' ') + last + "\r\n"@);
        assert(line.skip(line.len() - 2) =~= seq!['\r', '\n']);
        if i < 7 {
            assert(line[i] == "PRIVMSG"@[i]);
        } else if 8 <= i < start.len() {
            assert(line[i] == target[i - 8]);
        } else if start.len() < i {
            let k = i - start.len() - 1;
            assert(line[i] == last[k]);
            if last.len() > text.len() {
                if k > 0 {
                    assert(last[k] == text[k - 1]);
                }
            } else {
                assert(last[k] == text[k]);
            }
        }
    }
}

/// A control that is found valid goes out as a line within the limit.
pub proof fn law_valid_controls_keep_the_limit(command: ConnectionCommandView)
    requires
        control_error(command) is None,
    ensures
        match command {
            ConnectionCommandView::Connect | ConnectionCommandView::Reconnect => true,
            ConnectionCommandView::Disconnect(reason) => fits(ClientCommandView::Quit(reason)),
            ConnectionCommandView::Nick(nick) => fits(ClientCommandView::Nick(nick)),
            ConnectionCommandView::Away(reason) => fits(ClientCommandView::Away(reason)),
            ConnectionCommandView::Back => fits(ClientCommandView::Away(None)),
            ConnectionCommandView::Join(channel) => fits(ClientCommandView::Join(channel)),
            ConnectionCommandView::Part { channel, reason } => fits(
                ClientCommandView::Part { channel, reason },
            ),
        },
{
}

/// A command whose line is within the limit.
pub open spec fn fits(command: ClientCommandView) -> bool {
    encode_utf8(client_line(command)).len() <= MAX_WIRE_BYTES
}

/// Nothing is shown of what is said to others: a private message reaches a
/// conversation only if it is addressed to us or to a known channel, and then
/// that of its sender or of the channel.
pub proof fn law_speech_is_for_us_or_a_known_channel(
    message: WireMessageView,
    server: Seq<char>,
    channels: Seq<Seq<char>>,
    nickname: Seq<char>,
    at: SystemTime,
)
    requires
        message.command is Privmsg,
        decoded(message, server, channels, nickname, at) is Some,
    ensures
        message.source is Some,
        ({
            let target = message.command->Privmsg_target;
            let shown = decoded(message, server, channels, nickname, at)->0;
            &&& shown.content.nick == message.source->0
            &&& shown.content.direction == Direction::Incoming
            &&& match shown.target {
                BufferKindView::Channel(channel) => channel == target && listed(channels, target),
                BufferKindView::Query(peer) => peer == message.source->0 && text::same_name(
                    target,
                    nickname,
                ),
                BufferKindView::Server => false,
            }
        }),
{
}

/// A refusal is always shown, and once: in the conversation of the known channel
/// that it is about, else on the server's console.
pub proof fn law_refusals_are_shown_where_they_belong(
    message: WireMessageView,
    server: Seq<char>,
    channels: Seq<Seq<char>>,
    nickname: Seq<char>,
    at: SystemTime,
)
    requires
        message.command matches WireCommandView::Response(code, _) && is_error_code(code),
    ensures
        ({
            let about = error_target(message.command->Response_1);
            let shown = decoded(message, server, channels, nickname, at);
            &&& shown is Some
            &&& shown->0.content.kind is Error
            &&& shown->0.target == (if about is Some && listed(channels, about->0) {
                BufferKindView::Channel(about->0)
            } else {
                BufferKindView::Server
            })
        }),
{
}

/// Notices never count as something a peer says: they are console lines.
pub proof fn law_notices_stay_on_the_console(
    message: WireMessageView,
    server: Seq<char>,
    channels: Seq<Seq<char>>,
    nickname: Seq<char>,
    at: SystemTime,
)
    requires
        message.command is Notice,
        decoded(message, server, channels, nickname, at) is Some,
    ensures
        decoded(message, server, channels, nickname, at)->0.target is Server,
        decoded(message, server, channels, nickname, at)->0.content.kind is Console,
{
}

} // verus!
