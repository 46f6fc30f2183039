//! Local slash commands, parsed without regard to connections and execution.

use vstd::prelude::*;

use crate::model;
use crate::text;

pub mod laws;

verus! {

#[verifier::ext_equal]
pub ghost struct SlashCommandView {
    pub name: Seq<char>,
    pub arguments: Seq<char>,
}

/// A command token and its argument body, without interpreting their meaning.
#[derive(Debug, PartialEq, Eq)]
pub struct SlashCommand {
    pub name: String,
    pub arguments: String,
}

impl View for SlashCommand {
    type V = SlashCommandView;

    open spec fn view(&self) -> SlashCommandView {
        SlashCommandView { name: self.name@, arguments: self.arguments@ }
    }
}

impl Clone for SlashCommand {
    fn clone(&self) -> (copy: Self)
        ensures
            copy == *self,
    {
        SlashCommand { name: self.name.clone(), arguments: self.arguments.clone() }
    }
}

#[derive(Debug, Clone, Copy, PartialEq, Eq, Structural)]
pub enum SlashParseError {
    MissingName,
}

pub ghost enum CommandActionView {
    Join(Seq<char>),
    Part { channel: Option<Seq<char>>, reason: Option<Seq<char>> },
    Query(Seq<char>),
    Close,
    Nick(Seq<char>),
    Away(Option<Seq<char>>),
    Back,
    Connect(Option<Seq<char>>),
    Reconnect(Option<Seq<char>>),
    Disconnect(Seq<char>),
}

#[derive(Debug, PartialEq, Eq)]
pub enum CommandAction {
    Join(String),
    Part { channel: Option<String>, reason: Option<String> },
    Query(String),
    Close,
    Nick(String),
    Away(Option<String>),
    Back,
    Connect(Option<String>),
    Reconnect(Option<String>),
    Disconnect(String),
}

impl View for CommandAction {
    type V = CommandActionView;

    open spec fn view(&self) -> CommandActionView {
        match self {
            CommandAction::Join(channel) => CommandActionView::Join(channel@),
            CommandAction::Part { channel, reason } => CommandActionView::Part {
                channel: channel.deep_view(),
                reason: reason.deep_view(),
            },
            CommandAction::Query(nickname) => CommandActionView::Query(nickname@),
            CommandAction::Close => CommandActionView::Close,
            CommandAction::Nick(nick) => CommandActionView::Nick(nick@),
            CommandAction::Away(reason) => CommandActionView::Away(reason.deep_view()),
            CommandAction::Back => CommandActionView::Back,
            CommandAction::Connect(server) => CommandActionView::Connect(server.deep_view()),
            CommandAction::Reconnect(server) => CommandActionView::Reconnect(server.deep_view()),
            CommandAction::Disconnect(reason) => CommandActionView::Disconnect(reason@),
        }
    }
}

impl Clone for CommandAction {
    fn clone(&self) -> (copy: Self)
        ensures
            copy == *self,
    {
        match self {
            CommandAction::Join(channel) => CommandAction::Join(channel.clone()),
            CommandAction::Part { channel, reason } => CommandAction::Part {
                channel: text::copied(channel),
                reason: text::copied(reason),
            },
            CommandAction::Query(nickname) => CommandAction::Query(nickname.clone()),
            CommandAction::Close => CommandAction::Close,
            CommandAction::Nick(nick) => CommandAction::Nick(nick.clone()),
            CommandAction::Away(reason) => CommandAction::Away(text::copied(reason)),
            CommandAction::Back => CommandAction::Back,
            CommandAction::Connect(server) => CommandAction::Connect(text::copied(server)),
            CommandAction::Reconnect(server) => CommandAction::Reconnect(text::copied(server)),
            CommandAction::Disconnect(reason) => CommandAction::Disconnect(reason.clone()),
        }
    }
}

#[derive(Debug, Clone, Copy, PartialEq, Eq, Structural)]
pub enum CommandError {
    Unsupported,
    InvalidArguments,
}

/// Arguments, or none where they are empty.
pub open spec fn nonempty(arguments: Seq<char>) -> Option<Seq<char>> {
    if arguments.len() > 0 {
        Some(arguments)
    } else {
        None
    }
}

/// Arguments that are exactly one word.
pub open spec fn single_word(arguments: Seq<char>) -> bool {
    arguments.len() > 0 && !text::has_space(arguments)
}

/// Arguments that name a nickname to change to.
pub open spec fn requested_nick(arguments: Seq<char>) -> bool {
    &&& single_word(arguments)
    &&& text::free_of(arguments, |c: char| model::nickname_forbidden(c))
    &&& !model::nickname_prefix(arguments[0])
}

/// Leaving a channel that the arguments may name, for a reason they may give.
pub open spec fn part_action(arguments: Seq<char>) -> Result<CommandActionView, CommandError> {
    let first = text::first_word(arguments);
    if first.len() > 0 && (first[0] == '#' || first[0] == '&') {
        if model::channel_name(first) {
            Ok(
                CommandActionView::Part {
                    channel: Some(first),
                    reason: nonempty(text::trim_start(text::after_first_word(arguments))),
                },
            )
        } else {
            Err(CommandError::InvalidArguments)
        }
    } else {
        Ok(CommandActionView::Part { channel: None, reason: nonempty(arguments) })
    }
}

/// What a command with this name and these arguments asks for.
pub open spec fn requested_action(command: SlashCommandView) -> Result<
    CommandActionView,
    CommandError,
> {
    let name = command.name;
    let arguments = command.arguments;
    let invalid = Err(CommandError::InvalidArguments);
    if text::breaks_line(arguments) {
        invalid
    } else if name == "join"@ {
        if model::channel_name(arguments) {
            Ok(CommandActionView::Join(arguments))
        } else {
            invalid
        }
    } else if name == "part"@ {
        part_action(arguments)
    } else if name == "query"@ {
        if model::query_nickname(arguments) {
            Ok(CommandActionView::Query(arguments))
        } else {
            invalid
        }
    } else if name == "close"@ {
        if arguments.len() == 0 {
            Ok(CommandActionView::Close)
        } else {
            invalid
        }
    } else if name == "nick"@ {
        if requested_nick(arguments) {
            Ok(CommandActionView::Nick(arguments))
        } else {
            invalid
        }
    } else if name == "away"@ {
        Ok(CommandActionView::Away(nonempty(arguments)))
    } else if name == "back"@ {
        if arguments.len() == 0 {
            Ok(CommandActionView::Back)
        } else {
            invalid
        }
    } else if name == "connect"@ {
        if !text::has_space(arguments) {
            Ok(CommandActionView::Connect(nonempty(arguments)))
        } else {
            invalid
        }
    } else if name == "reconnect"@ {
        if !text::has_space(arguments) {
            Ok(CommandActionView::Reconnect(nonempty(arguments)))
        } else {
            invalid
        }
    } else if name == "disconnect"@ || name == "quit"@ {
        Ok(CommandActionView::Disconnect(arguments))
    } else {
        Err(CommandError::Unsupported)
    }
}

fn optional(arguments: &str) -> (copy: Option<String>)
    ensures
        copy.deep_view() == nonempty(arguments@),
{
    if arguments.is_empty() {
        None
    } else {
        Some(arguments.to_owned())
    }
}

fn is_requested_nick(arguments: &str) -> (answer: bool)
    ensures
        answer == requested_nick(arguments@),
{
    if arguments.is_empty() || text::has_whitespace(arguments) {
        return false;
    }
    let chars = text::chars_of(arguments);
    if model::is_nickname_prefix(chars[0]) {
        return false;
    }
    let mut i: usize = 0;
    while i < chars.len()
        invariant
            chars@ == arguments@,
            i <= chars.len(),
            forall|j: int| 0 <= j < i ==> !model::nickname_forbidden(#[trigger] arguments@[j]),
        decreases chars.len() - i,
    {
        if model::is_nickname_forbidden(chars[i]) {
            assert(model::nickname_forbidden(arguments@[i as int]));
            return false;
        }
        i = i + 1;
    }
    true
}

/// The meaning of a command's outcome, for contracts.
pub open spec fn action_view(result: Result<CommandAction, CommandError>) -> Result<
    CommandActionView,
    CommandError,
> {
    match result {
        Ok(action) => Ok(action@),
        Err(error) => Err(error),
    }
}

impl SlashCommand {
    pub fn action(&self) -> (result: Result<CommandAction, CommandError>)
        ensures
            action_view(result) == requested_action(self@),
    {
        let name = self.name.as_str();
        let args = self.arguments.as_str();
        if text::has_line_break(args) {
            return Err(CommandError::InvalidArguments);
        }
        if text::same_text(name, "join") {
            if model::valid_channel_name(args) {
                Ok(CommandAction::Join(args.to_owned()))
            } else {
                Err(CommandError::InvalidArguments)
            }
        } else if text::same_text(name, "part") {
            let end: usize = text::first_word_len(args);
            let first = text::head(args, end);
            proof {
                text::lemma_first_word(args@);
            }
            if text::starts_with_any(first, &['#', '&']) {
                assert(first@[0] == '#' || first@[0] == '&');
                if !model::valid_channel_name(first) {
                    return Err(CommandError::InvalidArguments);
                }
                let reason = text::trimmed_start(text::tail(args, end));
                Ok(CommandAction::Part { channel: Some(first.to_owned()), reason: optional(reason) })
            } else {
                assert(['#', '&']@[0] == '#' && ['#', '&']@[1] == '&');
                Ok(CommandAction::Part { channel: None, reason: optional(args) })
            }
        } else if text::same_text(name, "query") {
            if model::valid_query_nickname(args) {
                Ok(CommandAction::Query(args.to_owned()))
            } else {
                Err(CommandError::InvalidArguments)
            }
        } else if text::same_text(name, "close") {
            if args.is_empty() {
                Ok(CommandAction::Close)
            } else {
                Err(CommandError::InvalidArguments)
            }
        } else if text::same_text(name, "nick") {
            if is_requested_nick(args) {
                Ok(CommandAction::Nick(args.to_owned()))
            } else {
                Err(CommandError::InvalidArguments)
            }
        } else if text::same_text(name, "away") {
            Ok(CommandAction::Away(optional(args)))
        } else if text::same_text(name, "back") {
            if args.is_empty() {
                Ok(CommandAction::Back)
            } else {
                Err(CommandError::InvalidArguments)
            }
        } else if text::same_text(name, "connect") {
            if !text::has_whitespace(args) {
                Ok(CommandAction::Connect(optional(args)))
            } else {
                Err(CommandError::InvalidArguments)
            }
        } else if text::same_text(name, "reconnect") {
            if !text::has_whitespace(args) {
                Ok(CommandAction::Reconnect(optional(args)))
            } else {
                Err(CommandError::InvalidArguments)
            }
        } else if text::same_text(name, "disconnect") || text::same_text(name, "quit") {
            Ok(CommandAction::Disconnect(args.to_owned()))
        } else {
            Err(CommandError::Unsupported)
        }
    }
}

/// Input that is a command rather than something to say.
pub open spec fn is_slash_input(input: Seq<char>) -> bool {
    text::trim(input).len() > 0 && text::trim(input)[0] == '/'
}

/// What input means as a slash command; `None` is ordinary input.
pub open spec fn parsed_slash(input: Seq<char>) -> Option<Result<SlashCommandView, SlashParseError>> {
    if !is_slash_input(input) {
        None
    } else {
        let body = text::trim(input).drop_first();
        let name = text::first_word(body);
        if name.len() == 0 {
            Some(Err(SlashParseError::MissingName))
        } else {
            Some(
                Ok(
                    SlashCommandView {
                        name: text::lower(name),
                        arguments: text::trim_start(text::after_first_word(body)),
                    },
                ),
            )
        }
    }
}

/// The meaning of parsed input, for contracts.
pub open spec fn slash_view(parsed: Option<Result<SlashCommand, SlashParseError>>) -> Option<
    Result<SlashCommandView, SlashParseError>,
> {
    match parsed {
        Some(Ok(command)) => Some(Ok(command@)),
        Some(Err(error)) => Some(Err(error)),
        None => None,
    }
}

/// Classify trimmed input and split a slash command without executing it.
///
/// `None` denotes ordinary input. Only the first slash is removed, so `//`
/// stays on the command path. Arguments retain internal whitespace and quotes;
/// command names are folded to small letters but not checked against a list.
pub fn parse_slash_command(input: &str) -> (parsed: Option<Result<SlashCommand, SlashParseError>>)
    ensures
        slash_view(parsed) == parsed_slash(input@),
{
    let trimmed = text::trimmed(input);
    if trimmed.is_empty() || trimmed.get_char(0) != '/' {
        return None;
    }
    let body = text::tail(trimmed, 1);
    assert(body@ =~= trimmed@.drop_first());
    let name_end: usize = text::first_word_len(body);
    proof {
        text::lemma_first_word(body@);
    }
    if name_end == 0 {
        return Some(Err(SlashParseError::MissingName));
    }
    let name = text::head(body, name_end);
    Some(
        Ok(
            SlashCommand {
                name: text::lowered(name),
                arguments: text::trimmed_start(text::tail(body, name_end)).to_owned(),
            },
        ),
    )
}

/// Command names do not depend on ASCII case: input whose first words differ in
/// case alone asks for the same thing.
pub proof fn law_command_names_ignore_case(first: Seq<char>, second: Seq<char>)
    requires
        is_slash_input(first),
        is_slash_input(second),
        text::same_name(
            text::first_word(text::trim(first).drop_first()),
            text::first_word(text::trim(second).drop_first()),
        ),
        text::after_first_word(text::trim(first).drop_first()) == text::after_first_word(
            text::trim(second).drop_first(),
        ),
    ensures
        parsed_slash(first) == parsed_slash(second),
{
    let a = text::first_word(text::trim(first).drop_first());
    let b = text::first_word(text::trim(second).drop_first());
    assert(text::lower(a).len() == text::lower(b).len());
}

/// Input is a command exactly if it starts with a slash once surrounding
/// whitespace is gone, whatever follows: a doubled slash is no way around that.
pub proof fn law_slash_input_is_always_a_command(input: Seq<char>)
    ensures
        parsed_slash(input) is Some <==> text::trim(input).len() > 0 && text::trim(input)[0] == '/',
{
}

} // verus!
