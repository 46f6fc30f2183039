//! Laws of the wire rules: what is shown of a received message, and what is sent.

use std::time::SystemTime;

use vstd::prelude::*;
use vstd::utf8::encode_utf8;

use crate::model::{
    self, BufferKindView, ConnectionCommandView, DeliveryState, Direction, MessageKindView,
    OutgoingMessageView,
};
use crate::protocol::{
    alphanumeric, client_line, control_error, controlled_raw, decoded, encoded, error_parameters,
    first_channel, is_channel, listed, parsed_line, spoken, ClientCommandView, LineCommandView,
    SendError, WireCommandView, WireMessageView,
};
use crate::text;

verus! {

/// What is said is shown whole, but for the line end: chat as it is, an action
/// behind a star, and no other query between clients.
pub proof fn law_what_is_said_is_shown_whole(said: Seq<char>, end: Seq<char>)
    requires
        forall|i: int| 0 <= i < end.len() ==> #[trigger] end[i] == '\r' || end[i] == '\n',
    ensures
        said.len() > 0 && said[0] != '\x01' && said.last() != '\r' && said.last() != '\n'
            ==> spoken(said + end) == Some((said, MessageKindView::Chat)),
        said.len() == 0 || said.last() != '\x01' ==> spoken(
            seq!['\x01'] + "ACTION "@ + said + seq!['\x01'] + end,
        ) == Some(("* "@ + said, MessageKindView::Action)),
        said.len() > 0 && said.last() != '\x01' && said.last() != '\r' && said.last() != '\n'
            && !text::has_prefix(said, "ACTION "@) ==> {
            &&& spoken(seq!['\x01'] + said + seq!['\x01'] + end) is None
            &&& spoken(seq!['\x01'] + said + end) is None
        },
{
    reveal_strlit("ACTION ");
    let ends = seq!['\r', '\n'];
    let mark = seq!['\x01'];
    assert(ends[0] == '\r' && ends[1] == '\n');
    assert(mark[0] == '\x01');
    assert forall|i: int| 0 <= i < end.len() implies ends.contains(#[trigger] end[i]) by {
        assert(end[i] == ends[0] || end[i] == ends[1]);
    }
    if said.len() > 0 && said.last() != '\r' && said.last() != '\n' {
        text::law_trailing_characters_are_dropped(said, end, ends);
        let bare = mark + said;
        assert(bare.last() == said.last());
        text::law_trailing_characters_are_dropped(bare, end, ends);
        assert(bare.drop_first() =~= said);
        if said.last() != '\x01' {
            text::law_trailing_characters_are_dropped(said, Seq::empty(), mark);
            assert(said + Seq::<char>::empty() =~= said);
        }
    }
    let action = "ACTION "@ + said;
    let body = mark + "ACTION "@ + said + mark;
    assert(body.last() == '\x01');
    text::law_trailing_characters_are_dropped(body, end, ends);
    assert(body[0] == '\x01');
    assert(body.drop_first() =~= action + mark);
    if said.len() == 0 || said.last() != '\x01' {
        assert(action.last() != '\x01') by {
            if said.len() == 0 {
                assert(action.last() == "ACTION "@[6]);
            } else {
                assert(action.last() == said.last());
            }
        }
        text::law_trailing_characters_are_dropped(action, mark, mark);
        assert(action.take(7) =~= "ACTION "@);
        assert(action.skip(7) =~= said);
    }
    let query = mark + said + mark;
    assert(query.last() == '\x01');
    text::law_trailing_characters_are_dropped(query, end, ends);
    assert(query.drop_first() =~= said + mark);
    if said.len() > 0 && said.last() != '\x01' {
        text::law_trailing_characters_are_dropped(said, mark, mark);
    }
}

/// Something said to a known channel, or to us, is shown: in the channel, or in the
/// conversation with the sender. Sender, words, tags and the time are those of the
/// message, and it counts as received.
pub proof fn law_speech_is_shown(
    message: WireMessageView,
    server: Seq<char>,
    channels: Seq<Seq<char>>,
    nickname: Seq<char>,
    at: SystemTime,
    target: Seq<char>,
    body: Seq<char>,
    source: Seq<char>,
    k: int,
)
    requires
        message.command == (WireCommandView::Privmsg { target, text: body }),
        message.source == Some(source),
    ensures
        ({
            let shown = decoded(message, server, channels, nickname, at);
            let known = 0 <= k < channels.len() && text::same_name(channels[k], target);
            let ours = text::same_name(target, nickname) && forall|i: int|
                0 <= i < channels.len() ==> !text::same_name(#[trigger] channels[i], target);
            &&& (known || ours) && spoken(body) is Some ==> {
                &&& shown is Some
                &&& shown->0.server == text::lower(server)
                &&& known ==> shown->0.target == BufferKindView::Channel(target)
                &&& ours ==> shown->0.target == BufferKindView::Query(source)
                &&& shown->0.content.nick == source
                &&& spoken(body) == Some((shown->0.content.text, shown->0.content.kind))
                &&& shown->0.content.direction == Direction::Incoming
                &&& shown->0.content.delivery == DeliveryState::Received
                &&& shown->0.content.tags == message.tags
                &&& shown->0.content.received_at == at
            }
            &&& spoken(body) is None ==> shown is None
        }),
{
    if 0 <= k < channels.len() && text::same_name(channels[k], target) {
        assert(listed(channels, target));
    }
}

/// What comes from no user is said by nobody.
pub proof fn law_speech_has_a_source(
    message: WireMessageView,
    server: Seq<char>,
    channels: Seq<Seq<char>>,
    nickname: Seq<char>,
    at: SystemTime,
)
    requires
        message.command is Privmsg,
        message.source is None,
    ensures
        decoded(message, server, channels, nickname, at) is None,
{
}

/// A reply of the server is a line on its console, the parameters behind our name
/// with a space between each two. Away notices go to the peer's conversation. Only
/// floods after the registration, replies about channels, and empty ones are left
/// out.
pub proof fn law_replies_are_console_lines(
    message: WireMessageView,
    server: Seq<char>,
    channels: Seq<Seq<char>>,
    nickname: Seq<char>,
    at: SystemTime,
    code: u16,
    args: Seq<Seq<char>>,
)
    requires
        message.command == WireCommandView::Response(code, args),
        code < 400 || code >= 600,
    ensures
        ({
            let shown = decoded(message, server, channels, nickname, at);
            let flood = code == 5 || 251 <= code <= 255 || code == 265 || code == 266 || code == 353
                || code == 366;
            let about_channel = exists|i: int|
                0 <= i < args.len() && (#[trigger] args[i]).len() > 0 && (args[i][0] == '#'
                    || args[i][0] == '&');
            let line = text::trim(text::spaced(args.skip(1)));
            &&& flood || about_channel || args.len() <= 1 || line.len() == 0 ==> shown is None
            &&& !flood && !about_channel && args.len() > 1 && line.len() > 0 ==> {
                &&& shown is Some
                &&& shown->0.server == text::lower(server)
                &&& shown->0.target == (if code == 301 && args.len() > 2 {
                    BufferKindView::Query(args[1])
                } else {
                    BufferKindView::Server
                })
                &&& shown->0.content.nick.len() == 0
                &&& shown->0.content.text == line
                &&& shown->0.content.kind == MessageKindView::Console
                &&& shown->0.content.direction == Direction::Incoming
                &&& shown->0.content.tags == message.tags
                &&& shown->0.content.received_at == at
            }
        }),
{
    lemma_first_channel(args);
}

/// A channel is found among parameters exactly if one of them names one, and it is
/// the first that does.
pub proof fn lemma_first_channel(parameters: Seq<Seq<char>>)
    ensures
        match first_channel(parameters) {
            Some(channel) => exists|i: int|
                0 <= i < parameters.len() && #[trigger] parameters[i] == channel && is_channel(
                    parameters[i],
                ) && forall|j: int| 0 <= j < i ==> !is_channel(#[trigger] parameters[j]),
            None => forall|i: int|
                0 <= i < parameters.len() ==> !is_channel(#[trigger] parameters[i]),
        },
    decreases parameters.len(),
{
    if parameters.len() > 0 && !is_channel(parameters[0]) {
        let rest = parameters.drop_first();
        lemma_first_channel(rest);
        match first_channel(rest) {
            Some(channel) => {
                let i = choose|i: int|
                    0 <= i < rest.len() && #[trigger] rest[i] == channel && is_channel(rest[i])
                        && forall|j: int| 0 <= j < i ==> !is_channel(#[trigger] rest[j]);
                assert(parameters[i + 1] == rest[i]);
                assert forall|j: int| 0 <= j < i + 1 implies !is_channel(
                    #[trigger] parameters[j],
                ) by {
                    if j > 0 {
                        assert(rest[j - 1] == parameters[j]);
                    }
                }
            },
            None => {
                assert forall|i: int| 0 <= i < parameters.len() implies !is_channel(
                    #[trigger] parameters[i],
                ) by {
                    if i > 0 {
                        assert(rest[i - 1] == parameters[i]);
                    }
                }
            },
        }
    } else if parameters.len() > 0 {
        assert(parameters[0] == first_channel(parameters)->0);
    }
}

/// A refusal says its number, then everything behind our name; it keeps the number,
/// what it is about and the explanation, which comes last. A number that has no
/// form of its own is read the same way.
pub proof fn law_refusals_are_told_whole(
    message: WireMessageView,
    server: Seq<char>,
    channels: Seq<Seq<char>>,
    nickname: Seq<char>,
    at: SystemTime,
    code: u16,
    args: Seq<Seq<char>>,
    i: int,
)
    requires
        message.command == WireCommandView::Response(code, args) || message.command
            == WireCommandView::Raw(text::decimal(code as nat), args),
        400 <= code < 600,
    ensures
        ({
            let shown = decoded(message, server, channels, nickname, at);
            let content = shown->0.content;
            let between = 1 <= i < args.len() - 1;
            let first_named = between && args[i].len() > 0 && (args[i][0] == '#' || args[i][0]
                == '&') && forall|j: int|
                1 <= j < i ==> !((#[trigger] args[j]).len() > 0 && (args[j][0] == '#' || args[j][0]
                    == '&'));
            let none_named = forall|j: int|
                1 <= j < args.len() - 1 ==> !((#[trigger] args[j]).len() > 0 && (args[j][0] == '#'
                    || args[j][0] == '&'));
            &&& shown is Some
            &&& shown->0.server == text::lower(server)
            &&& content.nick.len() == 0
            &&& content.direction == Direction::Incoming
            &&& content.tags == message.tags
            &&& content.received_at == at
            &&& content.kind is Error
            &&& content.kind->Error_code == code
            &&& content.kind->Error_reason == (if args.len() > 1 {
                args.last()
            } else {
                Seq::empty()
            })
            &&& first_named ==> content.kind->Error_target == Some(args[i])
            &&& none_named ==> content.kind->Error_target == (if args.len() > 2 {
                Some(args[1])
            } else {
                None
            })
            &&& args.len() > 0 && text::spaced(args.skip(1)).len() > 0 ==> content.text
                == text::decimal(code as nat) + seq![' '] + text::spaced(args.skip(1))
            &&& args.len() == 0 || text::spaced(args.skip(1)).len() == 0 ==> content.text
                == text::decimal(code as nat)
            &&& shown->0.target == (match content.kind->Error_target {
                Some(name) if exists|j: int|
                    0 <= j < channels.len() && text::same_name(#[trigger] channels[j], name)
                => BufferKindView::Channel(name),
                _ => BufferKindView::Server,
            })
        }),
{
    text::law_digits_spell_their_number(code as nat);
    let parameters = error_parameters(args);
    lemma_first_channel(parameters);
    if args.len() >= 2 {
        assert forall|j: int| 0 <= j < parameters.len() implies #[trigger] parameters[j] == args[j
            + 1] by {}
        if 1 <= i < args.len() - 1 && is_channel(args[i]) && forall|j: int|
            1 <= j < i ==> !((#[trigger] args[j]).len() > 0 && (args[j][0] == '#' || args[j][0]
                == '&')) {
            assert(is_channel(parameters[i - 1]));
            let found = first_channel(parameters);
            assert(found is Some);
            let k = choose|k: int|
                0 <= k < parameters.len() && #[trigger] parameters[k] == found->0 && is_channel(
                    parameters[k],
                ) && forall|j: int| 0 <= j < k ==> !is_channel(#[trigger] parameters[j]);
            if k < i - 1 {
                assert(is_channel(args[k + 1]));
            }
            assert(!(i - 1 < k)) by {
                if i - 1 < k {
                    assert(!is_channel(parameters[i - 1]));
                }
            }
        }
        if forall|j: int|
            1 <= j < args.len() - 1 ==> !((#[trigger] args[j]).len() > 0 && (args[j][0] == '#'
                || args[j][0] == '&')) {
            if first_channel(parameters) is Some {
                let k = choose|k: int|
                    0 <= k < parameters.len() && #[trigger] parameters[k] == first_channel(
                        parameters,
                    )->0 && is_channel(parameters[k]) && forall|j: int|
                        0 <= j < k ==> !is_channel(#[trigger] parameters[j]);
                assert(is_channel(args[k + 1]));
            }
        }
    }
    let number = text::decimal(code as nat);
    let details = text::spaced(args.skip(1));
    assert(number.push(' ') + details =~= number + seq![' '] + details);
}

/// A notice that is not for a channel is a line on the server's console, without
/// the whitespace around it; one for a channel is left out, and so is an empty one.
pub proof fn law_notices_are_console_lines(
    message: WireMessageView,
    server: Seq<char>,
    channels: Seq<Seq<char>>,
    nickname: Seq<char>,
    at: SystemTime,
    target: Seq<char>,
    text: Seq<char>,
)
    requires
        message.command == (WireCommandView::Notice { target, text }),
    ensures
        ({
            let shown = decoded(message, server, channels, nickname, at);
            let channel = target.len() > 0 && (target[0] == '#' || target[0] == '&');
            &&& channel || text::trim(text).len() == 0 ==> shown is None
            &&& !channel && text::trim(text).len() > 0 ==> {
                &&& shown is Some
                &&& shown->0.target == BufferKindView::Server
                &&& shown->0.server == text::lower(server)
                &&& shown->0.content.text == text::trim(text)
                &&& shown->0.content.kind == MessageKindView::Console
                &&& shown->0.content.nick.len() == 0
                &&& shown->0.content.direction == Direction::Incoming
                &&& shown->0.content.received_at == at
            }
        }),
{
}

/// What else the server sends says nothing by itself.
pub proof fn law_presence_is_not_shown(
    message: WireMessageView,
    server: Seq<char>,
    channels: Seq<Seq<char>>,
    nickname: Seq<char>,
    at: SystemTime,
)
    requires
        message.command is Nick || message.command is Join || message.command is Part
            || message.command is Kick || message.command is Error || message.command is Other,
    ensures
        decoded(message, server, channels, nickname, at) is None,
{
}

/// A line that a command is written as: its word and its parameters, where the last
/// one is marked if it could be mistaken.
pub proof fn law_lines_are_written_whole(target: Seq<char>, last: Seq<char>)
    requires
        target.len() > 0,
    ensures
        ({
            let marked = last.len() == 0 || last.contains(' ') || last[0] == ':';
            let written = if marked {
                seq![':'] + last
            } else {
                last
            };
            &&& client_line(ClientCommandView::Privmsg { target, text: last }) == "PRIVMSG"@ + seq![
                ' ',
            ] + target + seq![' '] + written + "\r\n"@
            &&& client_line(ClientCommandView::Nick(last)) == "NICK"@ + seq![' '] + written
                + "\r\n"@
            &&& client_line(ClientCommandView::Quit(last)) == "QUIT"@ + seq![' '] + written
                + "\r\n"@
            &&& client_line(ClientCommandView::Away(Some(last))) == "AWAY"@ + seq![' '] + written
                + "\r\n"@
            &&& client_line(ClientCommandView::Away(None)) == "AWAY"@ + "\r\n"@
            &&& client_line(ClientCommandView::Join(last)) == "JOIN"@ + seq![' '] + written
                + "\r\n"@
            &&& client_line(ClientCommandView::Part { channel: target, reason: Some(last) })
                == "PART"@ + seq![' '] + target + seq![' '] + written + "\r\n"@
            &&& client_line(ClientCommandView::Part { channel: last, reason: None }) == "PART"@
                + seq![' '] + written + "\r\n"@
        }),
{
    let marked = last.len() == 0 || last.contains(' ') || last[0] == ':';
    let written = if marked {
        seq![':'] + last
    } else {
        last
    };
    assert("PRIVMSG"@.push(' ') + target =~= "PRIVMSG"@ + seq![' '] + target);
    assert(("PRIVMSG"@.push(' ') + target).push(' ') =~= "PRIVMSG"@ + seq![' '] + target + seq![
        ' ',
    ]);
    assert(("PART"@.push(' ') + target).push(' ') =~= "PART"@ + seq![' '] + target + seq![' ']);
    assert("NICK"@.push(' ') =~= "NICK"@ + seq![' ']);
    assert("QUIT"@.push(' ') =~= "QUIT"@ + seq![' ']);
    assert("AWAY"@.push(' ') =~= "AWAY"@ + seq![' ']);
    assert("JOIN"@.push(' ') =~= "JOIN"@ + seq![' ']);
    assert("PART"@.push(' ') =~= "PART"@ + seq![' ']);
}

/// Something to say goes out, word for word, if neither it nor its target breaks
/// the line, the target is one word, and the whole line fits; otherwise the first of
/// these that fails is the reason.
pub proof fn law_what_fits_goes_out(server: Seq<char>, target: Seq<char>, text: Seq<char>)
    ensures
        ({
            let message = OutgoingMessageView::Privmsg { server, target, text };
            let line = client_line(ClientCommandView::Privmsg { target, text });
            let broken = exists|i: int|
                0 <= i < target.len() && (#[trigger] target[i] == '\r' || target[i] == '\n'
                    || target[i] == '\0');
            let broken_text = exists|i: int|
                0 <= i < text.len() && (#[trigger] text[i] == '\r' || text[i] == '\n' || text[i]
                    == '\0');
            let one_word = target.len() > 0 && target[0] != ':' && forall|i: int|
                0 <= i < target.len() ==> !text::whitespace(#[trigger] target[i]);
            &&& broken || broken_text ==> encoded(message) == Err::<Seq<char>, SendError>(
                SendError::InvalidCharacters,
            )
            &&& !broken && !broken_text && !one_word ==> encoded(message) == Err::<
                Seq<char>,
                SendError,
            >(SendError::InvalidCommand)
            &&& !broken && !broken_text && one_word && encode_utf8(line).len() > 512 ==> encoded(
                message,
            ) == Err::<Seq<char>, SendError>(SendError::TooLong)
            &&& !broken && !broken_text && one_word && encode_utf8(line).len() <= 512 ==> encoded(
                message,
            ) == Ok::<Seq<char>, SendError>(line)
        }),
{
    lemma_breaks_line(target);
    lemma_breaks_line(text);
    if exists|i: int| 0 <= i < target.len() && text::whitespace(#[trigger] target[i]) {
        let i = choose|i: int| 0 <= i < target.len() && text::whitespace(#[trigger] target[i]);
        let p = |c: char| text::whitespace(c);
        assert(p(target[i]));
    }
}

proof fn lemma_breaks_line(s: Seq<char>)
    ensures
        text::breaks_line(s) <==> exists|i: int|
            0 <= i < s.len() && (#[trigger] s[i] == '\r' || s[i] == '\n' || s[i] == '\0'),
{
    let p = |c: char| text::line_breaking(c);
    if text::breaks_line(s) {
        let i = choose|i: int| 0 <= i < s.len() && p(#[trigger] s[i]);
        assert(s[i] == '\r' || s[i] == '\n' || s[i] == '\0');
    } else {
        assert forall|i: int| 0 <= i < s.len() implies !(#[trigger] s[i] == '\r' || s[i] == '\n'
            || s[i] == '\0') by {
            assert(!p(s[i]));
        }
    }
}

/// A console line goes out as the irc crate writes it, if it is not broken, parses,
/// has a word for its command and fits.
pub proof fn law_console_lines_that_fit_go_out(server: Seq<char>, line: Seq<char>)
    ensures
        ({
            let message = OutgoingMessageView::Raw { server, line };
            let broken = exists|i: int|
                0 <= i < line.len() && (#[trigger] line[i] == '\r' || line[i] == '\n' || line[i]
                    == '\0');
            &&& broken ==> encoded(message) == Err::<Seq<char>, SendError>(
                SendError::InvalidCharacters,
            )
            &&& !broken && parsed_line(line) is None ==> encoded(message) == Err::<
                Seq<char>,
                SendError,
            >(SendError::InvalidCommand)
            &&& !broken && parsed_line(line) is Some ==> {
                let parsed = parsed_line(line)->0;
                let bad = parsed.command is Raw && (parsed.command->Raw_0.len() == 0 || exists|
                    i: int,
                |
                    0 <= i < parsed.command->Raw_0.len() && !alphanumeric(
                        #[trigger] parsed.command->Raw_0[i],
                    ));
                &&& bad ==> encoded(message) == Err::<Seq<char>, SendError>(
                    SendError::InvalidCommand,
                )
                &&& !bad && encode_utf8(parsed.text).len() > 512 ==> encoded(message) == Err::<
                    Seq<char>,
                    SendError,
                >(SendError::TooLong)
                &&& !bad && encode_utf8(parsed.text).len() <= 512 ==> encoded(message) == Ok::<
                    Seq<char>,
                    SendError,
                >(parsed.text)
            }
        }),
{
    lemma_breaks_line(line);
}

/// A console line that joins or leaves one channel is a control of that channel,
/// with the reason; other forms of these commands are refused, and any other
/// command is none.
pub proof fn law_joins_and_parts_are_controls(line: Seq<char>)
    requires
        !text::breaks_line(line),
        parsed_line(line) is Some,
    ensures
        ({
            let parsed = parsed_line(line)->0;
            let sourced = parsed.tagged || parsed.prefixed;
            let refused = Err::<Option<ConnectionCommandView>, SendError>(
                SendError::InvalidCommand,
            );
            &&& parsed.command matches LineCommandView::Join { channel, key, name } ==> {
                &&& sourced || key is Some || name is Some ==> controlled_raw(line) == refused
                &&& !sourced && key is None && name is None && control_error(
                    ConnectionCommandView::Join(channel),
                ) is None ==> controlled_raw(line) == Ok::<_, SendError>(
                    Some(ConnectionCommandView::Join(channel)),
                )
            }
            &&& parsed.command matches LineCommandView::Part { channel, reason } ==> {
                &&& sourced ==> controlled_raw(line) == refused
                &&& !sourced && control_error(ConnectionCommandView::Part { channel, reason })
                    is None ==> controlled_raw(line) == Ok::<_, SendError>(
                    Some(ConnectionCommandView::Part { channel, reason }),
                )
            }
            &&& parsed.command matches LineCommandView::Raw(word) ==> {
                let reserved = text::same_name(word, "JOIN"@) || text::same_name(word, "PART"@);
                &&& reserved ==> controlled_raw(line) == refused
                &&& !reserved ==> controlled_raw(line) == Ok::<_, SendError>(
                    None::<ConnectionCommandView>,
                )
            }
            &&& parsed.command is Other ==> controlled_raw(line) == Ok::<_, SendError>(
                None::<ConnectionCommandView>,
            )
        }),
{
}

/// A control can be sent if its words do not break the line, its names are names,
/// and the line that it takes fits; and the reason why it cannot is the first of
/// these that fails. Connecting and reconnecting need no line.
pub proof fn law_controls_are_checked(
    name: Seq<char>,
    reason: Seq<char>,
)
    ensures
        control_error(ConnectionCommandView::Connect) is None,
        control_error(ConnectionCommandView::Reconnect) is None,
        control_error(ConnectionCommandView::Disconnect(reason)) == (if text::breaks_line(reason) {
            Some(SendError::InvalidCharacters)
        } else {
            too_long(ClientCommandView::Quit(reason))
        }),
        control_error(ConnectionCommandView::Away(Some(reason))) == (if text::breaks_line(reason) {
            Some(SendError::InvalidCharacters)
        } else {
            too_long(ClientCommandView::Away(Some(reason)))
        }),
        control_error(ConnectionCommandView::Away(None)) is None,
        control_error(ConnectionCommandView::Back) is None,
        control_error(ConnectionCommandView::Nick(name)) == (if text::breaks_line(name) {
            Some(SendError::InvalidCharacters)
        } else if name.len() == 0 || name[0] == ':' || text::has_space(name) {
            Some(SendError::InvalidCommand)
        } else {
            too_long(ClientCommandView::Nick(name))
        }),
        control_error(ConnectionCommandView::Join(name)) == (if text::breaks_line(name) {
            Some(SendError::InvalidCharacters)
        } else if !model::channel_name(name) {
            Some(SendError::InvalidCommand)
        } else {
            too_long(ClientCommandView::Join(name))
        }),
        control_error(ConnectionCommandView::Part { channel: name, reason: Some(reason) }) == (if
        text::breaks_line(name) || text::breaks_line(reason) {
            Some(SendError::InvalidCharacters)
        } else if !model::channel_name(name) {
            Some(SendError::InvalidCommand)
        } else {
            too_long(ClientCommandView::Part { channel: name, reason: Some(reason) })
        }),
        control_error(ConnectionCommandView::Part { channel: name, reason: None }) == (if
        text::breaks_line(name) {
            Some(SendError::InvalidCharacters)
        } else if !model::channel_name(name) {
            Some(SendError::InvalidCommand)
        } else {
            too_long(ClientCommandView::Part { channel: name, reason: None })
        }),
{
    reveal_strlit("AWAY");
    reveal_strlit("\r\n");
    lemma_bytes(client_line(ClientCommandView::Away(None)));
}

/// A character takes at most four bytes.
proof fn lemma_bytes(s: Seq<char>)
    ensures
        encode_utf8(s).len() <= 4 * s.len(),
    decreases s.len(),
{
    if s.len() > 0 {
        lemma_bytes(s.drop_first());
    }
}

/// Whether the line of a command is longer than a line may be.
pub open spec fn too_long(command: ClientCommandView) -> Option<SendError> {
    if encode_utf8(client_line(command)).len() > 512 {
        Some(SendError::TooLong)
    } else {
        None
    }
}

} // verus!
