//! Laws of what submissions and reports come to.

use std::time::SystemTime;

use vstd::prelude::*;

use crate::application::laws::{
    law_drafts_are_separate, law_messages_leave_drafts_alone, lemma_index_about, lemma_index_of,
};
use crate::application::submission::{
    is_named, FeedbackView, PendingView, PlanView, QueueItemView, Refusal,
};
use crate::application::{
    has_id, is_about, lemma_open_buffer_wf, lemma_with_buffer_wf, BufferView, SessionView,
    SubmissionEffect,
};
use crate::command::laws::{lemma_one_line, one_line, trimmed};
use crate::command::{
    parsed_slash, requested_action, CommandActionView, CommandError, SlashCommandView,
    SlashParseError,
};
use crate::config::ServerConfigView;
use crate::connection::{ConnectionState, IrcEventView};
use crate::model::{
    self, BufferId, BufferKindView, ChannelState, ChannelStatus, ConnectionCommandView,
    DeliveryState, Direction, DraftView, MessageKindView, OutgoingMessageView, RoutedMessageView,
};
use crate::protocol::{control_error, controlled_raw, encoded, SendError};
use crate::sequence::{lemma_first_index, lemma_is_first_index, lemma_no_first_index};
use crate::text::{self, blank};

verus! {

/// The conversation at `index` is the active one.
pub open spec fn is_active(session: SessionView, index: int) -> bool {
    &&& 0 <= index < session.buffers.len()
    &&& session.active == Some(session.buffers[index].id)
}

/// `index` is the first of `names` that names the server.
pub open spec fn serves(names: Seq<Seq<char>>, index: int, server: Seq<char>) -> bool {
    &&& 0 <= index < names.len()
    &&& text::same_name(names[index], server)
    &&& forall|i: int| 0 <= i < index ==> !text::same_name(#[trigger] names[i], server)
}

proof fn lemma_serves(names: Seq<Seq<char>>, index: int, server: Seq<char>)
    requires
        serves(names, index, server),
    ensures
        crate::sequence::first_index(names, is_named(server)) == Some(index),
{
    lemma_is_first_index(names, is_named(server), index);
}

/// What is typed in a joined channel, or to a peer who can be reached, is offered to
/// the worker of the server: word for word, without the whitespace around it, to the
/// channel or the peer.
pub proof fn law_what_is_typed_is_queued(
    session: SessionView,
    names: Seq<Seq<char>>,
    index: int,
    k: int,
    before: Seq<char>,
    said: Seq<char>,
    after: Seq<char>,
    target: Seq<char>,
)
    requires
        session.wf(),
        is_active(session, index),
        session.buffers[index].draft.text == before + said + after,
        blank(before),
        blank(after),
        said.len() > 0,
        trimmed(said),
        said[0] != '/',
        one_line(before + said + after),
        !session.buffers[index].send_blocked,
        session.buffers[index].kind == BufferKindView::Query(target)
            || session.buffers[index].kind == BufferKindView::Channel(target),
        session.servers[session.buffers[index].server].connection == ConnectionState::Connected,
        session.buffers[index].kind is Channel ==> session.buffers[index].channel_status.state
            == ChannelState::Joined,
        serves(names, k, session.buffers[index].server_label),
        encoded(
            OutgoingMessageView::Privmsg {
                server: session.buffers[index].server_label,
                target,
                text: said,
            },
        ) is Ok,
    ensures
        session.plan(names) == PlanView::Queue(
            PendingView::Message {
                connection: k,
                message: OutgoingMessageView::Privmsg {
                    server: session.buffers[index].server_label,
                    target,
                    text: said,
                },
                target: session.buffers[index].kind,
            },
        ),
{
    let buffer = session.buffers[index];
    lemma_index_of(session, index);
    text::law_trimming_keeps_the_text(before, said, after);
    lemma_one_line(before + said + after);
    lemma_serves(names, k, buffer.server_label);
    lemma_index_about(session, index, buffer.kind);
    assert(session.servers.contains_key(buffer.server));
}

/// A console line is offered to the worker of the server as it was typed, without
/// the whitespace before it, if it neither joins nor parts.
pub proof fn law_console_lines_are_queued(
    session: SessionView,
    names: Seq<Seq<char>>,
    index: int,
    k: int,
    before: Seq<char>,
    line: Seq<char>,
)
    requires
        session.wf(),
        is_active(session, index),
        session.buffers[index].draft.text == before + line,
        blank(before),
        line.len() > 0,
        !text::whitespace(line[0]),
        line[0] != '/',
        one_line(before + line),
        !session.buffers[index].send_blocked,
        session.buffers[index].kind is Server,
        session.servers[session.buffers[index].server].connection == ConnectionState::Connected,
        serves(names, k, session.buffers[index].server_label),
        encoded(
            OutgoingMessageView::Raw { server: session.buffers[index].server_label, line },
        ) is Ok,
        controlled_raw(line) == Ok::<_, SendError>(None::<ConnectionCommandView>),
    ensures
        session.plan(names) == PlanView::Queue(
            PendingView::Message {
                connection: k,
                message: OutgoingMessageView::Raw {
                    server: session.buffers[index].server_label,
                    line,
                },
                target: BufferKindView::Server,
            },
        ),
{
    let buffer = session.buffers[index];
    lemma_index_of(session, index);
    lemma_one_line(before + line);
    lemma_serves(names, k, buffer.server_label);
    assert(session.servers.contains_key(buffer.server));
    text::lemma_trim_of(before, line);
}

/// What was queued is shown at once where it was said: as ours, unconfirmed, under
/// our name on that server. The draft is used up, and nothing else is said anywhere.
pub proof fn law_what_is_queued_is_shown(
    session: SessionView,
    servers: Seq<(Seq<char>, ServerConfigView)>,
    index: int,
    connection: int,
    said: Seq<char>,
    target: Seq<char>,
    at: SystemTime,
    other: BufferId,
)
    requires
        session.wf(),
        session.has_room(),
        session.history.capacity > 0,
        is_active(session, index),
        session.buffers[index].kind == BufferKindView::Query(target)
            || session.buffers[index].kind == BufferKindView::Channel(target),
    ensures
        ({
            let buffer = session.buffers[index];
            let message = OutgoingMessageView::Privmsg {
                server: buffer.server_label,
                target,
                text: said,
            };
            let pending = PendingView::Message { connection, message, target: buffer.kind };
            let (after, news, effect, feedback) = session.complete(servers, pending, true, at);
            let shown = after.history.of(buffer.id).last().content;
            &&& shown.text == said
            &&& shown.kind == MessageKindView::Chat
            &&& shown.direction == Direction::Outgoing
            &&& shown.delivery == DeliveryState::Unconfirmed
            &&& shown.received_at == at
            &&& shown.tags.len() == 0
            &&& session.servers[buffer.server].nickname matches Some(nickname) ==> shown.nick
                == nickname
            &&& after.draft().text.len() == 0
            &&& after.active == session.active
            &&& news is None && effect == SubmissionEffect::Nothing && feedback is None
            &&& other != buffer.id ==> after.history.of(other) == session.history.of(other)
        }),
{
    let buffer = session.buffers[index];
    let message = OutgoingMessageView::Privmsg {
        server: buffer.server_label,
        target,
        text: said,
    };
    let echo = session.local_echo(servers, message, buffer.kind, at);
    lemma_index_of(session, index);
    lemma_index_about(session, index, buffer.kind);
    assert(session.servers.contains_key(buffer.server));
    assert(session.route_error(echo) == echo);
    let pushed = session.push(echo).0;
    law_messages_leave_drafts_alone(session, echo, index);
    let grown = session.history.grown(buffer.id, echo.content);
    let kept = pushed.history.of(buffer.id);
    assert(kept == grown.skip(session.history.excess(buffer.id)));
    assert(kept.last() == grown.last());
    law_drafts_are_separate(pushed, DraftView::empty(), index);
}

/// A console line that was queued is shown on the console, as ours.
pub proof fn law_queued_console_lines_are_shown(
    session: SessionView,
    servers: Seq<(Seq<char>, ServerConfigView)>,
    index: int,
    connection: int,
    line: Seq<char>,
    at: SystemTime,
)
    requires
        session.wf(),
        session.has_room(),
        session.history.capacity > 0,
        is_active(session, index),
        session.buffers[index].kind is Server,
    ensures
        ({
            let buffer = session.buffers[index];
            let message = OutgoingMessageView::Raw { server: buffer.server_label, line };
            let pending = PendingView::Message { connection, message, target: buffer.kind };
            let (after, news, effect, feedback) = session.complete(servers, pending, true, at);
            let shown = after.history.of(buffer.id).last().content;
            &&& shown.text == line
            &&& shown.kind == MessageKindView::Console
            &&& shown.direction == Direction::Outgoing
            &&& shown.delivery == DeliveryState::Unconfirmed
            &&& shown.received_at == at
            &&& after.draft().text.len() == 0
            &&& after.active == session.active
            &&& news is None && effect == SubmissionEffect::Nothing && feedback is None
        }),
{
    let buffer = session.buffers[index];
    let message = OutgoingMessageView::Raw { server: buffer.server_label, line };
    let echo = session.local_echo(servers, message, buffer.kind, at);
    lemma_index_of(session, index);
    lemma_index_about(session, index, buffer.kind);
    assert(session.route_error(echo) == echo);
    let pushed = session.push(echo).0;
    law_messages_leave_drafts_alone(session, echo, index);
    let grown = session.history.grown(buffer.id, echo.content);
    let kept = pushed.history.of(buffer.id);
    assert(kept == grown.skip(session.history.excess(buffer.id)));
    assert(kept.last() == grown.last());
    law_drafts_are_separate(pushed, DraftView::empty(), index);
}

/// Our name for what we say: the confirmed one, else the configured one of the
/// first server with that key, else the server's name.
pub proof fn law_our_name_is_the_confirmed_one(
    session: SessionView,
    servers: Seq<(Seq<char>, ServerConfigView)>,
    server: Seq<char>,
    k: int,
)
    ensures
        ({
            let name = session.echo_nickname(servers, server);
            let id = text::lower(server);
            let confirmed = session.servers.contains_key(id) && session.servers[id].nickname is Some;
            &&& confirmed ==> Some(name) == session.servers[id].nickname
            &&& !confirmed && 0 <= k < servers.len() && text::same_name(servers[k].0, server) && (
            forall|i: int| 0 <= i < k ==> !text::same_name((#[trigger] servers[i]).0, server))
                ==> name == servers[k].1.nickname
            &&& !confirmed && (forall|i: int|
                0 <= i < servers.len() ==> !text::same_name((#[trigger] servers[i]).0, server))
                ==> name == server
        }),
{
    let keyed = crate::application::submission::is_configured(server);
    if 0 <= k < servers.len() && text::same_name(servers[k].0, server) && (forall|i: int|
        0 <= i < k ==> !text::same_name((#[trigger] servers[i]).0, server)) {
        assert forall|i: int| 0 <= i < k implies !keyed(#[trigger] servers[i]) by {
            assert(!text::same_name(servers[i].0, server));
        }
        lemma_is_first_index(servers, keyed, k);
    }
    if forall|i: int|
        0 <= i < servers.len() ==> !text::same_name((#[trigger] servers[i]).0, server) {
        assert forall|i: int| 0 <= i < servers.len() implies !keyed(#[trigger] servers[i]) by {
            assert(!text::same_name(servers[i].0, server));
        }
        lemma_no_first_index(servers, keyed);
    }
}

/// What cannot be said is explained in the status: why, or which server does not
/// take it. Nothing else happens.
pub proof fn law_what_is_not_sent_is_explained(
    session: SessionView,
    servers: Seq<(Seq<char>, ServerConfigView)>,
    names: Seq<Seq<char>>,
    message: OutgoingMessageView,
    server: Seq<char>,
    target: BufferKindView,
    connection: int,
    at: SystemTime,
)
    requires
        match message {
            OutgoingMessageView::Privmsg { server: named, .. } => named == server,
            OutgoingMessageView::Raw { server: named, .. } => named == server,
        },
    ensures
        ({
            let busy = "failed to send ("@ + server + " disconnected or busy)"@;
            let pending = PendingView::Message { connection, message, target };
            session.complete(servers, pending, false, at) == (
                session,
                Some(busy),
                SubmissionEffect::Nothing,
                Some(FeedbackView::Unsent(server)),
            )
        }),
        ({
            let plan = session.outgoing_plan(names, message);
            let said = one_line(session.draft().text);
            let reason = if !said {
                "message contains an invalid control character"@
            } else {
                match encoded(message) {
                    Err(SendError::InvalidCharacters) =>
                        "message contains an invalid control character"@,
                    Err(SendError::InvalidCommand) => "invalid IRC command"@,
                    _ => "message exceeds the 512-byte IRC line limit"@,
                }
            };
            !said || encoded(message) is Err ==> plan == (PlanView::Settled {
                session,
                status: Some("failed to send ("@ + reason + ")"@),
                effect: SubmissionEffect::Nothing,
                feedback: None,
            })
        }),
{
    lemma_one_line(session.draft().text);
}

/// A command about a connection goes to the worker of the server that it names, or
/// else of the active conversation, with what it leads to.
pub proof fn law_connection_commands_reach_their_worker(
    session: SessionView,
    names: Seq<Seq<char>>,
    index: int,
    k: int,
    named: Option<Seq<char>>,
    server: Seq<char>,
    reason: Seq<char>,
)
    requires
        session.wf(),
        named is None ==> is_active(session, index) && session.buffers[index].server_label
            == server,
        named is Some ==> named->0 == server,
        serves(names, k, server),
    ensures
        session.command_plan(names, CommandActionView::Connect(named)) == Ok::<_, Refusal>(
            PlanView::Queue(
                PendingView::Control {
                    connection: k,
                    server: names[k],
                    command: ConnectionCommandView::Connect,
                    next: None,
                },
            ),
        ),
        session.command_plan(names, CommandActionView::Reconnect(named)) == Ok::<_, Refusal>(
            PlanView::Queue(
                PendingView::Control {
                    connection: k,
                    server: names[k],
                    command: ConnectionCommandView::Reconnect,
                    next: Some(ConnectionState::Connecting),
                },
            ),
        ),
        named is None && control_error(ConnectionCommandView::Disconnect(reason)) is None
            ==> session.command_plan(names, CommandActionView::Disconnect(reason)) == Ok::<
            _,
            Refusal,
        >(
            PlanView::Queue(
                PendingView::Control {
                    connection: k,
                    server: names[k],
                    command: ConnectionCommandView::Disconnect(reason),
                    next: Some(ConnectionState::Stopped),
                },
            ),
        ),
{
    lemma_serves(names, k, server);
    if named is None {
        lemma_index_of(session, index);
    }
}

/// A command about ourselves goes to the worker of the active conversation's server
/// while it is connected, and is refused otherwise.
pub proof fn law_identity_commands_reach_their_worker(
    session: SessionView,
    names: Seq<Seq<char>>,
    index: int,
    k: int,
    nick: Seq<char>,
    reason: Option<Seq<char>>,
)
    requires
        session.wf(),
        is_active(session, index),
        serves(names, k, session.buffers[index].server_label),
    ensures
        ({
            let connected = session.servers[session.buffers[index].server].connection
                == ConnectionState::Connected;
            let rename = CommandActionView::Nick(nick);
            let away = CommandActionView::Away(reason);
            let refused = Err::<PlanView, Refusal>(Refusal::NotConnected);
            &&& !connected ==> session.command_plan(names, rename) == refused
                && session.command_plan(names, away) == refused && session.command_plan(
                names,
                CommandActionView::Back,
            ) == refused
            &&& connected && control_error(ConnectionCommandView::Nick(nick)) is None
                ==> session.command_plan(names, rename) == Ok::<_, Refusal>(
                PlanView::Queue(
                    PendingView::Control {
                        connection: k,
                        server: names[k],
                        command: ConnectionCommandView::Nick(nick),
                        next: None,
                    },
                ),
            )
            &&& connected && control_error(ConnectionCommandView::Away(reason)) is None
                ==> session.command_plan(names, away) == Ok::<_, Refusal>(
                PlanView::Queue(
                    PendingView::Control {
                        connection: k,
                        server: names[k],
                        command: ConnectionCommandView::Away(reason),
                        next: None,
                    },
                ),
            )
            &&& connected && control_error(ConnectionCommandView::Back) is None
                ==> session.command_plan(names, CommandActionView::Back) == Ok::<_, Refusal>(
                PlanView::Queue(
                    PendingView::Control {
                        connection: k,
                        server: names[k],
                        command: ConnectionCommandView::Back,
                        next: None,
                    },
                ),
            )
        }),
{
    let server = session.buffers[index].server_label;
    lemma_serves(names, k, server);
    lemma_index_of(session, index);
    assert(session.servers.contains_key(session.buffers[index].server));
    assert(text::lower(names[k]) == session.buffers[index].server);
}

/// Joining asks the worker for the channel unless it is joined or being joined,
/// which shows it, or being left, which is refused.
pub proof fn law_joining_asks_the_worker(
    session: SessionView,
    names: Seq<Seq<char>>,
    index: int,
    k: int,
    channel: Seq<char>,
    c: int,
    known: Seq<char>,
)
    requires
        session.wf(),
        is_active(session, index),
        serves(names, k, session.buffers[index].server_label),
        session.servers[session.buffers[index].server].connection == ConnectionState::Connected,
        control_error(ConnectionCommandView::Join(channel)) is None,
        control_error(ConnectionCommandView::Join(known)) is None,
    ensures
        ({
            let server = session.buffers[index].server;
            let plan = session.command_plan(names, CommandActionView::Join(channel));
            let open = 0 <= c < session.buffers.len() && session.buffers[c].server == server
                && session.buffers[c].kind == BufferKindView::Channel(known) && text::same_name(
                known,
                channel,
            );
            let state = session.buffers[c].channel_status.state;
            let none = forall|i: int|
                0 <= i < session.buffers.len() && (#[trigger] session.buffers[i]).server == server
                    ==> !session.buffers[i].kind.matches(BufferKindView::Channel(channel));
            &&& none ==> plan == Ok::<_, Refusal>(
                PlanView::Queue(
                    PendingView::Join {
                        connection: k,
                        server: names[k],
                        channel,
                        command: ConnectionCommandView::Join(channel),
                    },
                ),
            )
            &&& open && (state == ChannelState::NotJoined || state == ChannelState::Uncertain)
                ==> plan == Ok::<_, Refusal>(
                PlanView::Queue(
                    PendingView::Join {
                        connection: k,
                        server: names[k],
                        channel,
                        command: ConnectionCommandView::Join(known),
                    },
                ),
            )
            &&& open && state == ChannelState::Parting ==> plan == Err::<PlanView, _>(
                Refusal::ChannelBusy,
            )
            &&& open && (state == ChannelState::Joined || state == ChannelState::Joining) ==> {
                &&& plan is Ok
                &&& plan->Ok_0 is Settled
                &&& plan->Ok_0->effect == SubmissionEffect::Activate(session.buffers[c].id)
                &&& plan->Ok_0->session.history == session.history
                &&& !plan->Ok_0->session.buffers[c].hidden
            }
        }),
{
    let server = session.buffers[index].server;
    let label = session.buffers[index].server_label;
    let about = is_about(server, BufferKindView::Channel(channel));
    lemma_serves(names, k, label);
    lemma_index_of(session, index);
    assert(session.servers.contains_key(server));
    assert(text::lower(names[k]) == server);
    lemma_first_index(session.buffers, about);
    if 0 <= c < session.buffers.len() && session.buffers[c].server == server
        && session.buffers[c].kind == BufferKindView::Channel(known) && text::same_name(
        known,
        channel,
    ) {
        lemma_index_about(session, c, BufferKindView::Channel(channel));
        let shown = session.with_buffer(c, BufferView { hidden: false, ..session.buffers[c] });
        lemma_with_buffer_wf(session, c, shown.buffers[c]);
        lemma_index_of(shown, index);
    }
}

/// Leaving asks the worker for the known channel that is joined or wanted, with the
/// reason; one that is being joined is busy, and unknown ones are refused.
pub proof fn law_leaving_asks_the_worker(
    session: SessionView,
    names: Seq<Seq<char>>,
    index: int,
    k: int,
    channel: Seq<char>,
    reason: Option<Seq<char>>,
    c: int,
    known: Seq<char>,
)
    requires
        session.wf(),
        is_active(session, index),
        serves(names, k, session.buffers[index].server_label),
        session.servers[session.buffers[index].server].connection == ConnectionState::Connected,
        control_error(ConnectionCommandView::Part { channel: known, reason }) is None,
    ensures
        ({
            let server = session.buffers[index].server;
            let plan = session.command_plan(
                names,
                CommandActionView::Part { channel: Some(channel), reason },
            );
            let open = 0 <= c < session.buffers.len() && session.buffers[c].server == server
                && session.buffers[c].kind == BufferKindView::Channel(known) && text::same_name(
                known,
                channel,
            );
            let status = session.buffers[c].channel_status;
            let none = forall|i: int|
                0 <= i < session.buffers.len() && (#[trigger] session.buffers[i]).server == server
                    ==> !session.buffers[i].kind.matches(BufferKindView::Channel(channel));
            &&& none ==> plan == Err::<PlanView, _>(Refusal::UnknownChannel)
            &&& open && status.state == ChannelState::Joining ==> plan == Err::<PlanView, _>(
                Refusal::ChannelBusy,
            )
            &&& open && (status.state == ChannelState::Joined || status.state
                == ChannelState::Uncertain || (status.state == ChannelState::NotJoined
                && status.desired)) ==> plan == Ok::<_, Refusal>(
                PlanView::Queue(
                    PendingView::Part {
                        connection: k,
                        server: names[k],
                        channel,
                        command: ConnectionCommandView::Part { channel: known, reason },
                    },
                ),
            )
            &&& open && (status.state == ChannelState::Parting || (status.state
                == ChannelState::NotJoined && !status.desired)) ==> plan is Ok && plan->Ok_0
                is Settled && plan->Ok_0->effect == SubmissionEffect::Nothing
            &&& open && c == index ==> session.command_plan(
                names,
                CommandActionView::Part { channel: None, reason },
            ) == session.command_plan(
                names,
                CommandActionView::Part { channel: Some(known), reason },
            )
        }),
{
    let server = session.buffers[index].server;
    let label = session.buffers[index].server_label;
    let about = is_about(server, BufferKindView::Channel(channel));
    lemma_serves(names, k, label);
    lemma_index_of(session, index);
    assert(session.servers.contains_key(server));
    assert(text::lower(names[k]) == server);
    lemma_first_index(session.buffers, about);
    if 0 <= c < session.buffers.len() && session.buffers[c].server == server
        && session.buffers[c].kind == BufferKindView::Channel(known) && text::same_name(
        known,
        channel,
    ) {
        lemma_index_about(session, c, BufferKindView::Channel(channel));
    }
}

/// Without a conversation there is no server to act on, and a server that has no
/// worker is unknown.
pub proof fn law_commands_need_a_server(
    session: SessionView,
    names: Seq<Seq<char>>,
    server: Seq<char>,
    nick: Seq<char>,
)
    ensures
        session.active is None ==> {
            &&& session.command_plan(names, CommandActionView::Query(nick)) == Err::<PlanView, _>(
                Refusal::NoServer,
            )
            &&& session.command_plan(names, CommandActionView::Join(nick)) == Err::<PlanView, _>(
                Refusal::NoServer,
            )
            &&& session.command_plan(names, CommandActionView::Disconnect(nick)) == Err::<
                PlanView,
                _,
            >(Refusal::NoServer)
            &&& session.command_plan(names, CommandActionView::Close) == Err::<PlanView, _>(
                Refusal::NoQuery,
            )
        },
        (forall|i: int| 0 <= i < names.len() ==> !text::same_name(#[trigger] names[i], server)) ==> {
            &&& session.command_plan(names, CommandActionView::Connect(Some(server))) == Err::<
                PlanView,
                _,
            >(Refusal::UnknownServer)
            &&& session.command_plan(names, CommandActionView::Reconnect(Some(server))) == Err::<
                PlanView,
                _,
            >(Refusal::UnknownServer)
        },
{
    if forall|i: int| 0 <= i < names.len() ==> !text::same_name(#[trigger] names[i], server) {
        assert forall|i: int| 0 <= i < names.len() implies !is_named(server)(
            #[trigger] names[i],
        ) by {
            assert(!text::same_name(names[i], server));
        }
        lemma_no_first_index(names, is_named(server));
    }
}

/// A reconnection that was queued shows the server connecting, a disconnection shows
/// it stopped, and its report is awaited; other controls change nothing but the
/// draft that they were typed in, which is used up.
pub proof fn law_queued_controls_are_shown(
    session: SessionView,
    servers: Seq<(Seq<char>, ServerConfigView)>,
    connection: int,
    server: Seq<char>,
    command: ConnectionCommandView,
    next: Option<ConnectionState>,
    at: SystemTime,
)
    requires
        session.wf(),
    ensures
        ({
            let pending = PendingView::Control { connection, server, command, next };
            let (after, news, effect, _) = session.complete(servers, pending, true, at);
            &&& next is Some ==> after.connection_state(server, None) == next->0
                && after.has_pending_change(server)
            &&& next is None ==> after.servers == session.servers
            &&& after.active == session.active
            &&& after.history == session.history
            &&& after.draft().text.len() == 0
            &&& news is None && effect == SubmissionEffect::Nothing
        }),
{
    let pending = PendingView::Control { connection, server, command, next };
    let changed = match next {
        Some(state) => session.begin_change(server, state),
        None => session,
    };
    lemma_source_draft(session, changed);
}

/// The draft that a command came from is used up, while the conversations stand
/// where they stood.
proof fn lemma_source_draft(session: SessionView, changed: SessionView)
    requires
        session.wf(),
        changed.active == session.active,
        changed.buffers.len() >= session.buffers.len(),
        forall|i: int|
            0 <= i < session.buffers.len() ==> (#[trigger] changed.buffers[i]).id
                == session.buffers[i].id,
    ensures
        ({
            let after = changed.without_source_draft(session.active);
            &&& after.draft().text.len() == 0
            &&& after.active == session.active
            &&& after.buffers.len() == changed.buffers.len()
            &&& forall|i: int|
                0 <= i < changed.buffers.len() ==> #[trigger] after.buffers[i] == (BufferView {
                    draft: after.buffers[i].draft,
                    ..changed.buffers[i]
                })
        }),
{
    if session.active is Some {
        let id = session.active->0;
        let at = choose|i: int|
            0 <= i < session.buffers.len() && (#[trigger] session.buffers[i]).id == id;
        assert(changed.buffers[at].id == id);
        lemma_first_index(changed.buffers, has_id(id));
        assert(has_id(id)(changed.buffers[at]));
        let index = changed.index_of(id)->0;
        let after = changed.without_source_draft(session.active);
        assert forall|i: int| 0 <= i < index implies !has_id(id)(#[trigger] after.buffers[i]) by {
            assert(!has_id(id)(changed.buffers[i]));
        }
        lemma_is_first_index(after.buffers, has_id(id), index);
    }
}

/// A channel whose join was queued is shown as being joined, wanted and not hidden,
/// and comes into view.
pub proof fn law_queued_joins_are_shown(
    session: SessionView,
    servers: Seq<(Seq<char>, ServerConfigView)>,
    connection: int,
    server: Seq<char>,
    channel: Seq<char>,
    command: ConnectionCommandView,
    at: SystemTime,
)
    requires
        session.wf(),
        session.has_room(),
    ensures
        ({
            let pending = PendingView::Join { connection, server, channel, command };
            let (after, news, effect, _) = session.complete(servers, pending, true, at);
            let index = after.channel_index(server, channel);
            let buffer = after.buffers[index->0];
            &&& index is Some
            &&& buffer.channel_status.state == ChannelState::Joining
            &&& buffer.channel_status.desired
            &&& !buffer.hidden
            &&& buffer.pending_channel_changes > 0
            &&& effect == SubmissionEffect::Activate(buffer.id)
            &&& after.draft().text.len() == 0
            &&& after.history == session.history
            &&& news is None
        }),
{
    let kind = BufferKindView::Channel(channel);
    let id = text::lower(server);
    lemma_open_buffer_wf(session, server, kind);
    lemma_first_index(session.buffers, is_about(id, kind));
    let (opened, opened_id) = session.open_channel(server, channel);
    let place = match session.index_about(id, kind) {
        Some(index) => index,
        None => session.buffers.len() as int,
    };
    assert(opened.buffers[place].id == opened_id);
    lemma_index_of(opened, place);
    let joining = session.joining(server, channel).0;
    lemma_source_draft(session, joining);
    let after = joining.without_source_draft(session.active);
    assert(after.buffers[place] == (BufferView {
        draft: after.buffers[place].draft,
        ..joining.buffers[place]
    }));
    let about = is_about(id, kind);
    assert forall|i: int| 0 <= i < place implies !about(#[trigger] after.buffers[i]) by {
        assert(after.buffers[i] == (BufferView {
            draft: after.buffers[i].draft,
            ..joining.buffers[i]
        }));
        assert(!about(session.buffers[i]));
    }
    assert(about(after.buffers[place]));
    lemma_is_first_index(after.buffers, about, place);
}

/// A channel whose part was queued is no longer wanted, and shown as being left
/// unless it was not joined.
pub proof fn law_queued_parts_are_shown(
    session: SessionView,
    servers: Seq<(Seq<char>, ServerConfigView)>,
    connection: int,
    server: Seq<char>,
    channel: Seq<char>,
    command: ConnectionCommandView,
    at: SystemTime,
    index: int,
)
    requires
        session.wf(),
        session.channel_index(server, channel) == Some(index),
    ensures
        ({
            let pending = PendingView::Part { connection, server, channel, command };
            let (after, news, effect, _) = session.complete(servers, pending, true, at);
            let before = session.buffers[index].channel_status.state;
            let status = after.buffers[index].channel_status;
            &&& !status.desired
            &&& before == ChannelState::NotJoined ==> status.state == ChannelState::NotJoined
            &&& before != ChannelState::NotJoined ==> status.state == ChannelState::Parting
            &&& after.buffers[index].pending_channel_changes
                == session.buffers[index].pending_channel_changes + 1
            &&& after.draft().text.len() == 0
            &&& after.history == session.history
            &&& news is None && effect == SubmissionEffect::Nothing
        }),
{
    lemma_first_index(
        session.buffers,
        is_about(text::lower(server), BufferKindView::Channel(channel)),
    );
    let parting = session.parting(server, channel);
    lemma_source_draft(session, parting);
    let after = parting.without_source_draft(session.active);
    assert(after.buffers[index] == (BufferView {
        draft: after.buffers[index].draft,
        ..parting.buffers[index]
    }));
}

/// A report about a server is what the session knows of it from then on, and of no
/// other server.
pub proof fn law_reports_are_remembered(
    session: SessionView,
    server: Seq<char>,
    other: Seq<char>,
    nickname: Seq<char>,
    away: bool,
    at: SystemTime,
)
    requires
        !text::same_name(other, server),
    ensures
        ({
            let named = session.handle_event(IrcEventView::Nickname(server, nickname), at);
            let gone = session.handle_event(IrcEventView::Away(server, away), at);
            &&& named.nickname(server) == Some(nickname)
            &&& named.nickname(other) == session.nickname(other)
            &&& named.is_away(server) == session.is_away(server)
            &&& named.connection_state(server, None) == session.connection_state(server, None)
            &&& named.buffers == session.buffers && named.history == session.history
            &&& gone.is_away(server) == away
            &&& gone.is_away(other) == session.is_away(other)
            &&& gone.nickname(server) == session.nickname(server)
            &&& gone.connection_state(server, None) == session.connection_state(server, None)
            &&& gone.buffers == session.buffers && gone.history == session.history
        }),
{
}

/// A channel's state shows as a connection: joined is connected as long as the
/// server is, joining and leaving are on the way, and all else is stopped.
pub proof fn law_channel_states_show_as_connections(
    session: SessionView,
    server: Seq<char>,
    channel: Seq<char>,
    index: int,
)
    requires
        session.wf(),
        0 <= index < session.buffers.len(),
        session.buffers[index].server == text::lower(server),
        session.buffers[index].kind.matches(BufferKindView::Channel(channel)),
    ensures
        ({
            let state = session.buffers[index].channel_status.state;
            let up = session.servers[text::lower(server)].connection == ConnectionState::Connected;
            let shown = session.connection_state(server, Some(channel));
            &&& session.channel_status(server, channel) == session.buffers[index].channel_status
            &&& shown == ConnectionState::Connected <==> state == ChannelState::Joined && up
            &&& shown == ConnectionState::Connecting <==> state == ChannelState::Joining || state
                == ChannelState::Parting
            &&& session.connection_state(server, None) == session.servers[text::lower(
                server,
            )].connection
        }),
{
    assert(session.servers.contains_key(session.buffers[index].server));
    lemma_index_about(session, index, BufferKindView::Channel(channel));
}

/// What is said in a known channel, or comes to a server's console, is the newest
/// message there, and nothing else changes.
pub proof fn law_public_messages_reach_their_conversation(
    session: SessionView,
    message: RoutedMessageView,
    index: int,
    other: BufferId,
)
    requires
        session.wf(),
        session.history.capacity > 0,
        0 <= index < session.buffers.len(),
        session.buffers[index].server == message.server,
        session.buffers[index].kind.matches(message.target),
        !(message.target is Query),
        !(message.content.kind is Error),
    ensures
        ({
            let after = session.push(message).0;
            let id = session.buffers[index].id;
            &&& after.history.of(id).last().content == message.content
            &&& after.history.of(id).last().id.0 == session.history.next_id
            &&& after.buffers == session.buffers
            &&& after.active == session.active
            &&& after.servers == session.servers
            &&& other != id ==> after.history.of(other) == session.history.of(other)
        }),
{
    lemma_index_about(session, index, message.target);
    let id = session.buffers[index].id;
    let after = session.push(message).0;
    let grown = session.history.grown(id, message.content);
    assert(after.history.of(id) == grown.skip(session.history.excess(id)));
    assert(after.history.of(id).last() == grown.last());
}

/// What nobody asked for is dropped while anything is open, unless it is a refusal,
/// which the server's console shows.
pub proof fn law_unwanted_messages_are_dropped(session: SessionView, message: RoutedMessageView)
    requires
        session.wf(),
        session.has_room(),
        session.history.capacity > 0,
        session.buffers.len() > 0,
        message.target is Channel,
        text::lower(message.server) == message.server,
        forall|i: int|
            0 <= i < session.buffers.len() ==> !((#[trigger] session.buffers[i]).server
                == message.server && session.buffers[i].kind.matches(message.target)),
    ensures
        ({
            let after = session.push(message).0;
            let console = after.index_about(message.server, BufferKindView::Server);
            &&& !(message.content.kind is Error) ==> after == session
            &&& message.content.kind is Error ==> console is Some && after.history.of(
                after.buffers[console->0].id,
            ).last().content == message.content
        }),
{
    let about = is_about(message.server, message.target);
    assert forall|i: int| 0 <= i < session.buffers.len() implies !about(
        #[trigger] session.buffers[i],
    ) by {
        assert(!(session.buffers[i].server == message.server && session.buffers[i].kind.matches(
            message.target,
        )));
    }
    lemma_no_first_index(session.buffers, about);
    if message.content.kind is Error {
        let label = session.label_of(message.server);
        lemma_open_buffer_wf(session, label, BufferKindView::Server);
        lemma_first_index(session.buffers, is_about(message.server, BufferKindView::Server));
        let (opened, id) = session.open_server(label);
        assert(text::lower(label) == message.server);
        let place = match session.index_about(message.server, BufferKindView::Server) {
            Some(place) => place,
            None => session.buffers.len() as int,
        };
        assert(opened.buffers[place].id == id);
        lemma_index_about(opened, place, BufferKindView::Server);
        let after = session.push(message).0;
        let grown = opened.history.grown(id, message.content);
        assert(after.history.of(id) == grown.skip(opened.history.excess(id)));
        assert(after.history.of(id).last() == grown.last());
        assert(after.buffers == opened.buffers);
    }
}

/// That a peer does not exist is told in the shown conversation with the peer.
pub proof fn law_missing_peers_are_told_in_their_conversation(
    session: SessionView,
    message: RoutedMessageView,
    index: int,
    peer: Seq<char>,
    reason: Seq<char>,
)
    requires
        session.wf(),
        session.has_room(),
        session.history.capacity > 0,
        0 <= index < session.buffers.len(),
        session.buffers[index].server == message.server,
        session.buffers[index].kind is Query,
        text::same_name(session.buffers[index].kind->Query_0, peer),
        !session.buffers[index].hidden,
        message.target is Server,
        message.content.kind == (MessageKindView::Error { code: 401, target: Some(peer), reason }),
        message.content.direction == Direction::Incoming,
        message.content.nick.len() == 0,
        session.buffers[index].kind->Query_0.len() > 0,
    ensures
        ({
            let after = session.push(message).0;
            &&& after.history.of(session.buffers[index].id).last().content == message.content
            &&& after.buffers == session.buffers
            &&& after.active == session.active
        }),
{
    let shown = crate::application::queries::is_shown_query(message.server, peer);
    let buffer = session.buffers[index];
    assert forall|i: int| 0 <= i < index implies !shown(#[trigger] session.buffers[i]) by {
        assert(session.buffers[i].id.0 < session.buffers[index].id.0);
    }
    lemma_is_first_index(session.buffers, shown, index);
    lemma_index_about(session, index, buffer.kind);
    let routed = session.route_error(message);
    assert(routed.target == buffer.kind);
    assert(text::lower(buffer.kind->Query_0).len() == buffer.kind->Query_0.len());
    assert(text::lower(message.content.nick).len() == 0);
    assert(session.echo_of(routed) is None);
    let id = buffer.id;
    let after = session.push(message).0;
    let grown = session.history.grown(id, message.content);
    assert(after.history.of(id) == grown.skip(session.history.excess(id)));
    assert(after.history.of(id).last() == grown.last());
}

/// A shown conversation can be made the active one, a hidden one cannot; reading it
/// takes its mark away and no other.
pub proof fn law_shown_conversations_can_be_selected(session: SessionView, index: int, i: int)
    requires
        session.wf(),
        0 <= index < session.buffers.len(),
        0 <= i < session.buffers.len(),
    ensures
        ({
            let id = session.buffers[index].id;
            let read = session.mark_read(id);
            &&& !session.buffers[index].hidden ==> session.select(id) == (SessionView {
                active: Some(id),
                ..session
            })
            &&& session.buffers[index].hidden ==> session.select(id) == session
            &&& !read.buffers[index].unread
            &&& i != index ==> read.buffers[i] == session.buffers[i]
            &&& read.buffers[index] == (BufferView { unread: false, ..session.buffers[index] })
            &&& read.history == session.history && read.active == session.active
        }),
{
    lemma_index_of(session, index);
}

/// A conversation that is opened anew stands behind all others, empty, shown and
/// read, under an identity of its own; nothing else changes.
pub proof fn law_new_conversations_are_empty(
    session: SessionView,
    server: Seq<char>,
    kind: BufferKindView,
)
    requires
        session.wf(),
        session.has_room(),
        forall|i: int|
            0 <= i < session.buffers.len() ==> !((#[trigger] session.buffers[i]).server
                == text::lower(server) && session.buffers[i].kind.matches(kind)),
    ensures
        ({
            let (after, id) = session.open_buffer(server, kind);
            let new = after.buffers.last();
            &&& after.buffers.len() == session.buffers.len() + 1
            &&& after.buffers.drop_last() == session.buffers
            &&& new.id == id && new.id.0 == session.next_buffer_id
            &&& after.next_buffer_id == session.next_buffer_id + 1
            &&& new.server == text::lower(server)
            &&& new.kind == kind
            &&& new.draft.text.len() == 0 && new.draft.cursor == 0
            &&& !new.hidden && !new.unread && !new.send_blocked
            &&& new.channel_status.state == ChannelState::NotJoined
            &&& !new.channel_status.desired
            &&& new.pending_channel_changes == 0
            &&& after.active == session.active && after.history == session.history
            &&& after.connection_state(server, None) == session.connection_state(server, None)
        }),
{
    let about = is_about(text::lower(server), kind);
    assert forall|i: int| 0 <= i < session.buffers.len() implies !about(
        #[trigger] session.buffers[i],
    ) by {
        assert(!(session.buffers[i].server == text::lower(server) && session.buffers[i].kind.matches(
            kind,
        )));
    }
    lemma_no_first_index(session.buffers, about);
    let after = session.open_buffer(server, kind).0;
    assert(after.buffers.drop_last() =~= session.buffers);
}

/// Asking for a private conversation opens it and brings it into view; closing one
/// hides it and brings the server's console into view.
pub proof fn law_private_conversations_open_and_close(
    session: SessionView,
    names: Seq<Seq<char>>,
    index: int,
    peer: Seq<char>,
)
    requires
        session.wf(),
        session.has_room(),
        is_active(session, index),
    ensures
        ({
            let label = session.buffers[index].server_label;
            let (opened, id) = session.open_query(label, peer);
            let query = session.command_plan(names, CommandActionView::Query(peer));
            let close = session.command_plan(names, CommandActionView::Close);
            &&& query is Ok && query->Ok_0 is Settled
            &&& query->Ok_0->effect == SubmissionEffect::Activate(id)
            &&& query->Ok_0->session.history == session.history
            &&& query->Ok_0->session.active == session.active
            &&& query->Ok_0->status is None
            &&& session.buffers[index].kind is Query ==> {
                &&& close is Ok && close->Ok_0 is Settled
                &&& close->Ok_0->effect == SubmissionEffect::Activate(
                    session.close_query(session.buffers[index].id).1->0,
                )
                &&& close->Ok_0->session.history == session.history
            }
            &&& !(session.buffers[index].kind is Query) ==> close == Err::<PlanView, _>(
                Refusal::NotQuery,
            )
        }),
{
    lemma_index_of(session, index);
}

/// A connection that is reported while no request waits is what the session shows.
/// A confirmed one leaves the channels as they are; while one is being made, wanted
/// channels are being joined; and without one no channel is joined.
pub proof fn law_reported_connections_are_shown(
    session: SessionView,
    server: Seq<char>,
    connection: ConnectionState,
    at: SystemTime,
    i: int,
)
    requires
        !session.has_pending_change(server),
        0 <= i < session.buffers.len(),
    ensures
        ({
            let after = session.handle_event(IrcEventView::Connection(server, connection), at);
            let ours = session.buffers[i].server == text::lower(server)
                && session.buffers[i].kind is Channel;
            let wanted = session.buffers[i].channel_status.desired;
            &&& after.connection_state(server, None) == connection
            &&& connection == ConnectionState::Connected || !ours ==> after.buffers[i]
                == session.buffers[i]
            &&& ours && connection == ConnectionState::Connecting && wanted
                ==> after.buffers[i].channel_status == (ChannelStatus {
                state: ChannelState::Joining,
                desired: true,
            })
            &&& ours && connection == ConnectionState::Connecting && !wanted
                ==> after.buffers[i].channel_status == (ChannelStatus {
                state: ChannelState::NotJoined,
                desired: false,
            })
            &&& ours && connection == ConnectionState::Stopped
                ==> after.buffers[i].channel_status == (ChannelStatus {
                state: ChannelState::NotJoined,
                desired: wanted,
            })
            &&& after.history == session.history && after.active == session.active
        }),
{
}

/// A channel's reported status is what the session shows, for known channels as for
/// new ones, while no request waits.
pub proof fn law_reported_channels_are_shown(
    session: SessionView,
    server: Seq<char>,
    channel: Seq<char>,
    status: ChannelStatus,
    at: SystemTime,
)
    requires
        session.wf(),
        session.has_room(),
        !session.has_pending_change(server),
        model::channel_name(channel),
        session.channel_index(server, channel) is Some ==> session.buffers[session.channel_index(
            server,
            channel,
        )->0].pending_channel_changes == 0,
    ensures
        ({
            let after = session.handle_event(IrcEventView::Channel(server, channel, status), at);
            &&& after.channel_index(server, channel) is Some
            &&& after.channel_status(server, channel) == status
            &&& after.history == session.history && after.active == session.active
        }),
{
    let kind = BufferKindView::Channel(channel);
    let id = text::lower(server);
    let about = is_about(id, kind);
    lemma_open_buffer_wf(session, server, kind);
    lemma_first_index(session.buffers, about);
    let (opened, opened_id) = session.open_channel(server, channel);
    let place = match session.index_about(id, kind) {
        Some(index) => index,
        None => session.buffers.len() as int,
    };
    assert(opened.buffers[place].id == opened_id);
    lemma_index_of(opened, place);
    let after = session.handle_event(IrcEventView::Channel(server, channel, status), at);
    assert forall|i: int| 0 <= i < place implies !about(#[trigger] after.buffers[i]) by {
        assert(!about(session.buffers[i]));
    }
    assert(about(after.buffers[place]));
    lemma_is_first_index(after.buffers, about, place);
}

/// The conversation at `index` is about this channel, which the user wants.
pub open spec fn wants(
    session: SessionView,
    index: int,
    server: Seq<char>,
    channel: Seq<char>,
) -> bool {
    &&& 0 <= index < session.buffers.len()
    &&& session.buffers[index].server == text::lower(server)
    &&& session.buffers[index].kind.matches(BufferKindView::Channel(channel))
    &&& session.buffers[index].channel_status.desired
}

proof fn lemma_channels_are_wanted(
    session: SessionView,
    name: Seq<char>,
    channels: Seq<Seq<char>>,
    count: int,
    j: int,
) -> (index: int)
    requires
        0 <= j < count <= channels.len(),
    ensures
        wants(session.register_channels(name, channels, count), index, name, channels[j]),
    decreases count,
{
    let before = session.register_channels(name, channels, count - 1);
    let channel = channels[count - 1];
    let kind = BufferKindView::Channel(channel);
    let about = is_about(text::lower(name), kind);
    let opened = before.open_channel(name, channel).0;
    lemma_first_index(before.buffers, about);
    lemma_first_index(opened.buffers, about);
    if before.index_about(text::lower(name), kind) is None {
        assert(about(opened.buffers[before.buffers.len() as int]));
    }
    if j < count - 1 {
        let index = lemma_channels_are_wanted(session, name, channels, count - 1, j);
        assert(opened.buffers[index] == before.buffers[index]);
        index
    } else {
        opened.channel_index(name, channel)->0
    }
}

proof fn lemma_queries_keep_wishes(
    session: SessionView,
    name: Seq<char>,
    queries: Seq<Seq<char>>,
    count: int,
    index: int,
    channel: Seq<char>,
)
    requires
        wants(session, index, name, channel),
    ensures
        wants(session.register_queries(name, queries, count), index, name, channel),
    decreases count,
{
    if count > 0 {
        lemma_queries_keep_wishes(session, name, queries, count - 1, index, channel);
        let before = session.register_queries(name, queries, count - 1);
        let (opened, id) = before.open_buffer(name, BufferKindView::Query(queries[count - 1]));
        lemma_first_index(opened.buffers, has_id(id));
    }
}

/// The channels of a registered server are wanted, and being joined as long as no
/// request waits.
pub proof fn law_configured_channels_are_being_joined(
    session: SessionView,
    name: Seq<char>,
    server: ServerConfigView,
    j: int,
)
    requires
        !session.has_pending_change(name),
        0 <= j < server.channels.len(),
    ensures
        exists|i: int|
            #![trigger session.register_server(name, server).buffers[i]]
            wants(session.register_server(name, server), i, name, server.channels[j])
                && session.register_server(name, server).buffers[i].channel_status.state
                == ChannelState::Joining,
{
    let console = session.open_server(name).0;
    let count = server.channels.len() as int;
    let channels = console.register_channels(name, server.channels, count);
    let index = lemma_channels_are_wanted(console, name, server.channels, count, j);
    lemma_queries_keep_wishes(
        channels,
        name,
        server.queries,
        server.queries.len() as int,
        index,
        server.channels[j],
    );
    lemma_channels_wait_for_nothing(console, name, server.channels, count);
    lemma_queries_wait_for_nothing(channels, name, server.queries, server.queries.len() as int);
    let after = session.register_server(name, server);
    assert(wants(after, index, name, server.channels[j]));
    assert(after.buffers[index].channel_status.state == ChannelState::Joining);
}

/// A registered server is connecting, as long as no request waits.
pub proof fn law_configured_servers_are_connecting(
    session: SessionView,
    name: Seq<char>,
    server: ServerConfigView,
)
    requires
        !session.has_pending_change(name),
    ensures
        session.register_server(name, server).connection_state(name, None)
            == ConnectionState::Connecting,
{
    let console = session.open_server(name).0;
    lemma_channels_wait_for_nothing(console, name, server.channels, server.channels.len() as int);
    let channels = console.register_channels(name, server.channels, server.channels.len() as int);
    lemma_queries_wait_for_nothing(channels, name, server.queries, server.queries.len() as int);
}

proof fn lemma_channels_wait_for_nothing(
    session: SessionView,
    name: Seq<char>,
    channels: Seq<Seq<char>>,
    count: int,
)
    requires
        !session.has_pending_change(name),
    ensures
        !session.register_channels(name, channels, count).has_pending_change(name),
    decreases count,
{
    if count > 0 {
        lemma_channels_wait_for_nothing(session, name, channels, count - 1);
    }
}

proof fn lemma_queries_wait_for_nothing(
    session: SessionView,
    name: Seq<char>,
    queries: Seq<Seq<char>>,
    count: int,
)
    requires
        !session.has_pending_change(name),
    ensures
        !session.register_queries(name, queries, count).has_pending_change(name),
    decreases count,
{
    if count > 0 {
        lemma_queries_wait_for_nothing(session, name, queries, count - 1);
    }
}

/// A typed command is carried out as its plan says, and recorded: what is queued for
/// it, what it does at once, or why it is refused.
pub proof fn law_typed_commands_are_carried_out(
    session: SessionView,
    names: Seq<Seq<char>>,
    command: SlashCommandView,
)
    requires
        parsed_slash(session.draft().text) == Some(Ok::<_, SlashParseError>(command)),
    ensures
        ({
            let plan = session.plan(names);
            let refused = |why: Refusal|
                PlanView::Settled {
                    session,
                    status: None,
                    effect: SubmissionEffect::Nothing,
                    feedback: Some(FeedbackView::Rejected(why)),
                };
            let broken = !one_line(session.draft().text);
            &&& broken ==> plan == refused(Refusal::InvalidCharacters)
            &&& !broken && requested_action(command) == Err::<CommandActionView, _>(
                CommandError::Unsupported,
            ) ==> plan == refused(Refusal::Unsupported)
            &&& !broken && requested_action(command) == Err::<CommandActionView, _>(
                CommandError::InvalidArguments,
            ) ==> plan == refused(Refusal::InvalidArguments)
            &&& !broken && requested_action(command) is Ok ==> {
                let carried = session.command_plan(names, requested_action(command)->Ok_0);
                &&& carried matches Err(why) ==> plan == refused(why)
                &&& carried matches Ok(PlanView::Queue(pending)) ==> plan == PlanView::Queue(
                    pending,
                )
                &&& carried matches Ok(
                    PlanView::Settled { session: done, status, effect, .. },
                ) ==> plan == (PlanView::Settled {
                    session: done,
                    status,
                    effect,
                    feedback: Some(FeedbackView::Accepted),
                })
            }
        }),
{
    lemma_one_line(session.draft().text);
}

/// A console line that joins or parts is carried out as the command would be; where
/// it is refused, that is recorded.
pub proof fn law_console_joins_are_commands(
    session: SessionView,
    names: Seq<Seq<char>>,
    server: Seq<char>,
    line: Seq<char>,
    channel: Seq<char>,
    reason: Option<Seq<char>>,
)
    requires
        one_line(session.draft().text),
        encoded(OutgoingMessageView::Raw { server, line }) is Ok,
    ensures
        ({
            let plan = session.outgoing_plan(names, OutgoingMessageView::Raw { server, line });
            let join = session.command_plan(names, CommandActionView::Join(channel));
            let part = session.command_plan(
                names,
                CommandActionView::Part { channel: Some(channel), reason },
            );
            let refused = |why: Refusal|
                PlanView::Settled {
                    session,
                    status: None,
                    effect: SubmissionEffect::Nothing,
                    feedback: Some(FeedbackView::ChannelRejected(why)),
                };
            &&& controlled_raw(line) == Ok::<_, SendError>(
                Some(ConnectionCommandView::Join(channel)),
            ) ==> {
                &&& join matches Ok(carried) ==> plan == carried
                &&& join matches Err(why) ==> plan == refused(why)
            }
            &&& controlled_raw(line) == Ok::<_, SendError>(
                Some(ConnectionCommandView::Part { channel, reason }),
            ) ==> {
                &&& part matches Ok(carried) ==> plan == carried
                &&& part matches Err(why) ==> plan == refused(why)
            }
        }),
{
    lemma_one_line(session.draft().text);
}

/// Input of whitespace alone is only cleared away; without a conversation nothing
/// that is no command does anything; and a slash alone is recorded as no command.
pub proof fn law_blank_input_does_nothing(session: SessionView, names: Seq<Seq<char>>)
    ensures
        ({
            let input = session.draft().text;
            let settled = |after: SessionView, feedback: Option<FeedbackView>|
                PlanView::Settled {
                    session: after,
                    status: None,
                    effect: SubmissionEffect::Nothing,
                    feedback,
                };
            &&& blank(input) && one_line(input) && session.active_buffer() is Some ==> session.plan(
                names,
            ) == settled(session.with_draft(DraftView::empty()), None)
            &&& parsed_slash(input) is None && session.active_buffer() is None ==> session.plan(
                names,
            ) == settled(session, None)
            &&& parsed_slash(input) matches Some(Err(_)) ==> session.plan(names) == settled(
                session,
                Some(FeedbackView::Unparsed(Refusal::MissingName)),
            )
        }),
{
    let input = session.draft().text;
    lemma_one_line(input);
    if blank(input) {
        text::law_trimming_keeps_the_text(input, Seq::empty(), Seq::empty());
        assert(input + Seq::<char>::empty() + Seq::<char>::empty() =~= input);
    }
}

/// What is offered to a queue is what was planned, to the worker that was planned;
/// and what comes of it depends on the queue's answer alone.
pub proof fn law_what_is_planned_is_offered(
    session: SessionView,
    servers: Seq<(Seq<char>, ServerConfigView)>,
    names: Seq<Seq<char>>,
    connection: int,
    message: OutgoingMessageView,
    target: BufferKindView,
    server: Seq<char>,
    channel: Seq<char>,
    command: ConnectionCommandView,
    next: Option<ConnectionState>,
    at: SystemTime,
)
    ensures
        ({
            let say = PendingView::Message { connection, message, target };
            let control = PendingView::Control { connection, server, command, next };
            let join = PendingView::Join { connection, server, channel, command };
            let part = PendingView::Part { connection, server, channel, command };
            &&& say.item() == QueueItemView::Message(message) && say.connection() == connection
            &&& control.item() == QueueItemView::Control(command) && control.connection()
                == connection
            &&& join.item() == QueueItemView::Control(command) && join.connection() == connection
            &&& part.item() == QueueItemView::Control(command) && part.connection() == connection
        }),
        session.plan(names) matches PlanView::Queue(pending) ==> {
            &&& session.submit(servers, names, true, at) == session.complete(
                servers,
                pending,
                true,
                at,
            )
            &&& session.submit(servers, names, false, at).0 == session
            &&& session.submit(servers, names, false, at).2 == SubmissionEffect::Nothing
            &&& !(pending is Message) && parsed_slash(session.draft().text) is Some ==> {
                &&& session.submit(servers, names, true, at).3 == Some(FeedbackView::Accepted)
                &&& session.submit(servers, names, false, at).3 == Some(
                    FeedbackView::Rejected(Refusal::DisconnectedOrBusy),
                )
            }
        },
{
}

/// Where the server is not connected, the channel is not joined or no worker serves
/// it, the status says so; and where the peer took another name, how to go on. The
/// session stays as it is.
pub proof fn law_unsent_messages_are_explained(
    session: SessionView,
    names: Seq<Seq<char>>,
    index: int,
    target: Seq<char>,
    said: Seq<char>,
)
    requires
        session.wf(),
        is_active(session, index),
        session.buffers[index].kind == BufferKindView::Query(target)
            || session.buffers[index].kind == BufferKindView::Channel(target),
    ensures
        ({
            let buffer = session.buffers[index];
            let message = OutgoingMessageView::Privmsg {
                server: buffer.server_label,
                target,
                text: said,
            };
            let up = session.servers[buffer.server].connection == ConnectionState::Connected;
            let joined = buffer.kind is Channel ==> buffer.channel_status.state
                == ChannelState::Joined;
            let served = exists|i: int|
                0 <= i < names.len() && text::same_name(#[trigger] names[i], buffer.server_label);
            let busy = "failed to send ("@ + buffer.server_label + " disconnected or busy)"@;
            let plan = session.message_plan(names, message);
            &&& buffer.send_blocked ==> plan == (PlanView::Settled {
                session,
                status: Some("query target changed; use /query to select a nickname"@),
                effect: SubmissionEffect::Nothing,
                feedback: None,
            })
            &&& !buffer.send_blocked && (!up || !joined || !served) ==> plan == (PlanView::Settled {
                session,
                status: Some(busy),
                effect: SubmissionEffect::Nothing,
                feedback: Some(FeedbackView::Unsent(buffer.server_label)),
            })
        }),
{
    let buffer = session.buffers[index];
    lemma_index_of(session, index);
    lemma_index_about(session, index, buffer.kind);
    assert(session.servers.contains_key(buffer.server));
    lemma_first_index(names, is_named(buffer.server_label));
}

/// Where a peer takes a name that has a conversation already, the old conversation
/// says who is who now and how to go on.
pub proof fn law_colliding_names_are_explained(
    session: SessionView,
    index: int,
    other: int,
    previous: Seq<char>,
    nickname: Seq<char>,
    at: SystemTime,
)
    requires
        session.wf(),
        session.history.capacity > 0,
        0 <= index < session.buffers.len(),
        0 <= other < session.buffers.len(),
        other != index,
        !session.buffers[index].send_blocked,
        session.buffers[index].kind == BufferKindView::Query(previous),
        session.buffers[other].server == session.buffers[index].server,
        session.buffers[other].kind == BufferKindView::Query(nickname),
        text::lower(session.buffers[index].server) == session.buffers[index].server,
    ensures
        ({
            let buffer = session.buffers[index];
            let after = session.handle_event(
                IrcEventView::PeerNickname(buffer.server, previous, nickname),
                at,
            );
            let line = after.history.of(buffer.id).last().content;
            &&& line.text == previous + " is now "@ + nickname
                + "; existing conversations kept. Use /query "@ + nickname
            &&& line.kind == MessageKindView::Console
            &&& line.received_at == at
            &&& after.buffers[index].send_blocked && after.buffers[index].unread
            &&& after.buffers[index].kind == buffer.kind
            &&& after.buffers[other] == session.buffers[other]
        }),
{
    let buffer = session.buffers[index];
    let open = crate::application::queries::is_open_query(buffer.server, previous);
    assert forall|i: int| 0 <= i < index implies !open(#[trigger] session.buffers[i]) by {
        assert(session.buffers[i].id.0 < session.buffers[index].id.0);
    }
    lemma_is_first_index(session.buffers, open, index);
    assert(session.buffers[other].id != buffer.id) by {
        if other < index {
            assert(session.buffers[other].id.0 < session.buffers[index].id.0);
        } else {
            assert(session.buffers[index].id.0 < session.buffers[other].id.0);
        }
    }
    assert(session.has_other_query(buffer.server, buffer.id, nickname));
    let text = previous + " is now "@ + nickname + "; existing conversations kept. Use /query "@
        + nickname;
    let content = crate::model::MessageContentView::console(text, at);
    let grown = session.history.grown(buffer.id, content);
    let after = session.rename_query(buffer.server, previous, nickname, at);
    assert(after.history.of(buffer.id) == grown.skip(session.history.excess(buffer.id)));
    assert(after.history.of(buffer.id).last() == grown.last());
}

/// No copy of a message to ourselves is awaited over a connection that is gone or
/// under a name that we no longer have; what other servers owe us stays.
pub proof fn law_copies_are_awaited_from_one_connection(
    session: SessionView,
    server: Seq<char>,
    nickname: Seq<char>,
    connection: ConnectionState,
    at: SystemTime,
    index: int,
    message: crate::model::MessageId,
)
    requires
        session.wf(),
        0 <= index < session.buffers.len(),
    ensures
        ({
            let buffer = session.buffers[index];
            let echo = (buffer.id, message);
            let ours = buffer.server == text::lower(server);
            let lost = session.handle_event(IrcEventView::Connection(server, connection), at);
            let renamed = session.handle_event(IrcEventView::Nickname(server, nickname), at);
            let known = session.nickname(server);
            &&& ours && connection != ConnectionState::Connected && !session.has_pending_change(
                server,
            ) ==> !lost.echoes.contains(echo)
            &&& !ours || connection == ConnectionState::Connected ==> lost.echoes.contains(echo)
                == session.echoes.contains(echo)
            &&& ours && known is Some && !text::same_name(known->0, nickname)
                ==> !renamed.echoes.contains(echo)
            &&& !ours || known is None || text::same_name(known->0, nickname)
                ==> renamed.echoes.contains(echo) == session.echoes.contains(echo)
        }),
{
    let buffer = session.buffers[index];
    let told = session.set_connection(server, connection);
    assert(told.buffers == session.buffers);
    assert forall|i: int|
        0 <= i < session.buffers.len() && (#[trigger] session.buffers[i]).id == buffer.id implies i
        == index by {
        if i < index {
            assert(session.buffers[i].id.0 < session.buffers[index].id.0);
        } else if index < i {
            assert(session.buffers[index].id.0 < session.buffers[i].id.0);
        }
    }
    let id = text::lower(server);
    if buffer.server != id {
        assert(session.buffers[index].id == buffer.id && session.buffers[index].server != id);
        assert(told.buffers[index].id == buffer.id && told.buffers[index].server != id);
    }
}

/// A refusal is recorded in words that tell nothing of what was written.
pub proof fn law_refusals_have_their_words()
    ensures
        Refusal::NoServer.word() == "no_server"@,
        Refusal::NoQuery.word() == "no_query"@,
        Refusal::NotQuery.word() == "not_query"@,
        Refusal::UnknownServer.word() == "unknown_server"@,
        Refusal::NotConnected.word() == "not_connected"@,
        Refusal::NoChannel.word() == "no_channel"@,
        Refusal::UnknownChannel.word() == "unknown_channel"@,
        Refusal::ChannelBusy.word() == "channel_busy"@,
        Refusal::InvalidControl.word() == "invalid_control"@,
        Refusal::MissingName.word() == "missing_name"@,
        Refusal::InvalidCharacters.word() == "invalid_characters"@,
        Refusal::Unsupported.word() == "unsupported"@,
        Refusal::InvalidArguments.word() == "invalid_arguments"@,
        Refusal::DisconnectedOrBusy.word() == "disconnected_or_busy"@,
{
}

/// Something that we say in a private conversation is its newest message and brings
/// it back where it was hidden, but is no news: the mark stays as it was.
pub proof fn law_our_own_words_are_no_news(
    session: SessionView,
    message: RoutedMessageView,
    index: int,
    i: int,
    other: BufferId,
)
    requires
        session.wf(),
        session.has_room(),
        session.history.capacity > 0,
        0 <= index < session.buffers.len(),
        0 <= i < session.buffers.len(),
        session.buffers[index].server == message.server,
        message.target is Query,
        session.buffers[index].kind.matches(message.target),
        message.content.kind is Chat || message.content.kind is Action,
        message.content.direction == Direction::Outgoing,
    ensures
        ({
            let after = session.push(message).0;
            let id = session.buffers[index].id;
            &&& after.history.of(id).last().content == message.content
            &&& after.buffers[index] == (BufferView { hidden: false, ..session.buffers[index] })
            &&& i != index ==> after.buffers[i] == session.buffers[i]
            &&& after.active == session.active
            &&& other != id ==> after.history.of(other) == session.history.of(other)
        }),
{
    lemma_index_about(session, index, message.target);
    let id = session.buffers[index].id;
    assert(session.route_error(message) == message);
    assert(session.echo_of(message) is None);
    let after = session.push(message).0;
    let grown = session.history.grown(id, message.content);
    assert(after.history.of(id) == grown.skip(session.history.excess(id)));
    assert(after.history.of(id).last() == grown.last());
}

/// What a server tells about a peer goes to the conversation with the peer while it
/// is shown, and to the server's console otherwise; it marks nothing as unread.
pub proof fn law_notes_about_peers_go_where_they_are_seen(
    session: SessionView,
    message: RoutedMessageView,
    index: int,
)
    requires
        session.wf(),
        session.has_room(),
        session.history.capacity > 0,
        0 <= index < session.buffers.len(),
        session.buffers[index].server == message.server,
        text::lower(message.server) == message.server,
        message.target is Query,
        session.buffers[index].kind.matches(message.target),
        message.content.kind is Console,
        message.content.nick.len() == 0,
        message.target->Query_0.len() > 0,
    ensures
        ({
            let after = session.push(message).0;
            let console = after.index_about(message.server, BufferKindView::Server);
            let buffer = session.buffers[index];
            &&& after.buffers[index] == buffer
            &&& !buffer.hidden ==> after.buffers == session.buffers && after.history.of(
                buffer.id,
            ).last().content == message.content
            &&& buffer.hidden ==> console is Some && after.history.of(
                after.buffers[console->0].id,
            ).last().content == message.content
            &&& after.active == session.active
        }),
{
    lemma_index_about(session, index, message.target);
    assert(session.route_error(message) == message);
    assert(text::lower(message.target->Query_0).len() == message.target->Query_0.len());
    assert(text::lower(message.content.nick).len() == 0);
    assert(session.echo_of(message) is None);
    let label = session.label_of(message.server);
    assert(text::lower(label) == message.server);
    let (opened, id) = session.query_destination(message);
    let after = session.push(message).0;
    let grown = opened.history.grown(id, message.content);
    assert(after.history.of(id) == grown.skip(opened.history.excess(id)));
    assert(after.history.of(id).last() == grown.last());
    if session.buffers[index].hidden {
        lemma_open_buffer_wf(session, label, BufferKindView::Server);
        lemma_first_index(session.buffers, is_about(message.server, BufferKindView::Server));
        let place = match session.index_about(message.server, BufferKindView::Server) {
            Some(place) => place,
            None => session.buffers.len() as int,
        };
        assert(opened.buffers[place].id == id);
        lemma_index_about(opened, place, BufferKindView::Server);
    }
}

/// A message counts as the copy of one to ourselves only if that one is awaited in
/// the conversation, and sender, words and kind agree; anything else is shown.
pub proof fn law_only_copies_are_left_out(
    session: SessionView,
    message: RoutedMessageView,
    index: int,
)
    requires
        session.wf(),
        0 <= index < session.buffers.len(),
        session.buffers[index].server == message.server,
        message.target is Query,
        session.buffers[index].kind.matches(message.target),
        forall|m: int|
            0 <= m < session.history.of(session.buffers[index].id).len() ==> {
                let earlier = #[trigger] session.history.of(session.buffers[index].id)[m];
                ||| !session.echoes.contains((session.buffers[index].id, earlier.id))
                ||| earlier.content.text != message.content.text
                ||| earlier.content.kind != message.content.kind
                ||| !text::same_name(earlier.content.nick, message.content.nick)
            },
    ensures
        session.echo_of(message) is None,
        session.push(message).1 is Some,
{
    lemma_index_about(session, index, message.target);
    let id = session.buffers[index].id;
    let messages = session.history.of(id);
    let echo = crate::application::queries::is_echo_of(session.echoes, id, message.content);
    assert forall|m: int| 0 <= m < messages.len() implies !echo(#[trigger] messages[m]) by {}
    lemma_no_first_index(messages, echo);
    assert(session.route_error(message) == message);
}

/// A session begins without conversations, servers and drafts.
pub proof fn law_sessions_begin_empty(capacity: nat, server: Seq<char>, id: BufferId)
    ensures
        ({
            let session = SessionView::empty(capacity);
            &&& session.buffers.len() == 0
            &&& session.active is None
            &&& session.draft().text.len() == 0
            &&& session.history.of(id).len() == 0
            &&& session.history.capacity == capacity
            &&& session.connection_state(server, None) == ConnectionState::Stopped
            &&& session.nickname(server) is None
            &&& !session.is_away(server)
            &&& !session.has_pending_change(server)
        }),
{
}

} // verus!
