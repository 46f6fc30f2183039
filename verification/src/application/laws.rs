//! What holds of a session across several operations.

use std::time::SystemTime;

use vstd::prelude::*;

use crate::application::queries::{from_the_peer, is_echo_of, is_open_query, is_speech};
use crate::application::servers::ServerStateView;
use crate::application::submission::{is_named, PendingView, PlanView};
use crate::application::{
    has_id, is_about, lemma_open_buffer_wf, lemma_with_buffer_wf, BufferView, InputSubmissionView,
    SessionView, SubmissionEffect,
};
use crate::command::{is_slash_input, parsed_slash, requested_action, CommandActionView};
use crate::config::ServerConfigView;
use crate::connection::{ConnectionState, IrcEventView};
use crate::model::{
    BufferId, BufferKindView, ChannelState, ConnectionCommandView, Direction, DraftView,
    OutgoingMessageView, RoutedMessageView,
};
use crate::protocol::{controlled_raw, encoded};
use crate::sequence::{
    first_index, lemma_first_index, lemma_is_first_index, lemma_no_first_index,
};
use crate::text;

verus! {

/// A conversation is found under its identity where it stands.
pub proof fn lemma_index_of(session: SessionView, index: int)
    requires
        session.wf(),
        0 <= index < session.buffers.len(),
    ensures
        session.index_of(session.buffers[index].id) == Some(index),
{
    let id = session.buffers[index].id;
    assert forall|i: int| 0 <= i < index implies !has_id(id)(#[trigger] session.buffers[i]) by {
        assert(session.buffers[i].id.0 < session.buffers[index].id.0);
    }
    lemma_is_first_index(session.buffers, has_id(id), index);
}

/// Registering twice is registering once: the same identity, under any spelling
/// of the names, and nothing else changes; the active conversation stays.
pub proof fn law_registration_is_idempotent(
    session: SessionView,
    server: Seq<char>,
    kind: BufferKindView,
    server_again: Seq<char>,
    kind_again: BufferKindView,
)
    requires
        text::same_name(server, server_again),
        kind.matches(kind_again),
    ensures
        ({
            let (opened, id) = session.open_buffer(server, kind);
            &&& opened.open_buffer(server_again, kind_again) == (opened, id)
            &&& opened.active == session.active
            &&& opened.history == session.history
        }),
{
    let (opened, id) = session.open_buffer(server, kind);
    let about = is_about(text::lower(server), kind);
    let again = is_about(text::lower(server_again), kind_again);
    lemma_first_index(session.buffers, about);
    match session.index_about(text::lower(server), kind) {
        Some(index) => {
            assert forall|i: int| 0 <= i < index implies !again(#[trigger] session.buffers[i]) by {
                assert(!about(session.buffers[i]));
            }
            lemma_is_first_index(session.buffers, again, index);
        },
        None => {
            let last = session.buffers.len() as int;
            assert forall|i: int| 0 <= i < last implies !again(#[trigger] opened.buffers[i]) by {
                assert(!about(session.buffers[i]));
            }
            lemma_is_first_index(opened.buffers, again, last);
        },
    }
}

/// Servers are told apart by their names without regard to ASCII case.
pub proof fn law_server_names_ignore_case(
    session: SessionView,
    server: Seq<char>,
    again: Seq<char>,
    channel: Option<Seq<char>>,
)
    requires
        text::same_name(server, again),
    ensures
        session.connection_state(server, channel) == session.connection_state(again, channel),
        session.nickname(server) == session.nickname(again),
        session.is_away(server) == session.is_away(again),
        session.has_pending_change(server) == session.has_pending_change(again),
{
}

/// Input that starts with a slash is never said: it is settled here or asks a
/// worker for something, but no message is queued for it.
pub proof fn law_slash_input_is_never_said(session: SessionView, names: Seq<Seq<char>>)
    requires
        is_slash_input(session.draft().text),
    ensures
        !(session.plan(names) matches PlanView::Queue(PendingView::Message { .. })),
{
}

/// What cannot be done leaves the session as it was, with the draft and its
/// cursor: a command without a name, one that is unknown, has wrong arguments or
/// is not available here, a line too long or broken, and whatever the queue does
/// not take.
pub proof fn law_what_is_not_done_keeps_the_draft(
    session: SessionView,
    servers: Seq<(Seq<char>, ServerConfigView)>,
    names: Seq<Seq<char>>,
    queued: bool,
    at: SystemTime,
)
    ensures
        ({
            let input = session.draft().text;
            let after = session.submit(servers, names, queued, at).0;
            &&& parsed_slash(input) matches Some(Err(_)) ==> after == session
            &&& parsed_slash(input) matches Some(Ok(command)) ==> {
                &&& text::breaks_line(input) ==> after == session
                &&& requested_action(command) is Err ==> after == session
                &&& requested_action(command) matches Ok(action) ==> session.command_plan(
                    names,
                    action,
                ) is Err ==> after == session
            }
            &&& parsed_slash(input) is None && text::trim(input).len() > 0 ==> {
                &&& text::breaks_line(input) ==> after == session
                &&& session.active_buffer() is None ==> after == session
                &&& session.active_buffer() matches Some(buffer) ==> encoded(
                    SessionView::outgoing(buffer, input),
                ) is Err ==> after == session
            }
            &&& session.plan(names) is Queue && !queued ==> after == session
        }),
{
}

/// A command is answered by one record in the log alone: it changes neither the
/// status nor any history, and where it is not accepted it changes nothing at all.
/// The record names no text of the user.
pub proof fn law_commands_leave_one_record(
    session: SessionView,
    servers: Seq<(Seq<char>, ServerConfigView)>,
    names: Seq<Seq<char>>,
    queued: bool,
    at: SystemTime,
)
    requires
        is_slash_input(session.draft().text),
    ensures
        ({
            let (after, news, effect, feedback) = session.submit(servers, names, queued, at);
            &&& news is None
            &&& after.history == session.history
            &&& feedback is Some
            &&& feedback->0 is Accepted || feedback->0 is Rejected || feedback->0 is Unparsed
            &&& !(feedback->0 is Accepted) ==> after == session && effect
                == SubmissionEffect::Nothing
        }),
{
    law_slash_input_is_never_said(session, names);
}

/// Every message that is queued goes over a confirmed connection: to a channel
/// only while it is joined, and never to a peer who took another name.
pub proof fn law_messages_need_a_confirmed_connection(session: SessionView, names: Seq<Seq<char>>)
    requires
        session.plan(names) matches PlanView::Queue(PendingView::Message { .. }),
    ensures
        session.active_buffer() is Some,
        !session.active_buffer()->0.send_blocked,
        session.plan(names) matches PlanView::Queue(
            PendingView::Message { connection, message, target },
        ) && {
            let server = match message {
                OutgoingMessageView::Privmsg { server, .. } => server,
                OutgoingMessageView::Raw { server, .. } => server,
            };
            &&& encoded(message) is Ok
            &&& 0 <= connection < names.len()
            &&& text::same_name(names[connection], server)
            &&& session.server_connection(server) == ConnectionState::Connected
            &&& target matches BufferKindView::Channel(channel) ==> session.channel_status(
                server,
                channel,
            ).state == ChannelState::Joined
        },
{
    if let PlanView::Queue(PendingView::Message { connection, message, target }) = session.plan(
        names,
    ) {
        let server = match message {
            OutgoingMessageView::Privmsg { server, .. } => server,
            OutgoingMessageView::Raw { server, .. } => server,
        };
        lemma_first_index(names, is_named(server));
    }
}

/// Showing what we said ourselves does not switch the active conversation.
proof fn lemma_echo_keeps_active(session: SessionView, echo: RoutedMessageView)
    requires
        session.buffers.len() > 0,
        !(echo.content.kind is Error),
    ensures
        session.push(echo).0.active == session.active,
{
}

proof fn lemma_command_keeps_active(
    session: SessionView,
    names: Seq<Seq<char>>,
    action: CommandActionView,
)
    ensures
        session.command_plan(names, action) matches Ok(
            PlanView::Settled { session: settled, .. },
        ) ==> settled.active == session.active,
        !(session.command_plan(names, action) matches Ok(
            PlanView::Queue(PendingView::Message { .. }),
        )),
{
}

proof fn lemma_plan_keeps_active(session: SessionView, names: Seq<Seq<char>>)
    ensures
        session.plan(names) matches PlanView::Settled { session: settled, .. } ==> settled.active
            == session.active,
        session.plan(names) matches PlanView::Queue(PendingView::Message { .. })
            ==> session.active_buffer() is Some,
{
    match session.prepare_input() {
        Some(InputSubmissionView::Slash(command)) => {
            if let Ok(action) = requested_action(command) {
                lemma_command_keeps_active(session, names, action);
            }
        },
        Some(InputSubmissionView::Outgoing(OutgoingMessageView::Raw { server, line })) => {
            match controlled_raw(line) {
                Ok(Some(ConnectionCommandView::Join(channel))) => {
                    lemma_command_keeps_active(session, names, CommandActionView::Join(channel));
                },
                Ok(Some(ConnectionCommandView::Part { channel, reason })) => {
                    lemma_command_keeps_active(
                        session,
                        names,
                        CommandActionView::Part { channel: Some(channel), reason },
                    );
                },
                _ => {},
            }
        },
        _ => {},
    }
}

/// Submitting does not switch the active conversation.
pub proof fn law_submitting_keeps_the_active_conversation(
    session: SessionView,
    servers: Seq<(Seq<char>, ServerConfigView)>,
    names: Seq<Seq<char>>,
    queued: bool,
    at: SystemTime,
)
    ensures
        session.submit(servers, names, queued, at).0.active == session.active,
{
    lemma_plan_keeps_active(session, names);
    if session.active is Some {
        lemma_first_index(session.buffers, has_id(session.active->0));
    }
    if let PlanView::Queue(pending) = session.plan(names) {
        lemma_completion_keeps_active(session, servers, pending, queued, at);
    }
}

proof fn lemma_completion_keeps_active(
    session: SessionView,
    servers: Seq<(Seq<char>, ServerConfigView)>,
    pending: PendingView,
    queued: bool,
    at: SystemTime,
)
    requires
        pending is Message ==> session.buffers.len() > 0,
    ensures
        session.complete(servers, pending, queued, at).0.active == session.active,
{
    if let PendingView::Message { connection, message, target } = pending {
        lemma_echo_keeps_active(session, session.local_echo(servers, message, target, at));
    }
}

/// A conversation is found by what it is about where it stands.
pub proof fn lemma_index_about(session: SessionView, index: int, kind: BufferKindView)
    requires
        session.wf(),
        0 <= index < session.buffers.len(),
        session.buffers[index].kind.matches(kind),
    ensures
        session.index_about(session.buffers[index].server, kind) == Some(index),
{
    let about = is_about(session.buffers[index].server, kind);
    assert forall|i: int| 0 <= i < index implies !about(#[trigger] session.buffers[i]) by {
        assert(session.buffers[i].id.0 < session.buffers[index].id.0);
    }
    lemma_is_first_index(session.buffers, about, index);
}

/// Closing hides a private conversation and deletes nothing: its history, its
/// draft and all other conversations stay, and so does the active one.
pub proof fn law_closing_only_hides(session: SessionView, index: int)
    requires
        session.wf(),
        0 <= index < session.buffers.len(),
        session.buffers[index].kind is Query,
    ensures
        ({
            let (closed, console) = session.close_query(session.buffers[index].id);
            &&& console is Some
            &&& closed.active == session.active
            &&& closed.history == session.history
            &&& closed.buffers.len() >= session.buffers.len()
            &&& closed.buffers[index] == (BufferView { hidden: true, ..session.buffers[index] })
            &&& forall|i: int|
                0 <= i < session.buffers.len() && i != index ==> #[trigger] closed.buffers[i]
                    == session.buffers[i]
        }),
{
    lemma_index_of(session, index);
}

/// The conversation with this identity is a private one.
pub open spec fn is_private(session: SessionView, id: BufferId) -> bool {
    session.buffer(id) is Some && session.buffer(id)->0.kind is Query
}

/// Closing answers exactly where a private conversation has the identity, and
/// leaves any other session alone. Its answer is the console of the same server:
/// the one there was, or a new one. The conversation is hidden, and cannot be
/// selected while it is. Opening it again gives back its identity, its draft and
/// its history. All along the active conversation stays.
pub proof fn law_closing_can_be_undone(session: SessionView, id: BufferId)
    requires
        session.wf(),
        session.next_buffer_id < u64::MAX,
    ensures
        ({
            let (closed, console) = session.close_query(id);
            &&& console is Some <==> is_private(session, id)
            &&& console is None ==> closed == session
            &&& console is Some ==> {
                let query = session.buffer(id)->0;
                let at = closed.index_of(console->0);
                let (opened, again) = closed.open_query(query.server_label, query.kind->Query_0);
                &&& closed.buffer(id) == Some(BufferView { hidden: true, ..query })
                &&& closed.active == session.active
                &&& closed.history == session.history
                &&& at is Some
                &&& at == closed.index_about(query.server, BufferKindView::Server)
                &&& match session.index_about(query.server, BufferKindView::Server) {
                    Some(index) => at == Some(index) && closed.buffers.len()
                        == session.buffers.len(),
                    None => at == Some(session.buffers.len() as int),
                }
                &&& closed.select(id) == closed
                &&& again == id
                &&& opened.buffer(id) == Some(
                    BufferView { hidden: false, send_blocked: false, ..query },
                )
                &&& opened.active == session.active
                &&& opened.history == session.history
            }
        }),
{
    lemma_first_index(session.buffers, has_id(id));
    if is_private(session, id) {
        let index = session.index_of(id)->0;
        let query = session.buffers[index];
        let hidden = BufferView { hidden: true, ..query };
        let silenced = session.with_buffer(index, hidden);
        lemma_with_buffer_wf(session, index, hidden);
        lemma_open_buffer_wf(silenced, query.server_label, BufferKindView::Server);
        let (closed, console) = session.close_query(id);
        assert(closed.buffers[index] == hidden);
        lemma_index_of(closed, index);
        lemma_same_place(
            session,
            index,
            hidden,
            query.server,
            BufferKindView::Server,
            BufferKindView::Server,
        );
        let at = match session.index_about(query.server, BufferKindView::Server) {
            Some(at) => at,
            None => session.buffers.len() as int,
        };
        lemma_first_index(
            session.buffers,
            is_about(query.server, BufferKindView::Server),
        );
        assert(closed.buffers[at].id == console->0);
        lemma_index_of(closed, at);
        lemma_index_about(closed, at, BufferKindView::Server);
        law_reopening_restores(session, index, query.server_label, query.kind->Query_0);
        let (opened, again) = closed.open_query(query.server_label, query.kind->Query_0);
        lemma_index_about(closed, index, query.kind);
        lemma_with_buffer_wf(
            closed,
            index,
            BufferView { hidden: false, send_blocked: false, ..hidden },
        );
        lemma_index_of(opened, index);
    }
}

/// Changing what a conversation holds, but not what it is, leaves every
/// conversation where it is found, under any spelling of its name.
proof fn lemma_same_place(
    session: SessionView,
    index: int,
    buffer: BufferView,
    server: Seq<char>,
    kind: BufferKindView,
    again: BufferKindView,
)
    requires
        0 <= index < session.buffers.len(),
        buffer.server == session.buffers[index].server,
        buffer.kind == session.buffers[index].kind,
        kind.matches(again),
    ensures
        session.with_buffer(index, buffer).index_about(server, again) == session.index_about(
            server,
            kind,
        ),
{
    let about = is_about(server, kind);
    let about_again = is_about(server, again);
    let after = session.with_buffer(index, buffer);
    assert forall|i: int| 0 <= i < session.buffers.len() implies about_again(
        #[trigger] after.buffers[i],
    ) == about(session.buffers[i]) by {}
    lemma_first_index(session.buffers, about);
    match session.index_about(server, kind) {
        Some(at) => {
            assert forall|i: int| 0 <= i < at implies !about_again(#[trigger] after.buffers[i]) by {
                assert(!about(session.buffers[i]));
            }
            assert(about_again(after.buffers[at]));
            lemma_is_first_index(after.buffers, about_again, at);
        },
        None => {
            assert forall|i: int| 0 <= i < after.buffers.len() implies !about_again(
                #[trigger] after.buffers[i],
            ) by {
                assert(!about(session.buffers[i]));
            }
            lemma_no_first_index(after.buffers, about_again);
        },
    }
}

/// Opening a closed conversation again brings back the same one, with its
/// history and its draft, under any spelling of the names.
pub proof fn law_reopening_restores(
    session: SessionView,
    index: int,
    server: Seq<char>,
    nickname: Seq<char>,
)
    requires
        session.wf(),
        session.next_buffer_id < u64::MAX,
        0 <= index < session.buffers.len(),
        session.buffers[index].kind matches BufferKindView::Query(peer) && text::same_name(
            peer,
            nickname,
        ),
        text::lower(server) == session.buffers[index].server,
    ensures
        ({
            let closed = session.close_query(session.buffers[index].id).0;
            let (opened, id) = closed.open_query(server, nickname);
            &&& id == session.buffers[index].id
            &&& opened.history == session.history
            &&& opened.buffers[index] == (BufferView {
                hidden: false,
                send_blocked: false,
                ..session.buffers[index]
            })
        }),
{
    let id = session.buffers[index].id;
    let label = session.buffers[index].server_label;
    lemma_index_of(session, index);
    let hidden = session.with_buffer(index, BufferView { hidden: true, ..session.buffers[index] });
    lemma_with_buffer_wf(
        session,
        index,
        BufferView { hidden: true, ..session.buffers[index] },
    );
    lemma_open_buffer_wf(hidden, label, BufferKindView::Server);
    let closed = session.close_query(id).0;
    assert(closed.buffers[index] == hidden.buffers[index]);
    lemma_index_about(closed, index, BufferKindView::Query(nickname));
    lemma_index_of(closed, index);
}

/// Something a peer says opens or restores the conversation with the peer and
/// marks it unread, without leaving the active conversation and its draft; it is
/// the newest message there.
pub proof fn law_private_speech_shows_the_conversation(
    session: SessionView,
    message: RoutedMessageView,
)
    requires
        session.wf(),
        session.has_room(),
        text::lower(message.server) == message.server,
        message.target is Query,
        is_speech(message.content.kind),
        message.content.direction == Direction::Incoming,
        session.echo_of(message) is None,
        session.history.capacity > 0,
    ensures
        ({
            let after = session.push(message).0;
            let index = after.index_about(message.server, message.target);
            &&& index is Some
            &&& !after.buffers[index->0].hidden
            &&& after.buffers[index->0].unread
            &&& after.history.of(after.buffers[index->0].id).last().content == message.content
            &&& after.active == session.active
            &&& after.draft() == session.draft()
        }),
{
    let label = session.label_of(message.server);
    let about = is_about(message.server, message.target);
    lemma_first_index(session.buffers, about);
    assert(session.route_error(message) == message);
    assert(text::lower(label) == message.server);
    let (opened, id) = session.query_destination(message);
    let after = session.push(message).0;
    assert(after.buffers == opened.buffers);
    match session.index_about(message.server, message.target) {
        Some(index) => {
            assert forall|i: int| 0 <= i < index implies !about(#[trigger] after.buffers[i]) by {
                assert(!about(session.buffers[i]));
            }
            lemma_is_first_index(after.buffers, about, index);
            assert(id == after.buffers[index].id);
        },
        None => {
            let last = session.buffers.len() as int;
            let registered = session.open_buffer(label, message.target).0;
            lemma_open_buffer_wf(session, label, message.target);
            lemma_index_of(registered, last);
            assert forall|i: int| 0 <= i < last implies !about(#[trigger] after.buffers[i]) by {
                assert(!about(session.buffers[i]));
            }
            lemma_is_first_index(after.buffers, about, last);
        },
    }
    let grown = opened.history.grown(id, message.content);
    let kept = after.history.of(id);
    assert(kept == grown.skip(opened.history.excess(id)));
    assert(kept.last() == grown.last());
    lemma_same_draft(session, after);
}

/// Where the conversations keep their identities and drafts, typing edits the
/// same draft.
pub proof fn lemma_same_draft(before: SessionView, after: SessionView)
    requires
        after.active == before.active,
        after.welcome_draft == before.welcome_draft,
        after.buffers.len() >= before.buffers.len(),
        forall|i: int|
            0 <= i < before.buffers.len() ==> {
                &&& (#[trigger] after.buffers[i]).id == before.buffers[i].id
                &&& after.buffers[i].draft == before.buffers[i].draft
            },
        before.active is Some ==> before.registered(before.active->0),
    ensures
        after.draft() == before.draft(),
{
    if before.active is Some {
        let id = before.active->0;
        lemma_first_index(before.buffers, has_id(id));
        match before.index_of(id) {
            Some(index) => {
                assert forall|i: int| 0 <= i < index implies !has_id(id)(
                    #[trigger] after.buffers[i],
                ) by {
                    assert(!has_id(id)(before.buffers[i]));
                }
                lemma_is_first_index(after.buffers, has_id(id), index);
            },
            None => {
                assert(!before.registered(id));
            },
        }
    }
}

/// What is not speech opens and restores no private conversation: notices and
/// replies go where one is shown already, or to the server's console.
pub proof fn law_only_speech_opens_conversations(
    session: SessionView,
    message: RoutedMessageView,
    i: int,
)
    requires
        !is_speech(message.content.kind),
        0 <= i < session.push(message).0.buffers.len(),
        session.push(message).0.buffers[i].kind is Query,
    ensures
        i < session.buffers.len(),
        session.push(message).0.buffers[i] == session.buffers[i],
{
}

/// A peer's new name goes to the conversation with the peer and to nothing
/// else: identities, drafts and other conversations stay.
pub proof fn law_renaming_keeps_identities(
    session: SessionView,
    server: Seq<char>,
    previous: Seq<char>,
    nickname: Seq<char>,
    at: SystemTime,
    i: int,
)
    requires
        0 <= i < session.buffers.len(),
    ensures
        ({
            let after = session.rename_query(server, previous, nickname, at);
            let renamed = first_index(
                session.buffers,
                is_open_query(text::lower(server), previous),
            );
            &&& after.buffers.len() == session.buffers.len()
            &&& after.active == session.active
            &&& after.buffers[i].id == session.buffers[i].id
            &&& after.buffers[i].draft == session.buffers[i].draft
            &&& renamed != Some(i) ==> after.buffers[i] == session.buffers[i]
        }),
{
    lemma_first_index(session.buffers, is_open_query(text::lower(server), previous));
}

/// Without another conversation under the new name, the peer's conversation
/// goes on under it, history and all. With one, both stay apart: the old one
/// says so and sends nothing more, and every other history stays.
pub proof fn law_renaming_never_merges(
    session: SessionView,
    index: int,
    previous: Seq<char>,
    nickname: Seq<char>,
    at: SystemTime,
    other: BufferId,
)
    requires
        session.wf(),
        0 <= index < session.buffers.len(),
        !session.buffers[index].send_blocked,
        session.buffers[index].kind matches BufferKindView::Query(peer) && text::same_name(
            peer,
            previous,
        ),
        text::lower(session.buffers[index].server) == session.buffers[index].server,
    ensures
        ({
            let buffer = session.buffers[index];
            let after = session.rename_query(buffer.server, previous, nickname, at);
            let collides = session.has_other_query(buffer.server, buffer.id, nickname);
            &&& !collides ==> after.history == session.history && after.buffers[index] == (
            BufferView { kind: BufferKindView::Query(nickname), ..buffer })
            &&& collides ==> after.buffers[index] == (BufferView {
                send_blocked: true,
                unread: true,
                ..buffer
            })
            &&& collides && other != buffer.id ==> after.history.of(other)
                == session.history.of(other)
        }),
{
    let open = is_open_query(session.buffers[index].server, previous);
    assert forall|i: int| 0 <= i < index implies !open(#[trigger] session.buffers[i]) by {
        assert(session.buffers[i].id.0 < session.buffers[index].id.0);
    }
    lemma_is_first_index(session.buffers, open, index);
}

/// Nothing is said in a conversation whose peer took another name, until the
/// user names a peer again.
pub proof fn law_blocked_conversations_send_nothing(session: SessionView, names: Seq<Seq<char>>)
    requires
        session.active_buffer() is Some,
        session.active_buffer()->0.send_blocked,
    ensures
        !(session.plan(names) matches PlanView::Queue(PendingView::Message { .. })),
{
}

/// A message to ourselves is shown once: its copy from the server adds nothing.
pub proof fn law_a_message_to_ourselves_is_shown_once(
    session: SessionView,
    sent: RoutedMessageView,
    copy: RoutedMessageView,
)
    requires
        session.wf(),
        session.has_room(),
        session.history.capacity > 0,
        text::lower(sent.server) == sent.server,
        sent.content.direction == Direction::Outgoing,
        is_speech(sent.content.kind),
        from_the_peer(sent),
        copy.server == sent.server,
        copy.target == sent.target,
        copy.content.direction == Direction::Incoming,
        text::same_name(copy.content.nick, sent.content.nick),
        copy.content.text == sent.content.text,
        copy.content.kind == sent.content.kind,
    ensures
        ({
            let said = session.push(sent).0;
            let (after, change) = said.push(copy);
            &&& change is None
            &&& after.history == said.history
            &&& after.buffers == said.buffers
        }),
{
    let label = session.label_of(sent.server);
    let about = is_about(sent.server, sent.target);
    lemma_first_index(session.buffers, about);
    assert(session.route_error(sent) == sent);
    assert(text::lower(label) == sent.server);
    assert(session.echo_of(sent) is None);
    let (opened, id) = session.query_destination(sent);
    let said = session.push(sent).0;
    let change = opened.change(id, sent.content);
    let place = match session.index_about(sent.server, sent.target) {
        Some(index) => index,
        None => session.buffers.len() as int,
    };
    if session.index_about(sent.server, sent.target) is None {
        let registered = session.open_buffer(label, sent.target).0;
        lemma_open_buffer_wf(session, label, sent.target);
        lemma_index_of(registered, place);
    }
    assert(said.buffers == opened.buffers);
    assert forall|i: int| 0 <= i < place implies !about(#[trigger] said.buffers[i]) by {
        assert(!about(session.buffers[i]));
    }
    lemma_is_first_index(said.buffers, about, place);
    assert(id == said.buffers[place].id);
    let grown = opened.history.grown(id, sent.content);
    let excess = opened.history.excess(id);
    let kept = said.history.of(id);
    assert(kept == grown.skip(excess));
    assert(kept.last() == grown.last());
    assert(!change.evicted.contains(change.inserted)) by {
        if change.evicted.contains(change.inserted) {
            let i = choose|i: int|
                0 <= i < change.evicted.len() && change.evicted[i] == change.inserted;
            assert(change.evicted[i] == grown[i].id);
            assert(grown[i] == opened.history.of(id)[i]);
            assert(opened.history.buffers[id][i].id.0 < opened.history.next_id);
        }
    }
    assert(said.echoes.contains((id, change.inserted)));
    let echo = is_echo_of(said.echoes, id, copy.content);
    assert(echo(kept[kept.len() - 1]));
    lemma_first_index(kept, echo);
    assert(said.route_error(copy) == copy);
}

/// Losing or changing a connection takes no message, draft or conversation
/// away, and leaves no channel of that server joined.
pub proof fn law_histories_outlive_connections(
    session: SessionView,
    server: Seq<char>,
    connection: ConnectionState,
    i: int,
)
    requires
        connection != ConnectionState::Connected,
        0 <= i < session.buffers.len(),
    ensures
        ({
            let after = session.update_connection(server, connection);
            let buffer = session.buffers[i];
            &&& after.history == session.history
            &&& after.active == session.active
            &&& after.buffers.len() == session.buffers.len()
            &&& after.buffers[i] == (BufferView {
                channel_status: after.buffers[i].channel_status,
                ..buffer
            })
            &&& after.buffers[i].channel_status.desired == buffer.channel_status.desired
            &&& buffer.server == text::lower(server) && buffer.kind is Channel
                ==> after.buffers[i].channel_status.state != ChannelState::Joined
            &&& buffer.server != text::lower(server) ==> after.buffers[i] == buffer
        }),
{
}

impl SessionView {
    /// Changes of a connection requested one after the other.
    pub open spec fn requested(
        self,
        server: Seq<char>,
        requests: Seq<ConnectionState>,
    ) -> SessionView
        decreases requests.len(),
    {
        if requests.len() == 0 {
            self
        } else {
            self.requested(server, requests.drop_last()).begin_change(server, requests.last())
        }
    }

    /// Reports of a worker handled one after the other.
    pub open spec fn reported(self, events: Seq<IrcEventView>, at: SystemTime) -> SessionView
        decreases events.len(),
    {
        if events.len() == 0 {
            self
        } else {
            self.reported(events.drop_last(), at).handle_event(events.last(), at)
        }
    }

    /// The requested changes of a connection that its worker has yet to take up.
    pub open spec fn outstanding(self, server: Seq<char>) -> nat {
        self.server_state(server).pending_changes
    }
}

/// A worker's report on its connection, on one of its channels, or that it took up
/// a requested change. The server may be spelt in any case.
pub open spec fn reports_on(event: IrcEventView, server: Seq<char>) -> bool {
    match event {
        IrcEventView::ControlApplied(name) => text::same_name(name, server),
        IrcEventView::Connection(name, _) => text::same_name(name, server),
        IrcEventView::Channel(name, _, _) => text::same_name(name, server),
        _ => false,
    }
}

/// How many requested changes these reports say were taken up.
pub open spec fn taken_up(events: Seq<IrcEventView>) -> nat
    decreases events.len(),
{
    if events.len() == 0 {
        0
    } else {
        taken_up(events.drop_last()) + (if events.last() is ControlApplied {
            1nat
        } else {
            0nat
        })
    }
}

proof fn lemma_requested(session: SessionView, server: Seq<char>, requests: Seq<ConnectionState>)
    requires
        requests.len() > 0,
    ensures
        ({
            let changed = session.requested(server, requests);
            &&& changed.servers.contains_key(text::lower(server))
            &&& changed.connection_state(server, None) == requests.last()
            &&& changed.outstanding(server) == session.outstanding(server) + requests.len()
        }),
    decreases requests.len(),
{
    reveal_with_fuel(SessionView::requested, 2);
    if requests.len() > 1 {
        lemma_requested(session, server, requests.drop_last());
    } else {
        assert(session.requested(server, requests.drop_last()) == session);
    }
}

/// Reports that leave a request outstanding do nothing but count it down.
proof fn lemma_reported(
    session: SessionView,
    server: Seq<char>,
    events: Seq<IrcEventView>,
    at: SystemTime,
)
    requires
        session.servers.contains_key(text::lower(server)),
        forall|i: int| 0 <= i < events.len() ==> reports_on(#[trigger] events[i], server),
        taken_up(events) < session.outstanding(server),
    ensures
        session.reported(events, at) == session.with_server(
            server,
            ServerStateView {
                pending_changes: (session.outstanding(server) - taken_up(events)) as nat,
                ..session.server_state(server)
            },
        ),
    decreases events.len(),
{
    if events.len() > 0 {
        let earlier = events.drop_last();
        assert forall|i: int| 0 <= i < earlier.len() implies reports_on(
            #[trigger] earlier[i],
            server,
        ) by {
            assert(earlier[i] == events[i]);
        }
        lemma_reported(session, server, earlier, at);
        assert(reports_on(events[events.len() - 1], server));
    }
    assert(session.reported(events, at).servers =~= session.with_server(
        server,
        ServerStateView {
            pending_changes: (session.outstanding(server) - taken_up(events)) as nat,
            ..session.server_state(server)
        },
    ).servers);
}

/// Requested changes of a connection are shown at once. Until the worker has taken
/// up the last of them, no report on the connection or on its channels undoes
/// what was requested, in whatever order and number the reports come.
pub proof fn law_stale_reports_are_ignored(
    session: SessionView,
    server: Seq<char>,
    requests: Seq<ConnectionState>,
    events: Seq<IrcEventView>,
    at: SystemTime,
)
    requires
        requests.len() > 0,
        forall|i: int| 0 <= i < events.len() ==> reports_on(#[trigger] events[i], server),
        taken_up(events) < session.outstanding(server) + requests.len(),
    ensures
        ({
            let changed = session.requested(server, requests);
            let after = changed.reported(events, at);
            &&& after.connection_state(server, None) == requests.last()
            &&& forall|channel: Seq<char>| #[trigger]
                after.channel_status(server, channel) == changed.channel_status(server, channel)
            &&& after.buffers == changed.buffers
            &&& after.has_pending_change(server)
        }),
{
    lemma_requested(session, server, requests);
    lemma_reported(session.requested(server, requests), server, events, at);
}

/// Once the worker has taken up the last requested change, its next report on the
/// connection counts, and until then the connection is as it was requested.
pub proof fn law_reports_count_after_the_barrier(
    session: SessionView,
    server: Seq<char>,
    requests: Seq<ConnectionState>,
    events: Seq<IrcEventView>,
    name: Seq<char>,
    reported: ConnectionState,
    at: SystemTime,
)
    requires
        requests.len() > 0,
        forall|i: int| 0 <= i < events.len() ==> reports_on(#[trigger] events[i], server),
        taken_up(events) == session.outstanding(server) + requests.len(),
        events.last() is ControlApplied,
        text::same_name(name, server),
    ensures
        ({
            let changed = session.requested(server, requests);
            let after = changed.reported(events, at);
            &&& after.connection_state(server, None) == requests.last()
            &&& after.buffers == changed.buffers
            &&& !after.has_pending_change(server)
            &&& after.handle_event(
                IrcEventView::Connection(name, reported),
                at,
            ).connection_state(server, None) == reported
        }),
{
    let changed = session.requested(server, requests);
    let earlier = events.drop_last();
    assert forall|i: int| 0 <= i < earlier.len() implies reports_on(#[trigger] earlier[i], server) by {
        assert(earlier[i] == events[i]);
    }
    assert(reports_on(events[events.len() - 1], server));
    lemma_requested(session, server, requests);
    lemma_reported(changed, server, earlier, at);
}

/// A requested disconnection or reconnection disables sending at once: until the
/// worker has taken up the last request, nothing is queued to be said on that
/// server, whatever it reports.
pub proof fn law_requests_disable_sending(
    session: SessionView,
    server: Seq<char>,
    requests: Seq<ConnectionState>,
    events: Seq<IrcEventView>,
    at: SystemTime,
    names: Seq<Seq<char>>,
)
    requires
        requests.len() > 0,
        requests.last() != ConnectionState::Connected,
        forall|i: int| 0 <= i < events.len() ==> reports_on(#[trigger] events[i], server),
        taken_up(events) < session.outstanding(server) + requests.len(),
    ensures
        session.requested(server, requests).reported(events, at).plan(names) matches PlanView::Queue(
            PendingView::Message { message, .. },
        ) ==> !text::same_name(
            match message {
                OutgoingMessageView::Privmsg { server, .. } => server,
                OutgoingMessageView::Raw { server, .. } => server,
            },
            server,
        ),
{
    let after = session.requested(server, requests).reported(events, at);
    law_stale_reports_are_ignored(session, server, requests, events, at);
    if after.plan(names) matches PlanView::Queue(PendingView::Message { .. }) {
        law_messages_need_a_confirmed_connection(after, names);
    }
}

/// No report switches from one conversation to another: only where there is none
/// at all can a message make one active.
pub proof fn law_reports_keep_the_active_conversation(
    session: SessionView,
    event: IrcEventView,
    at: SystemTime,
)
    requires
        session.wf(),
    ensures
        session.handle_event(event, at).active == session.active || {
            &&& session.active is None
            &&& session.buffers.len() == 0
            &&& event is Message
        },
{
}

/// A worker's report on a channel, or that it took up a requested change of it.
/// Server and channel may be spelt in any case.
pub open spec fn reports_on_channel(
    event: IrcEventView,
    server: Seq<char>,
    channel: Seq<char>,
) -> bool {
    match event {
        IrcEventView::Channel(name, place, _) => text::same_name(name, server) && text::same_name(
            channel,
            place,
        ),
        IrcEventView::ChannelControlApplied(name, place) => text::same_name(name, server)
            && text::same_name(channel, place),
        _ => false,
    }
}

/// How many requested changes of a channel these reports say were taken up.
pub open spec fn channel_taken_up(events: Seq<IrcEventView>) -> nat
    decreases events.len(),
{
    if events.len() == 0 {
        0
    } else {
        channel_taken_up(events.drop_last()) + (if events.last() is ChannelControlApplied {
            1nat
        } else {
            0nat
        })
    }
}

/// Reports that leave a request for a channel outstanding do nothing but count it
/// down.
proof fn lemma_channel_reported(
    session: SessionView,
    server: Seq<char>,
    channel: Seq<char>,
    events: Seq<IrcEventView>,
    at: SystemTime,
)
    requires
        session.channel_index(server, channel) is Some,
        forall|i: int|
            0 <= i < events.len() ==> reports_on_channel(#[trigger] events[i], server, channel),
        channel_taken_up(events) < session.buffers[session.channel_index(
            server,
            channel,
        )->0].pending_channel_changes,
    ensures
        ({
            let index = session.channel_index(server, channel)->0;
            let buffer = session.buffers[index];
            session.reported(events, at) == session.with_buffer(
                index,
                BufferView {
                    pending_channel_changes: (buffer.pending_channel_changes - channel_taken_up(
                        events,
                    )) as nat,
                    ..buffer
                },
            )
        }),
    decreases events.len(),
{
    let index = session.channel_index(server, channel)->0;
    let buffer = session.buffers[index];
    lemma_first_index(
        session.buffers,
        is_about(text::lower(server), BufferKindView::Channel(channel)),
    );
    let kept = BufferView {
        pending_channel_changes: (buffer.pending_channel_changes - channel_taken_up(events)) as nat,
        ..buffer
    };
    if events.len() > 0 {
        let earlier = events.drop_last();
        assert forall|i: int| 0 <= i < earlier.len() implies reports_on_channel(
            #[trigger] earlier[i],
            server,
            channel,
        ) by {
            assert(earlier[i] == events[i]);
        }
        lemma_channel_reported(session, server, channel, earlier, at);
        let before = session.reported(earlier, at);
        assert(reports_on_channel(events[events.len() - 1], server, channel));
        let place = match events.last() {
            IrcEventView::Channel(_, place, _) => place,
            IrcEventView::ChannelControlApplied(_, place) => place,
            _ => channel,
        };
        lemma_same_place(
            session,
            index,
            before.buffers[index],
            text::lower(server),
            BufferKindView::Channel(channel),
            BufferKindView::Channel(place),
        );
        assert(before.channel_index(server, place) == Some(index));
    }
    assert(session.reported(events, at).buffers =~= session.buffers.update(index, kept));
}

/// A channel with a request that the worker has not taken up keeps what was
/// requested, in whatever order and number the reports on it come.
pub proof fn law_stale_channel_reports_are_ignored(
    session: SessionView,
    server: Seq<char>,
    channel: Seq<char>,
    events: Seq<IrcEventView>,
    at: SystemTime,
)
    requires
        session.channel_index(server, channel) is Some,
        forall|i: int|
            0 <= i < events.len() ==> reports_on_channel(#[trigger] events[i], server, channel),
        channel_taken_up(events) < session.buffers[session.channel_index(
            server,
            channel,
        )->0].pending_channel_changes,
    ensures
        session.reported(events, at).channel_status(server, channel) == session.channel_status(
            server,
            channel,
        ),
        session.reported(events, at).servers == session.servers,
{
    let index = session.channel_index(server, channel)->0;
    lemma_first_index(
        session.buffers,
        is_about(text::lower(server), BufferKindView::Channel(channel)),
    );
    lemma_channel_reported(session, server, channel, events, at);
    lemma_same_place(
        session,
        index,
        session.reported(events, at).buffers[index],
        text::lower(server),
        BufferKindView::Channel(channel),
        BufferKindView::Channel(channel),
    );
}

/// Once the worker has taken up the last requested change of a channel, its next
/// report on the channel counts, unless a change of the whole connection is
/// outstanding.
pub proof fn law_channel_reports_count_after_the_barrier(
    session: SessionView,
    server: Seq<char>,
    channel: Seq<char>,
    events: Seq<IrcEventView>,
    next: IrcEventView,
    at: SystemTime,
)
    requires
        session.channel_index(server, channel) is Some,
        !session.has_pending_change(server),
        forall|i: int|
            0 <= i < events.len() ==> reports_on_channel(#[trigger] events[i], server, channel),
        channel_taken_up(events) == session.buffers[session.channel_index(
            server,
            channel,
        )->0].pending_channel_changes,
        events.len() > 0,
        events.last() is ChannelControlApplied,
        next is Channel,
        reports_on_channel(next, server, channel),
    ensures
        ({
            let after = session.reported(events, at);
            &&& after.channel_status(server, channel) == session.channel_status(server, channel)
            &&& after.handle_event(next, at).channel_status(server, channel) == next->Channel_2
        }),
{
    let index = session.channel_index(server, channel)->0;
    let kind = BufferKindView::Channel(channel);
    let id = text::lower(server);
    lemma_first_index(session.buffers, is_about(id, kind));
    let earlier = events.drop_last();
    assert forall|i: int| 0 <= i < earlier.len() implies reports_on_channel(
        #[trigger] earlier[i],
        server,
        channel,
    ) by {
        assert(earlier[i] == events[i]);
    }
    assert(reports_on_channel(events[events.len() - 1], server, channel));
    lemma_channel_reported(session, server, channel, earlier, at);
    let before = session.reported(earlier, at);
    let place = BufferKindView::Channel(events.last()->ChannelControlApplied_1);
    lemma_same_place(session, index, before.buffers[index], id, kind, place);
    let after = session.reported(events, at);
    assert(after.buffers =~= session.buffers.update(index, after.buffers[index]));
    lemma_same_place(session, index, after.buffers[index], id, kind, kind);
    let spelt = BufferKindView::Channel(next->Channel_1);
    lemma_same_place(session, index, after.buffers[index], id, kind, spelt);
    let told = after.handle_event(next, at);
    assert(told.buffers =~= session.buffers.update(index, told.buffers[index]));
    lemma_same_place(session, index, told.buffers[index], id, kind, kind);
}

/// Each conversation has its own draft: editing one leaves all others alone.
pub proof fn law_drafts_are_separate(session: SessionView, draft: DraftView, i: int)
    requires
        0 <= i < session.buffers.len(),
    ensures
        session.with_draft(draft).draft() == draft,
        session.active_index() != Some(i) ==> session.with_draft(draft).buffers[i]
            == session.buffers[i],
        session.with_draft(draft).history == session.history,
{
    if session.active is Some {
        let id = session.active->0;
        lemma_first_index(session.buffers, has_id(id));
        match session.index_of(id) {
            Some(index) => {
                let after = session.with_draft(draft);
                assert forall|j: int| 0 <= j < index implies !has_id(id)(
                    #[trigger] after.buffers[j],
                ) by {
                    assert(!has_id(id)(session.buffers[j]));
                }
                lemma_is_first_index(after.buffers, has_id(id), index);
            },
            None => {},
        }
    }
}

/// The conversations of `before` stand where they stood, about what they were.
pub open spec fn extends(before: SessionView, after: SessionView) -> bool {
    &&& after.buffers.len() >= before.buffers.len()
    &&& after.active == before.active
    &&& after.history == before.history
    &&& forall|i: int|
        0 <= i < before.buffers.len() ==> {
            &&& (#[trigger] after.buffers[i]).id == before.buffers[i].id
            &&& after.buffers[i].server == before.buffers[i].server
            &&& after.buffers[i].kind == before.buffers[i].kind
        }
}

/// There is a conversation of this kind on this server.
pub open spec fn known(session: SessionView, server: Seq<char>, kind: BufferKindView) -> bool {
    exists|i: int|
        0 <= i < session.buffers.len() && (#[trigger] session.buffers[i]).server == text::lower(
            server,
        ) && session.buffers[i].kind.matches(kind)
}

proof fn lemma_still_known(
    before: SessionView,
    after: SessionView,
    server: Seq<char>,
    kind: BufferKindView,
)
    requires
        extends(before, after),
        known(before, server, kind),
    ensures
        known(after, server, kind),
{
    let i = choose|i: int|
        0 <= i < before.buffers.len() && (#[trigger] before.buffers[i]).server == text::lower(
            server,
        ) && before.buffers[i].kind.matches(kind);
    assert(after.buffers[i].server == before.buffers[i].server);
}

proof fn lemma_opened_is_known(session: SessionView, server: Seq<char>, kind: BufferKindView)
    ensures
        extends(session, session.open_buffer(server, kind).0),
        known(session.open_buffer(server, kind).0, server, kind),
{
    let opened = session.open_buffer(server, kind).0;
    lemma_first_index(session.buffers, is_about(text::lower(server), kind));
    match session.index_about(text::lower(server), kind) {
        Some(index) => {
            assert(opened.buffers[index].server == text::lower(server));
        },
        None => {
            let last = session.buffers.len() as int;
            assert(opened.buffers[last].server == text::lower(server));
        },
    }
}

proof fn lemma_channels_known(
    session: SessionView,
    server: Seq<char>,
    channels: Seq<Seq<char>>,
    count: int,
    j: int,
)
    requires
        0 <= count <= channels.len(),
    ensures
        extends(session, session.register_channels(server, channels, count)),
        0 <= j < count ==> known(
            session.register_channels(server, channels, count),
            server,
            BufferKindView::Channel(channels[j]),
        ),
    decreases count,
{
    if count > 0 {
        lemma_channels_known(session, server, channels, count - 1, j);
        let before = session.register_channels(server, channels, count - 1);
        let kind = BufferKindView::Channel(channels[count - 1]);
        let opened = before.open_buffer(server, kind).0;
        let after = session.register_channels(server, channels, count);
        lemma_opened_is_known(before, server, kind);
        lemma_first_index(opened.buffers, is_about(text::lower(server), kind));
        assert(extends(opened, after));
        assert(extends(before, after));
        lemma_still_known(opened, after, server, kind);
        if 0 <= j < count - 1 {
            lemma_still_known(before, after, server, BufferKindView::Channel(channels[j]));
        }
    }
}

proof fn lemma_queries_known(
    session: SessionView,
    server: Seq<char>,
    queries: Seq<Seq<char>>,
    count: int,
    j: int,
)
    requires
        0 <= count <= queries.len(),
    ensures
        extends(session, session.register_queries(server, queries, count)),
        0 <= j < count ==> known(
            session.register_queries(server, queries, count),
            server,
            BufferKindView::Query(queries[j]),
        ),
    decreases count,
{
    if count > 0 {
        lemma_queries_known(session, server, queries, count - 1, j);
        let before = session.register_queries(server, queries, count - 1);
        let kind = BufferKindView::Query(queries[count - 1]);
        let (opened, id) = before.open_buffer(server, kind);
        let after = session.register_queries(server, queries, count);
        lemma_opened_is_known(before, server, kind);
        lemma_first_index(opened.buffers, has_id(id));
        assert(extends(opened, after));
        assert(extends(before, after));
        lemma_still_known(opened, after, server, kind);
        if 0 <= j < count - 1 {
            lemma_still_known(before, after, server, BufferKindView::Query(queries[j]));
        }
    }
}

proof fn lemma_server_known(
    session: SessionView,
    name: Seq<char>,
    server: ServerConfigView,
    kind: BufferKindView,
)
    ensures
        extends(session, session.register_server(name, server)),
        configured(server, kind) ==> known(session.register_server(name, server), name, kind),
{
    let console = session.open_server(name).0;
    lemma_opened_is_known(session, name, BufferKindView::Server);
    let channels = console.register_channels(name, server.channels, server.channels.len() as int);
    let queries = channels.register_queries(name, server.queries, server.queries.len() as int);
    let after = session.register_server(name, server);
    lemma_channels_known(console, name, server.channels, server.channels.len() as int, 0);
    lemma_queries_known(channels, name, server.queries, server.queries.len() as int, 0);
    assert(extends(queries, after));
    if configured(server, kind) {
        match kind {
            BufferKindView::Server => {
                lemma_still_known(console, channels, name, kind);
                lemma_still_known(channels, queries, name, kind);
            },
            BufferKindView::Channel(channel) => {
                let j = server.channels.index_of(channel);
                lemma_channels_known(
                    console,
                    name,
                    server.channels,
                    server.channels.len() as int,
                    j,
                );
                lemma_still_known(channels, queries, name, kind);
            },
            BufferKindView::Query(peer) => {
                let j = server.queries.index_of(peer);
                lemma_queries_known(
                    channels,
                    name,
                    server.queries,
                    server.queries.len() as int,
                    j,
                );
            },
        }
        lemma_still_known(queries, after, name, kind);
    }
}

/// What a server's configuration names: its console, its channels, its peers.
pub open spec fn configured(server: ServerConfigView, kind: BufferKindView) -> bool {
    match kind {
        BufferKindView::Server => true,
        BufferKindView::Channel(channel) => server.channels.contains(channel),
        BufferKindView::Query(peer) => server.queries.contains(peer),
    }
}

/// Registering a configuration opens a console for every server and a
/// conversation for each of its channels and peers; what was open stays, and
/// nothing is shown in its place.
pub proof fn law_the_configuration_is_registered(
    session: SessionView,
    servers: Seq<(Seq<char>, ServerConfigView)>,
    count: int,
    i: int,
    kind: BufferKindView,
)
    requires
        0 <= i < count <= servers.len(),
        configured(servers[i].1, kind),
    ensures
        extends(session, session.register(servers, count)),
        known(session.register(servers, count), servers[i].0, kind),
    decreases count,
{
    let before = session.register(servers, count - 1);
    let after = session.register(servers, count);
    lemma_server_known(before, servers[count - 1].0, servers[count - 1].1, kind);
    if i < count - 1 {
        law_the_configuration_is_registered(session, servers, count - 1, i, kind);
        lemma_still_known(before, after, servers[i].0, kind);
    } else {
        lemma_register_extends(session, servers, count - 1);
    }
}

/// Registering a configuration keeps what there is, and the active conversation.
pub proof fn lemma_register_extends(
    session: SessionView,
    servers: Seq<(Seq<char>, ServerConfigView)>,
    count: int,
)
    ensures
        extends(session, session.register(servers, count)),
    decreases count,
{
    if count > 0 {
        lemma_register_extends(session, servers, count - 1);
        lemma_server_known(
            session.register(servers, count - 1),
            servers[count - 1].0,
            servers[count - 1].1,
            BufferKindView::Server,
        );
    }
}

/// Whatever comes in, no draft changes, and the active conversation stays,
/// unless nothing was open yet.
pub proof fn law_messages_leave_drafts_alone(
    session: SessionView,
    message: RoutedMessageView,
    i: int,
)
    requires
        0 <= i < session.buffers.len(),
    ensures
        session.push(message).0.active == session.active,
        session.push(message).0.buffers[i].id == session.buffers[i].id,
        session.push(message).0.buffers[i].draft == session.buffers[i].draft,
        session.push(message).0.welcome_draft == session.welcome_draft,
{
    let routed = session.route_error(message);
    if routed.target is Query {
        if session.echo_of(routed) is None {
            let label = session.label_of(routed.server);
            let (opened, id) = session.open_buffer(label, routed.target);
            lemma_first_index(session.buffers, is_about(routed.server, routed.target));
            lemma_first_index(opened.buffers, has_id(id));
        }
    }
}

} // verus!
