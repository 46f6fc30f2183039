//! What holds of a worker and its channels across several operations.

use std::time::SystemTime;

use vstd::prelude::*;
use vstd::utf8::encode_utf8;

use crate::application::SessionView;
use crate::config::ServerConfigView;
use crate::connection::channels::{
    law_wanted_channels_are_joined, lemma_position, ChannelView, ChannelsView,
};
use crate::connection::worker::{discarded, retry_delay, End, StepView, WorkerView};
use crate::connection::{client_config, ConnectionState, IrcEventView, RetryPolicy};
use crate::model::{
    self, BufferKindView, ChannelState, ChannelStatus, ConnectionCommandView, MessageKindView,
    OutgoingMessageView,
};
use crate::protocol::{
    control_error, encoded, parsed_line, ClientCommandView, LineCommandView, WireCommandView,
    WireMessageView,
};
use crate::text;

verus! {

/// A client is made with the settings of its server, each in its place, and
/// introduces itself under the nickname.
pub proof fn law_clients_get_their_servers_settings(
    server: ServerConfigView,
    channels: Seq<Seq<char>>,
)
    ensures
        client_config(server, channels).server == Some(server.server),
        client_config(server, channels).port == Some(server.port),
        client_config(server, channels).use_tls == Some(server.use_tls),
        client_config(server, channels).nickname == Some(server.nickname),
        client_config(server, channels).realname == Some(server.nickname),
        client_config(server, channels).username == Some(server.username),
        client_config(server, channels).password == Some(server.password),
        client_config(server, channels).channels == channels,
{
}

/// Servers with different settings get clients with different settings: where two
/// clients are made alike, host, port, encryption, name and password are the same.
pub proof fn law_different_servers_get_different_clients(
    a: ServerConfigView,
    b: ServerConfigView,
    channels: Seq<Seq<char>>,
)
    requires
        client_config(a, channels) == client_config(b, channels),
    ensures
        a.server == b.server,
        a.port == b.port,
        a.use_tls == b.use_tls,
        a.nickname == b.nickname,
        a.username == b.username,
        a.password == b.password,
{
    assert(client_config(a, channels).server->0 == client_config(b, channels).server->0);
    assert(client_config(a, channels).port->0 == client_config(b, channels).port->0);
    assert(client_config(a, channels).use_tls->0 == client_config(b, channels).use_tls->0);
    assert(client_config(a, channels).nickname->0 == client_config(b, channels).nickname->0);
    assert(client_config(a, channels).username->0 == client_config(b, channels).username->0);
    assert(client_config(a, channels).password->0 == client_config(b, channels).password->0);
}

/// A channel is found where it stands, under any spelling of its name.
pub proof fn lemma_found(channels: ChannelsView, i: int, name: Seq<char>)
    requires
        channels.wf(),
        0 <= i < channels.entries.len(),
        text::same_name(channels.entries[i].name, name),
    ensures
        channels.index(name) == Some(i),
{
    lemma_position(channels.entries, name);
    let found = channels.index(name);
    if found is Some && found->0 != i {
        let j = found->0;
        if i < j {
            assert(!text::same_name(channels.entries[i].name, channels.entries[j].name));
        } else {
            assert(!text::same_name(channels.entries[j].name, channels.entries[i].name));
        }
    }
}

/// A registered connection sends what is said, word for word: to a peer always, to
/// a channel exactly while it is joined.
pub proof fn law_what_is_said_is_sent(
    worker: WorkerView,
    server: Seq<char>,
    target: Seq<char>,
    text: Seq<char>,
    now: u64,
)
    requires
        worker.registered_at is Some,
        encoded(OutgoingMessageView::Privmsg { server, target, text }) is Ok,
    ensures
        ({
            let message = OutgoingMessageView::Privmsg { server, target, text };
            let (after, step) = worker.session_outgoing(Some(message), now);
            let entries = worker.channels.entries;
            let joined = exists|i: int|
                0 <= i < entries.len() && text::same_name((#[trigger] entries[i]).name, target)
                    && entries[i].status.state == ChannelState::Joined;
            let known = exists|i: int|
                0 <= i < entries.len() && text::same_name((#[trigger] entries[i]).name, target);
            let sent = StepView::Send(ClientCommandView::Privmsg { target, text });
            &&& after == worker
            &&& worker.channels.wf() && joined ==> step == sent
            &&& !known && !model::channel_name(target) ==> step == sent
            &&& !joined && (known || model::channel_name(target)) ==> step == StepView::Wait
        }),
{
    let entries = worker.channels.entries;
    lemma_position(entries, target);
    if worker.channels.wf() && exists|i: int|
        0 <= i < entries.len() && text::same_name((#[trigger] entries[i]).name, target)
            && entries[i].status.state == ChannelState::Joined {
        let i = choose|i: int|
            0 <= i < entries.len() && text::same_name((#[trigger] entries[i]).name, target)
                && entries[i].status.state == ChannelState::Joined;
        lemma_found(worker.channels, i, target);
    }
}

/// A registered connection sends every console line as it was written that is
/// neither broken nor too long, has a command word, and joins or leaves nothing.
pub proof fn law_console_lines_are_sent(
    worker: WorkerView,
    server: Seq<char>,
    line: Seq<char>,
    now: u64,
)
    requires
        worker.registered_at is Some,
        forall|i: int|
            0 <= i < line.len() ==> #[trigger] line[i] != '\r' && line[i] != '\n' && line[i] != '\0',
        parsed_line(line) is Some,
        encode_utf8(parsed_line(line)->0.text).len() <= 512,
        match parsed_line(line)->0.command {
            LineCommandView::Join { .. } => false,
            LineCommandView::Part { .. } => false,
            LineCommandView::Raw(word) => {
                &&& word.len() > 0
                &&& forall|i: int|
                    0 <= i < word.len() ==> {
                        ||| '0' <= #[trigger] word[i] && word[i] <= '9'
                        ||| 'a' <= word[i] && word[i] <= 'z'
                        ||| 'A' <= word[i] && word[i] <= 'Z'
                    }
                &&& !text::same_name(word, "JOIN"@)
                &&& !text::same_name(word, "PART"@)
            },
            LineCommandView::Other => true,
        },
    ensures
        worker.session_outgoing(Some(OutgoingMessageView::Raw { server, line }), now) == (
            worker,
            StepView::SendRaw(line),
        ),
{
}

/// What is queued is sent on a registered connection alone, and of what is sent
/// nothing is made up: the step says what the message says.
pub proof fn law_nothing_is_made_up(
    worker: WorkerView,
    message: OutgoingMessageView,
    now: u64,
)
    ensures
        ({
            let step = worker.session_outgoing(Some(message), now).1;
            &&& worker.registered_at is None ==> step == StepView::Wait
            &&& step matches StepView::SendRaw(line) ==> message matches OutgoingMessageView::Raw {
                line: written,
                ..
            } && written == line
            &&& step matches StepView::Send(ClientCommandView::Privmsg { target, text })
                ==> message matches OutgoingMessageView::Privmsg { target: to, text: said, .. }
                && to == target && said == text
            &&& !(step is Close)
        }),
{
}

/// A report that the worker took up a requested change.
pub open spec fn is_barrier(event: IrcEventView) -> bool {
    event is ControlApplied || event is ChannelControlApplied
}

/// The reports that were there are still there, and later ones follow them.
pub open spec fn reports_follow(before: Seq<IrcEventView>, after: Seq<IrcEventView>) -> bool {
    after.len() >= before.len() && after.take(before.len() as int) == before
}

/// The first new report is this barrier, and no other new report is one.
pub open spec fn answered_once(
    before: Seq<IrcEventView>,
    after: Seq<IrcEventView>,
    barrier: IrcEventView,
) -> bool {
    &&& reports_follow(before, after)
    &&& after.len() > before.len()
    &&& after[before.len() as int] == barrier
    &&& forall|i: int| before.len() < i < after.len() ==> !is_barrier(#[trigger] after[i])
}

/// No new report is a barrier.
pub open spec fn unanswered(before: Seq<IrcEventView>, after: Seq<IrcEventView>) -> bool {
    &&& reports_follow(before, after)
    &&& forall|i: int| before.len() <= i < after.len() ==> !is_barrier(#[trigger] after[i])
}

/// A control is answered as the session counts it: a disconnection or reconnection
/// by one barrier of the server, a join or part by one of the channel, anything
/// else by none.
pub open spec fn answered(
    label: Seq<char>,
    command: ConnectionCommandView,
    before: Seq<IrcEventView>,
    after: Seq<IrcEventView>,
) -> bool {
    match command {
        ConnectionCommandView::Disconnect(_) | ConnectionCommandView::Reconnect => answered_once(
            before,
            after,
            IrcEventView::ControlApplied(label),
        ),
        ConnectionCommandView::Join(channel) => answered_once(
            before,
            after,
            IrcEventView::ChannelControlApplied(label, channel),
        ),
        ConnectionCommandView::Part { channel, .. } => answered_once(
            before,
            after,
            IrcEventView::ChannelControlApplied(label, channel),
        ),
        _ => unanswered(before, after),
    }
}

/// Every control that can be sent is answered by exactly one barrier where the
/// session waits for one, before any other report, whether the worker rests, is
/// connecting or has a connection; one that cannot be sent changes nothing.
pub proof fn law_controls_are_answered_once(
    worker: WorkerView,
    command: ConnectionCommandView,
    now: u64,
)
    ensures
        ({
            let label = worker.channels.label;
            let before = worker.channels.events;
            let idle = worker.idle_control(Some(command), now).0;
            let connecting = worker.connecting_control(Some(command), now).0;
            let open = worker.session_control(Some(command), now).0;
            &&& control_error(command) is None ==> {
                &&& answered(label, command, before, idle.channels.events)
                &&& answered(label, command, before, connecting.channels.events)
                &&& answered(label, command, before, open.channels.events)
            }
            &&& control_error(command) is Some ==> {
                &&& idle == worker
                &&& connecting == worker
                &&& open == worker
            }
        }),
{
    let before = worker.channels.events;
    let idle = worker.idle_control(Some(command), now).0.channels.events;
    let connecting = worker.connecting_control(Some(command), now).0.channels.events;
    let open = worker.session_control(Some(command), now).0.channels.events;
    assert(control_error(command) is None ==> {
        &&& idle.take(before.len() as int) =~= before
        &&& connecting.take(before.len() as int) =~= before
        &&& open.take(before.len() as int) =~= before
    });
}

/// A control ends a connection exactly where the user asked for it, and a
/// connection that is open says goodbye with the user's reason.
pub proof fn law_controls_end_what_they_should(
    worker: WorkerView,
    command: ConnectionCommandView,
    now: u64,
)
    requires
        control_error(command) is None,
    ensures
        ({
            let goes_on = worker.idle_control(Some(command), now).1;
            let end = worker.connecting_control(Some(command), now).1;
            let step = worker.session_control(Some(command), now).1;
            &&& goes_on
            &&& match command {
                ConnectionCommandView::Disconnect(reason) => {
                    &&& end == Some(End::Stop)
                    &&& step == StepView::Close { reason, end: End::Stop }
                },
                ConnectionCommandView::Reconnect => {
                    &&& end == Some(End::Restart)
                    &&& step matches StepView::Close { end: closed, .. } && closed == End::Restart
                },
                _ => end is None && !(step is Close),
            }
            &&& !worker.idle_control(None, now).1
            &&& worker.connecting_control(None, now).1 == Some(End::Shutdown)
            &&& worker.session_control(None, now).1 matches StepView::Close { end: closed, .. }
                && closed == End::Shutdown
            &&& worker.session_outgoing(None, now).1 matches StepView::Close { end: closed, .. }
                && closed == End::Shutdown
            &&& !worker.idle_outgoing(None, now).1
        }),
{
}

/// On a registered connection a change of name or of being away is asked for with
/// the user's words. Without a reason away toggles, with a word of its own.
pub proof fn law_identity_requests_are_sent(
    worker: WorkerView,
    nick: Seq<char>,
    reason: Seq<char>,
    now: u64,
)
    ensures
        ({
            let registered = worker.registered_at is Some;
            let named = worker.session_control(Some(ConnectionCommandView::Nick(nick)), now);
            let away = worker.session_control(Some(ConnectionCommandView::Away(Some(reason))), now);
            let toggled = worker.session_control(Some(ConnectionCommandView::Away(None)), now);
            let back = worker.session_control(Some(ConnectionCommandView::Back), now);
            &&& named.0 == worker && away.0 == worker && toggled.0 == worker && back.0 == worker
            &&& registered && control_error(ConnectionCommandView::Nick(nick)) is None
                ==> named.1 == StepView::Send(ClientCommandView::Nick(nick))
            &&& registered && control_error(ConnectionCommandView::Away(Some(reason))) is None
                ==> away.1 == StepView::Send(ClientCommandView::Away(Some(reason)))
            &&& registered && control_error(ConnectionCommandView::Away(None)) is None
                ==> toggled.1 == StepView::Send(
                ClientCommandView::Away(
                    if worker.away {
                        None
                    } else {
                        Some("Away"@)
                    },
                ),
            )
            &&& registered && control_error(ConnectionCommandView::Back) is None ==> back.1
                == StepView::Send(ClientCommandView::Away(None))
            &&& !registered ==> named.1 is Wait && away.1 is Wait && toggled.1 is Wait
                && back.1 is Wait
        }),
{
}


/// The channels after reports on themselves alone, under the server's own name.
pub open spec fn channel_news(before: ChannelsView, after: ChannelsView) -> bool {
    &&& after.label == before.label
    &&& after.timeout == before.timeout
    &&& reports_follow(before.events, after.events)
    &&& forall|i: int|
        before.events.len() <= i < after.events.len() ==> (#[trigger] after.events[i]) is Channel
            && after.events[i]->Channel_0 == before.label
}

proof fn lemma_news_trans(a: ChannelsView, b: ChannelsView, c: ChannelsView)
    requires
        channel_news(a, b),
        channel_news(b, c),
    ensures
        channel_news(a, c),
{
    assert(c.events.take(a.events.len() as int) =~= b.events.take(a.events.len() as int));
    assert forall|i: int| a.events.len() <= i < c.events.len() implies (#[trigger] c.events[i])
        is Channel && c.events[i]->Channel_0 == a.label by {
        if i < b.events.len() {
            assert(c.events.take(b.events.len() as int)[i] == b.events[i]);
        }
    }
}

proof fn lemma_news_refl(a: ChannelsView)
    ensures
        channel_news(a, a),
{
    assert(a.events.take(a.events.len() as int) =~= a.events);
}

proof fn lemma_transition_news(a: ChannelsView, index: int, state: ChannelState, now: u64)
    ensures
        channel_news(a, a.transition(index, state, now)),
{
    assert(a.transition(index, state, now).events.take(a.events.len() as int) =~= a.events);
}

proof fn lemma_request_news(
    a: ChannelsView,
    command: ConnectionCommandView,
    connected: bool,
    now: u64,
)
    ensures
        channel_news(a, a.request(command, connected, now).0),
{
    lemma_news_refl(a);
    let after = a.request(command, connected, now).0;
    assert(after.events.take(a.events.len() as int) =~= a.events);
}

proof fn lemma_discarded_news(
    a: ChannelsView,
    queued: Seq<OutgoingMessageView>,
    count: int,
    now: u64,
)
    ensures
        channel_news(a, discarded(a, queued, count, now)),
    decreases count,
{
    lemma_news_refl(a);
    if count > 0 {
        lemma_discarded_news(a, queued, count - 1, now);
        let before = discarded(a, queued, count - 1, now);
        lemma_news_refl(before);
        if let Some(command) = crate::connection::worker::raw_control(queued[count - 1]) {
            lemma_request_news(before, command, false, now);
        }
        lemma_news_trans(a, before, discarded(a, queued, count, now));
    }
}

proof fn lemma_disconnected_news(a: ChannelsView, count: int)
    ensures
        channel_news(a, a.disconnected(count)),
    decreases count,
{
    lemma_news_refl(a);
    if count > 0 {
        lemma_disconnected_news(a, count - 1);
        let before = a.disconnected(count - 1);
        lemma_transition_news(before, count - 1, ChannelState::NotJoined, 0);
        lemma_news_trans(a, before, a.disconnected(count));
    }
}

proof fn lemma_start_news(a: ChannelsView, count: int, now: u64)
    ensures
        channel_news(a, a.start(count, now).0),
    decreases count,
{
    lemma_news_refl(a);
    if count > 0 {
        lemma_start_news(a, count - 1, now);
        let before = a.start(count - 1, now).0;
        if before.entries[count - 1].status.desired {
            lemma_transition_news(before, count - 1, ChannelState::Joining, now);
            lemma_news_trans(a, before, a.start(count, now).0);
        }
    }
}

/// A report on a connection, its channels, our name there or our being away.
pub open spec fn is_state_report(event: IrcEventView, label: Seq<char>) -> bool {
    match event {
        IrcEventView::Connection(server, _) => server == label,
        IrcEventView::Channel(server, _, _) => server == label,
        IrcEventView::Nickname(server, _) => server == label,
        IrcEventView::Away(server, _) => server == label,
        _ => false,
    }
}

/// The state that the last of the reports on a connection tells.
pub open spec fn last_state(events: Seq<IrcEventView>, before: ConnectionState) -> ConnectionState
    decreases events.len(),
{
    if events.len() == 0 {
        before
    } else if let IrcEventView::Connection(_, state) = events.last() {
        state
    } else {
        last_state(events.drop_last(), before)
    }
}

proof fn lemma_last_state(events: Seq<IrcEventView>, place: int, before: ConnectionState)
    requires
        0 <= place < events.len(),
        events[place] is Connection,
        forall|i: int| place < i < events.len() ==> !((#[trigger] events[i]) is Connection),
    ensures
        last_state(events, before) == events[place]->Connection_1,
    decreases events.len(),
{
    if place < events.len() - 1 {
        assert(!(events[events.len() - 1] is Connection));
        lemma_last_state(events.drop_last(), place, before);
    }
}

/// With no request outstanding a session shows the state that was reported last.
pub proof fn law_a_session_shows_the_last_reported_state(
    session: SessionView,
    label: Seq<char>,
    events: Seq<IrcEventView>,
    at: SystemTime,
)
    requires
        !session.has_pending_change(label),
        forall|i: int| 0 <= i < events.len() ==> is_state_report(#[trigger] events[i], label),
    ensures
        !session.reported(events, at).has_pending_change(label),
        session.reported(events, at).connection_state(label, None) == last_state(
            events,
            session.connection_state(label, None),
        ),
    decreases events.len(),
{
    if events.len() > 0 {
        let earlier = events.drop_last();
        assert forall|i: int| 0 <= i < earlier.len() implies is_state_report(
            #[trigger] earlier[i],
            label,
        ) by {
            assert(earlier[i] == events[i]);
        }
        law_a_session_shows_the_last_reported_state(session, label, earlier, at);
        assert(is_state_report(events[events.len() - 1], label));
        let before = session.reported(earlier, at);
        let event = events.last();
        if let IrcEventView::Channel(server, channel, status) = event {
            let opened = before.open_channel(server, channel);
        }
    }
}

/// A worker's reports on its connection, from the request on: the barrier first,
/// and then reports on the state alone.
pub open spec fn reports_from_request(events: Seq<IrcEventView>, label: Seq<char>) -> bool {
    &&& events.len() > 0
    &&& events[0] == IrcEventView::ControlApplied(label)
    &&& forall|i: int| 1 <= i < events.len() ==> is_state_report(#[trigger] events[i], label)
}

proof fn lemma_more_reports(before: ChannelsView, after: ChannelsView, label: Seq<char>)
    requires
        reports_from_request(before.events, label),
        before.label == label,
        channel_news(before, after),
    ensures
        reports_from_request(after.events, label),
{
    assert(after.events.take(before.events.len() as int)[0] == before.events[0]);
    assert forall|i: int| 1 <= i < after.events.len() implies is_state_report(
        #[trigger] after.events[i],
        label,
    ) by {
        if i < before.events.len() {
            assert(after.events.take(before.events.len() as int)[i] == before.events[i]);
        }
    }
}

/// The reports of a worker that takes up a reconnection on an open connection,
/// connects anew and is welcomed.
proof fn lemma_reconnection_reports(
    worker: WorkerView,
    queued: Seq<OutgoingMessageView>,
    late: Seq<OutgoingMessageView>,
    welcome: WireMessageView,
    times: (u64, u64, u64, u64),
    at: SystemTime,
)
    requires
        worker.channels.events.len() == 0,
        welcome.command is Response,
        welcome.command->Response_0 == 1,
    ensures
        ({
            let closed = worker.session_control(
                Some(ConnectionCommandView::Reconnect),
                times.0,
            ).0.finish(End::Restart, times.1).0;
            let events = closed.begin(queued, times.2).received(
                welcome,
                late,
                times.3,
                at,
            ).0.channels.events;
            &&& reports_from_request(events, worker.channels.label)
            &&& last_state(events.drop_first(), ConnectionState::Stopped)
                == ConnectionState::Connected
        }),
{
    let label = worker.channels.label;
    let args = welcome.command->Response_1;
    let answered = worker.session_control(Some(ConnectionCommandView::Reconnect), times.0).0;
    let closed = answered.finish(End::Restart, times.1).0;
    let begun = closed.begin(queued, times.2);
    let after = begun.received(welcome, late, times.3, at).0;
    let count = answered.channels.entries.len() as int;
    lemma_disconnected_news(answered.channels, count);
    lemma_more_reports(answered.channels, closed.channels, label);
    let dropped = discarded(closed.channels, queued, queued.len() as int, times.2);
    lemma_discarded_news(closed.channels, queued, queued.len() as int, times.2);
    lemma_more_reports(closed.channels, dropped, label);
    assert(begun.channels.events
        =~= dropped.events.push(IrcEventView::Connection(label, ConnectionState::Connecting)));
    assert(reports_from_request(begun.channels.events, label)) by {
        assert(begun.channels.events[0] == dropped.events[0]);
        assert forall|i: int| 1 <= i < begun.channels.events.len() implies is_state_report(
            #[trigger] begun.channels.events[i],
            label,
        ) by {
            if i < dropped.events.len() {
                assert(begun.channels.events[i] == dropped.events[i]);
            }
        }
    }
    let kept = discarded(begun.channels, late, late.len() as int, times.3);
    lemma_discarded_news(begun.channels, late, late.len() as int, times.3);
    lemma_more_reports(begun.channels, kept, label);
    let named = if args.len() > 0 {
        begun.renamed(args[0])
    } else {
        begun
    };
    let announced = WorkerView { registered_at: Some(times.3), ..named.with(kept) }.emitted(
        IrcEventView::Nickname(label, named.server.nickname),
    ).emitted(IrcEventView::Away(label, false)).state(ConnectionState::Connected);
    let news = announced.channels.events;
    let place = news.len() - 1;
    assert(reports_from_request(news, label)) by {
        assert(news[0] == kept.events[0]);
        assert forall|i: int| 1 <= i < news.len() implies is_state_report(
            #[trigger] news[i],
            label,
        ) by {
            if i < kept.events.len() {
                assert(news[i] == kept.events[i]);
            }
        }
    }
    lemma_start_news(announced.channels, announced.channels.entries.len() as int, times.3);
    lemma_more_reports(announced.channels, after.channels, label);
    let events = after.channels.events;
    assert(events.take(news.len() as int)[place] == news[place]);
    let rest = events.drop_first();
    assert forall|i: int| place - 1 < i < rest.len() implies !((#[trigger] rest[i])
        is Connection) by {
        assert(rest[i] == events[i + 1]);
        assert(events[i + 1] is Channel);
    }
    assert(rest[place - 1] == events[place]);
    lemma_last_state(rest, place - 1, ConnectionState::Stopped);
}

proof fn lemma_reported_first(session: SessionView, events: Seq<IrcEventView>, at: SystemTime)
    requires
        events.len() > 0,
    ensures
        session.reported(events, at) == session.handle_event(events[0], at).reported(
            events.drop_first(),
            at,
        ),
    decreases events.len(),
{
    reveal_with_fuel(SessionView::reported, 2);
    if events.len() > 1 {
        lemma_reported_first(session, events.drop_last(), at);
        assert(events.drop_last().drop_first() =~= events.drop_first().drop_last());
    } else {
        assert(events.drop_last() =~= Seq::empty());
        assert(events.drop_first() =~= Seq::empty());
    }
}

proof fn lemma_last_state_given(
    events: Seq<IrcEventView>,
    a: ConnectionState,
    b: ConnectionState,
    place: int,
)
    requires
        0 <= place < events.len(),
        events[place] is Connection,
    ensures
        last_state(events, a) == last_state(events, b),
    decreases events.len(),
{
    if !(events.last() is Connection) {
        lemma_last_state_given(events.drop_last(), a, b, place);
    }
}

/// A reconnection that the user asked for ends with the server shown as connected
/// again: the worker's reports, from the request to the new welcome, lift the
/// session's barrier and say so.
pub proof fn law_a_reconnection_ends_connected(
    session: SessionView,
    worker: WorkerView,
    queued: Seq<OutgoingMessageView>,
    late: Seq<OutgoingMessageView>,
    welcome: WireMessageView,
    times: (u64, u64, u64, u64),
    at: SystemTime,
)
    requires
        !session.has_pending_change(worker.channels.label),
        worker.channels.events.len() == 0,
        welcome.command is Response,
        welcome.command->Response_0 == 1,
    ensures
        ({
            let label = worker.channels.label;
            let changed = session.begin_change(label, ConnectionState::Connecting);
            let closed = worker.session_control(
                Some(ConnectionCommandView::Reconnect),
                times.0,
            ).0.finish(End::Restart, times.1).0;
            let events = closed.begin(queued, times.2).received(
                welcome,
                late,
                times.3,
                at,
            ).0.channels.events;
            &&& changed.connection_state(label, None) == ConnectionState::Connecting
            &&& closed.next == Some(times.1)
            &&& changed.reported(events, at).connection_state(label, None)
                == ConnectionState::Connected
            &&& !changed.reported(events, at).has_pending_change(label)
        }),
{
    let label = worker.channels.label;
    let changed = session.begin_change(label, ConnectionState::Connecting);
    let closed = worker.session_control(
        Some(ConnectionCommandView::Reconnect),
        times.0,
    ).0.finish(End::Restart, times.1).0;
    let events = closed.begin(queued, times.2).received(
        welcome,
        late,
        times.3,
        at,
    ).0.channels.events;
    lemma_reconnection_reports(worker, queued, late, welcome, times, at);
    let lifted = changed.handle_event(events[0], at);
    let rest = events.drop_first();
    assert forall|i: int| 0 <= i < rest.len() implies is_state_report(
        #[trigger] rest[i],
        label,
    ) by {
        assert(rest[i] == events[i + 1]);
    }
    lemma_reported_first(changed, events, at);
    law_a_session_shows_the_last_reported_state(lifted, label, rest, at);
    lemma_some_state(rest);
    let place = choose|i: int| 0 <= i < rest.len() && (#[trigger] rest[i]) is Connection;
    lemma_last_state_given(
        rest,
        ConnectionState::Stopped,
        lifted.connection_state(label, None),
        place,
    );
}

/// A state that was not there before was reported.
proof fn lemma_some_state(events: Seq<IrcEventView>)
    requires
        last_state(events, ConnectionState::Stopped) == ConnectionState::Connected,
    ensures
        exists|i: int| 0 <= i < events.len() && (#[trigger] events[i]) is Connection,
    decreases events.len(),
{
    if events.len() > 0 {
        let last = events.len() - 1;
        if events[last] is Connection {
        } else {
            lemma_some_state(events.drop_last());
            let i = choose|i: int|
                0 <= i < events.drop_last().len() && (#[trigger] events.drop_last()[i])
                    is Connection;
            assert(events[i] is Connection);
        }
    }
}


/// One channel in a new state, which is reported under the server's name; every
/// other channel stays as it was.
pub open spec fn reported_as(
    before: ChannelsView,
    after: ChannelsView,
    i: int,
    state: ChannelState,
    desired: bool,
    deadline: Option<u64>,
) -> bool {
    let status = ChannelStatus { state, desired };
    let name = before.entries[i].name;
    &&& after.label == before.label
    &&& after.timeout == before.timeout
    &&& after.entries.len() == before.entries.len()
    &&& after.entries[i].name == name
    &&& after.entries[i].status == status
    &&& after.entries[i].deadline == deadline
    &&& forall|j: int|
        0 <= j < before.entries.len() && j != i ==> #[trigger] after.entries[j]
            == before.entries[j]
    &&& after.events.len() == before.events.len() + 1
    &&& after.events.take(before.events.len() as int) == before.events
    &&& after.events.last() == IrcEventView::Channel(before.label, name, status)
}

/// Asking to join a known channel, under any spelling: on a connection the join is
/// sent under the known name and awaited, unless the channel is joined or busy;
/// without one it is remembered.
pub proof fn law_joining_a_known_channel(
    channels: ChannelsView,
    i: int,
    name: Seq<char>,
    connected: bool,
    now: u64,
)
    requires
        channels.wf(),
        0 <= i < channels.entries.len(),
        text::same_name(channels.entries[i].name, name),
        now + channels.timeout <= u64::MAX,
    ensures
        ({
            let entry = channels.entries[i];
            let state = entry.status.state;
            let (after, command) = channels.request(
                ConnectionCommandView::Join(name),
                connected,
                now,
            );
            let resting = state == ChannelState::NotJoined || state == ChannelState::Uncertain;
            let due = Some((now + channels.timeout) as u64);
            &&& connected && resting ==> {
                &&& command == Some(ClientCommandView::Join(entry.name))
                &&& reported_as(channels, after, i, ChannelState::Joining, true, due)
            }
            &&& connected && !resting ==> {
                &&& command is None
                &&& reported_as(channels, after, i, state, entry.status.desired, entry.deadline)
            }
            &&& !connected ==> {
                &&& command is None
                &&& reported_as(channels, after, i, ChannelState::NotJoined, true, None)
            }
        }),
{
    lemma_found(channels, i, name);
    let after = channels.request(ConnectionCommandView::Join(name), connected, now).0;
    assert(after.events.take(channels.events.len() as int) =~= channels.events);
}

/// Asking to leave a known channel: on a connection the part is sent under the
/// known name with the user's reason, unless the channel is not joined or busy; the
/// wish to be there ends.
pub proof fn law_parting_a_known_channel(
    channels: ChannelsView,
    i: int,
    name: Seq<char>,
    reason: Option<Seq<char>>,
    connected: bool,
    now: u64,
)
    requires
        channels.wf(),
        0 <= i < channels.entries.len(),
        text::same_name(channels.entries[i].name, name),
        now + channels.timeout <= u64::MAX,
    ensures
        ({
            let entry = channels.entries[i];
            let state = entry.status.state;
            let (after, command) = channels.request(
                ConnectionCommandView::Part { channel: name, reason },
                connected,
                now,
            );
            let due = Some((now + channels.timeout) as u64);
            &&& connected && (state == ChannelState::Joined || state == ChannelState::Uncertain)
                ==> {
                &&& command == Some(ClientCommandView::Part { channel: entry.name, reason })
                &&& reported_as(channels, after, i, ChannelState::Parting, false, due)
            }
            &&& connected && (state == ChannelState::Joining || state == ChannelState::Parting)
                ==> {
                &&& command is None
                &&& reported_as(channels, after, i, state, entry.status.desired, entry.deadline)
            }
            &&& !connected || state == ChannelState::NotJoined ==> {
                &&& command is None
                &&& reported_as(channels, after, i, ChannelState::NotJoined, false, None)
            }
        }),
{
    lemma_found(channels, i, name);
    let after = channels.request(
        ConnectionCommandView::Part { channel: name, reason },
        connected,
        now,
    ).0;
    assert(after.events.take(channels.events.len() as int) =~= channels.events);
}

/// A channel that nobody asked for before is added at the end when it is joined,
/// and leaving it does nothing.
pub proof fn law_unknown_channels_are_added_by_joining(
    channels: ChannelsView,
    name: Seq<char>,
    reason: Option<Seq<char>>,
    connected: bool,
    now: u64,
)
    requires
        forall|i: int|
            0 <= i < channels.entries.len() ==> !text::same_name(
                (#[trigger] channels.entries[i]).name,
                name,
            ),
        now + channels.timeout <= u64::MAX,
    ensures
        channels.request(ConnectionCommandView::Part { channel: name, reason }, connected, now) == (
            channels,
            None::<ClientCommandView>,
        ),
        ({
            let (after, command) = channels.request(
                ConnectionCommandView::Join(name),
                connected,
                now,
            );
            let status = ChannelStatus {
                state: if connected {
                    ChannelState::Joining
                } else {
                    ChannelState::NotJoined
                },
                desired: true,
            };
            let count = channels.entries.len() as int;
            &&& after.entries.len() == count + 1
            &&& after.entries.take(count) == channels.entries
            &&& after.entries[count].name == name
            &&& after.entries[count].status == status
            &&& after.entries[count].deadline == (if connected {
                Some((now + channels.timeout) as u64)
            } else {
                None
            })
            &&& after.events == channels.events.push(
                IrcEventView::Channel(channels.label, name, status),
            )
            &&& command == (if connected {
                Some(ClientCommandView::Join(name))
            } else {
                None
            })
        }),
{
    lemma_position(channels.entries, name);
    let after = channels.request(ConnectionCommandView::Join(name), connected, now).0;
    assert(after.entries.take(channels.entries.len() as int) =~= channels.entries);
}

/// The server's word on a channel: our own join makes a wanted channel joined, our
/// own part ends the wish, a kick keeps it, and a refusal ends the attempt.
pub proof fn law_the_server_confirms_membership(
    channels: ChannelsView,
    i: int,
    name: Seq<char>,
    code: u16,
    now: u64,
)
    requires
        channels.wf(),
        0 <= i < channels.entries.len(),
        text::same_name(channels.entries[i].name, name),
        model::channel_name(name),
        now + channels.timeout <= u64::MAX,
    ensures
        ({
            let entry = channels.entries[i];
            let desired = entry.status.desired;
            let refused = code == 403 || code == 405 || code == 407 || code == 437 || code == 471
                || code == 473 || code == 474 || code == 475 || code == 476 || code == 477 || code
                == 489;
            let joined = channels.joined(name, now);
            &&& desired ==> joined.1 is None && reported_as(
                channels,
                joined.0,
                i,
                ChannelState::Joined,
                true,
                None,
            )
            &&& !desired && entry.status.state != ChannelState::Parting ==> joined.1 == Some(
                ClientCommandView::Part { channel: entry.name, reason: None },
            ) && reported_as(
                channels,
                joined.0,
                i,
                ChannelState::Parting,
                false,
                Some((now + channels.timeout) as u64),
            )
            &&& !desired && entry.status.state == ChannelState::Parting ==> joined == (
                channels,
                None::<ClientCommandView>,
            )
            &&& reported_as(
                channels,
                channels.left(name, false),
                i,
                ChannelState::NotJoined,
                false,
                None,
            )
            &&& reported_as(
                channels,
                channels.left(name, true),
                i,
                ChannelState::NotJoined,
                desired,
                None,
            )
            &&& code == 442 || (refused && entry.status.state == ChannelState::Joining)
                ==> reported_as(
                channels,
                channels.error(code, name),
                i,
                ChannelState::NotJoined,
                desired,
                None,
            )
            &&& code != 442 && !(refused && entry.status.state == ChannelState::Joining)
                ==> channels.error(code, name) == channels
        }),
{
    lemma_found(channels, i, name);
    let joined = channels.joined(name, now).0;
    let left = channels.left(name, false);
    let kicked = channels.left(name, true);
    let refused = channels.error(code, name);
    let count = channels.events.len() as int;
    assert(joined.events.take(count) =~= channels.events);
    assert(left.events.take(count) =~= channels.events);
    assert(kicked.events.take(count) =~= channels.events);
    assert(refused.events.take(count) =~= channels.events);
}

/// Of a channel that is not known the server's word on parts and refusals changes
/// nothing, and a join of our own adds it as joined.
pub proof fn law_the_server_adds_channels_by_joining(
    channels: ChannelsView,
    name: Seq<char>,
    kicked: bool,
    code: u16,
    now: u64,
)
    requires
        forall|i: int|
            0 <= i < channels.entries.len() ==> !text::same_name(
                (#[trigger] channels.entries[i]).name,
                name,
            ),
    ensures
        channels.left(name, kicked) == channels,
        channels.error(code, name) == channels,
        !model::channel_name(name) ==> channels.joined(name, now) == (
            channels,
            None::<ClientCommandView>,
        ),
        model::channel_name(name) ==> {
            let (after, command) = channels.joined(name, now);
            let status = ChannelStatus { state: ChannelState::Joined, desired: true };
            let count = channels.entries.len() as int;
            &&& command is None
            &&& after.entries.len() == count + 1
            &&& after.entries.take(count) == channels.entries
            &&& after.entries[count] == ChannelView { name, status, deadline: None }
            &&& after.events == channels.events.push(
                IrcEventView::Channel(channels.label, name, status),
            )
        },
{
    lemma_position(channels.entries, name);
    let after = channels.joined(name, now).0;
    assert(after.entries.take(channels.entries.len() as int) =~= channels.entries);
}

/// The deadline that is waited for is the earliest of those that stand.
pub proof fn law_the_earliest_deadline_is_awaited(channels: ChannelsView, count: int)
    requires
        0 <= count <= channels.entries.len(),
    ensures
        match channels.deadline(count) {
            Some(earliest) => {
                &&& exists|i: int|
                    0 <= i < count && (#[trigger] channels.entries[i]).deadline == Some(earliest)
                &&& forall|i: int|
                    0 <= i < count && (#[trigger] channels.entries[i]).deadline is Some ==> earliest
                        <= channels.entries[i].deadline->0
            },
            None => forall|i: int|
                0 <= i < count ==> (#[trigger] channels.entries[i]).deadline is None,
        },
    decreases count,
{
    if count > 0 {
        law_the_earliest_deadline_is_awaited(channels, count - 1);
        let entry = channels.entries[count - 1];
        assert(entry == channels.entries[count - 1]);
        match channels.deadline(count - 1) {
            Some(earlier) => {
                let i = choose|i: int|
                    0 <= i < count - 1 && (#[trigger] channels.entries[i]).deadline == Some(
                        earlier,
                    );
                assert(channels.entries[i].deadline == Some(earlier));
            },
            None => {},
        }
    }
}

/// A join or part that was not confirmed in time leaves its channel uncertain, with
/// the wish as it was; what has time left stays as it is.
pub proof fn law_deadlines_leave_channels_uncertain(
    channels: ChannelsView,
    count: int,
    now: u64,
    at: SystemTime,
)
    requires
        0 <= count <= channels.entries.len(),
    ensures
        ({
            let after = channels.expire(count, now, at);
            &&& after.label == channels.label
            &&& after.entries.len() == channels.entries.len()
            &&& forall|i: int|
                0 <= i < channels.entries.len() ==> {
                    let entry = channels.entries[i];
                    &&& (#[trigger] after.entries[i]).name == entry.name
                    &&& after.entries[i].status.desired == entry.status.desired
                    &&& i < count && entry.deadline is Some && entry.deadline->0 <= now ==> {
                        &&& after.entries[i].status.state == ChannelState::Uncertain
                        &&& after.entries[i].deadline is None
                    }
                    &&& i >= count || entry.deadline is None || entry.deadline->0 > now
                        ==> after.entries[i] == entry
                }
        }),
    decreases count,
{
    if count > 0 {
        law_deadlines_leave_channels_uncertain(channels, count - 1, now, at);
    }
}

/// Giving up on one channel is reported, and said in its conversation: which
/// operation it was that nobody confirmed.
pub proof fn law_giving_up_is_said_in_the_channel(
    channels: ChannelsView,
    count: int,
    now: u64,
    at: SystemTime,
)
    requires
        channels.wf(),
        0 < count <= channels.entries.len(),
        channels.entries[count - 1].deadline is Some,
        channels.entries[count - 1].deadline->0 <= now,
    ensures
        ({
            let entry = channels.entries[count - 1];
            let before = channels.expire(count - 1, now, at).events;
            let after = channels.expire(count, now, at).events;
            let operation = if entry.status.state == ChannelState::Joining {
                "JOIN"@
            } else {
                "PART"@
            };
            &&& after.len() == before.len() + 2
            &&& after[before.len() as int] == IrcEventView::Channel(
                channels.label,
                entry.name,
                ChannelStatus { state: ChannelState::Uncertain, desired: entry.status.desired },
            )
            &&& after.last() matches IrcEventView::Message(said) && {
                &&& said.server == text::lower(channels.label)
                &&& said.target == BufferKindView::Channel(entry.name)
                &&& said.content.kind == MessageKindView::Console
                &&& said.content.received_at == at
                &&& said.content.text == operation
                    + " timed out; channel membership is unconfirmed"@
            }
        }),
{
    law_deadlines_leave_channels_uncertain(channels, count - 1, now, at);
    let before = channels.expire(count - 1, now, at);
    let moved = before.transition(count - 1, ChannelState::Uncertain, now);
    let entry = channels.entries[count - 1];
    assert(before.entries[count - 1] == entry);
    lemma_position(moved.entries, entry.name);
    let found = moved.index(entry.name);
    assert(text::same_name(moved.entries[count - 1].name, entry.name));
    if found is Some && found->0 != count - 1 {
        let j = found->0;
        assert(moved.entries[j].name == channels.entries[j].name);
        if j < count - 1 {
            assert(!text::same_name(channels.entries[j].name, channels.entries[count - 1].name));
        } else {
            assert(!text::same_name(channels.entries[count - 1].name, channels.entries[j].name));
        }
    }
}

/// The configured channels are wanted in their order, each once, whatever the case
/// of its name; what names no channel is left out.
pub proof fn law_configured_channels_are_wanted_once(
    names: Seq<Seq<char>>,
    label: Seq<char>,
    timeout: u64,
)
    ensures
        ({
            let channels = ChannelsView::initial(names, label, timeout);
            &&& channels.label == label
            &&& channels.timeout == timeout
            &&& channels.events.len() == 0
            &&& channels.wf()
            &&& forall|i: int|
                0 <= i < channels.entries.len() ==> {
                    &&& (#[trigger] channels.entries[i]).status == ChannelStatus {
                        state: ChannelState::NotJoined,
                        desired: true,
                    }
                    &&& names.contains(channels.entries[i].name)
                    &&& model::channel_name(channels.entries[i].name)
                }
            &&& forall|k: int|
                0 <= k < names.len() && model::channel_name(#[trigger] names[k])
                    ==> channels.index(names[k]) is Some
        }),
    decreases names.len(),
{
    if names.len() > 0 {
        let earlier = names.drop_last();
        law_configured_channels_are_wanted_once(earlier, label, timeout);
        let before = ChannelsView::initial(earlier, label, timeout);
        let channels = ChannelsView::initial(names, label, timeout);
        let name = names.last();
        lemma_position(before.entries, name);
        lemma_position(channels.entries, name);
        assert forall|i: int| 0 <= i < channels.entries.len() implies names.contains(
            (#[trigger] channels.entries[i]).name,
        ) && model::channel_name(channels.entries[i].name) && channels.entries[i].status
            == (ChannelStatus { state: ChannelState::NotJoined, desired: true }) by {
            if i < before.entries.len() {
                let entry = before.entries[i];
                assert(channels.entries[i] == entry);
                let k = choose|k: int| 0 <= k < earlier.len() && earlier[k] == entry.name;
                assert(names[k] == entry.name);
            } else {
                assert(names[names.len() - 1] == name);
            }
        }
        assert forall|k: int| 0 <= k < names.len() && model::channel_name(
            #[trigger] names[k],
        ) implies channels.index(names[k]) is Some by {
            lemma_position(channels.entries, names[k]);
            if k < earlier.len() {
                assert(earlier[k] == names[k]);
                lemma_position(before.entries, names[k]);
                let i = before.index(names[k])->0;
                assert(channels.entries[i] == before.entries[i]);
            } else if before.index(name) is Some {
                let i = before.index(name)->0;
                assert(channels.entries[i] == before.entries[i]);
            } else {
                assert(channels.entries[channels.entries.len() - 1].name == name);
            }
        }
    }
}


/// The server's welcome makes the connection a registered one, under the name that
/// the server gives. That is reported with the connection and that we are not away,
/// and every wanted channel is asked for, and then awaited.
pub proof fn law_a_welcome_registers(
    worker: WorkerView,
    message: WireMessageView,
    args: Seq<Seq<char>>,
    now: u64,
    at: SystemTime,
)
    requires
        worker.registered_at is None,
        message.command == WireCommandView::Response(1, args),
        now + worker.channels.timeout <= u64::MAX,
    ensures
        ({
            let (after, reaction) = worker.received(message, Seq::empty(), now, at);
            let label = worker.channels.label;
            let nickname = if args.len() > 0 {
                args[0]
            } else {
                worker.server.nickname
            };
            let first = worker.channels.events.len() as int;
            let events = after.channels.events;
            &&& after.registered_at == Some(now)
            &&& after.server == ServerConfigView { nickname, ..worker.server }
            &&& after.next == worker.next && after.failures == worker.failures
            &&& reaction.end is None
            &&& reaction.shown
            &&& events.len() >= first + 3
            &&& events.take(first) == worker.channels.events
            &&& events[first] == IrcEventView::Nickname(label, nickname)
            &&& events[first + 1] == IrcEventView::Away(label, false)
            &&& events[first + 2] == IrcEventView::Connection(label, ConnectionState::Connected)
            &&& forall|i: int|
                0 <= i < worker.channels.entries.len() ==> {
                    let entry = worker.channels.entries[i];
                    &&& (#[trigger] after.channels.entries[i]).name == entry.name
                    &&& entry.status.desired ==> {
                        &&& after.channels.entries[i].status.state == ChannelState::Joining
                        &&& reaction.commands.contains(ClientCommandView::Join(entry.name))
                    }
                    &&& !entry.status.desired ==> after.channels.entries[i].status == entry.status
                }
            &&& forall|k: int|
                0 <= k < reaction.commands.len() ==> {
                    &&& (#[trigger] reaction.commands[k]) is Join
                    &&& exists|i: int|
                        0 <= i < worker.channels.entries.len() && (
                        #[trigger] worker.channels.entries[i]).status.desired
                            && reaction.commands[k]->Join_0 == worker.channels.entries[i].name
                }
        }),
{
    let label = worker.channels.label;
    let (after, reaction) = worker.received(message, Seq::empty(), now, at);
    let named = if args.len() > 0 {
        worker.renamed(args[0])
    } else {
        worker
    };
    let announced = WorkerView { registered_at: Some(now), ..named }.emitted(
        IrcEventView::Nickname(label, named.server.nickname),
    ).emitted(IrcEventView::Away(label, false)).state(ConnectionState::Connected);
    let entries = worker.channels.entries;
    let count = entries.len() as int;
    assert(discarded(worker.channels, Seq::empty(), 0, now) == worker.channels);
    law_wanted_channels_are_joined(announced.channels, now);
    lemma_start_news(announced.channels, count, now);
    let news = announced.channels.events;
    let first = worker.channels.events.len() as int;
    let events = after.channels.events;
    assert(events.take(news.len() as int) == news);
    assert(events.take(first) =~= worker.channels.events) by {
        assert(news.take(first) =~= worker.channels.events);
        assert(events.take(news.len() as int).take(first) =~= events.take(first));
    }
    assert(events[first] == news[first]) by {
        assert(events.take(news.len() as int)[first] == events[first]);
    }
    assert(events[first + 1] == news[first + 1]) by {
        assert(events.take(news.len() as int)[first + 1] == events[first + 1]);
    }
    assert(events[first + 2] == news[first + 2]) by {
        assert(events.take(news.len() as int)[first + 2] == events[first + 2]);
    }
    let wanted = |entry: ChannelView| entry.status.desired;
    let asked = entries.filter(wanted);
    assert forall|i: int| 0 <= i < count && entries[i].status.desired implies reaction.commands.contains(
        ClientCommandView::Join((#[trigger] entries[i]).name),
    ) by {
        assert(wanted(entries[i]));
        entries.lemma_filter_contains(wanted, i);
        let k = choose|k: int| 0 <= k < asked.len() && asked[k] == entries[i];
        assert(reaction.commands[k] == ClientCommandView::Join(asked[k].name));
    }
    assert forall|k: int| 0 <= k < reaction.commands.len() implies (#[trigger] reaction.commands[k])
        is Join && exists|i: int|
        0 <= i < count && (#[trigger] entries[i]).status.desired && reaction.commands[k]->Join_0
            == entries[i].name by {
        assert(asked.contains(asked[k]));
        entries.lemma_filter_contains_rev(wanted, asked[k]);
        let i = choose|i: int| 0 <= i < count && entries[i] == asked[k];
        assert(wanted(asked[k])) by {
            entries.lemma_filter_pred(wanted, k);
        }
        assert(entries[i].status.desired);
    }
}


/// A change of name by the server's word: our own is taken over and reported, a
/// peer's is reported with the name before; and the message is shown as well.
pub proof fn law_changes_of_name_are_followed(
    worker: WorkerView,
    message: WireMessageView,
    nick: Seq<char>,
    queued: Seq<OutgoingMessageView>,
    now: u64,
    at: SystemTime,
)
    requires
        message.command == WireCommandView::Nick(nick),
    ensures
        ({
            let (after, reaction) = worker.received(message, queued, now, at);
            let label = worker.channels.label;
            let before = worker.channels.events;
            let own = message.source is Some && text::same_name(
                message.source->0,
                worker.server.nickname,
            );
            &&& reaction.commands.len() == 0 && reaction.end is None
            &&& own ==> {
                &&& after.server == ServerConfigView { nickname: nick, ..worker.server }
                &&& after.channels.events == before.push(IrcEventView::Nickname(label, nick))
            }
            &&& !own && message.source is Some ==> {
                &&& after.server == worker.server
                &&& after.channels.events == before.push(
                    IrcEventView::PeerNickname(label, message.source->0, nick),
                )
            }
            &&& message.source is None ==> after == worker
        }),
{
}

/// Being away is what the server says: it is remembered and reported, and such a
/// reply is not shown.
pub proof fn law_being_away_is_what_the_server_says(
    worker: WorkerView,
    message: WireMessageView,
    args: Seq<Seq<char>>,
    away: bool,
    queued: Seq<OutgoingMessageView>,
    now: u64,
    at: SystemTime,
)
    requires
        message.command == (if away {
            WireCommandView::Response(306, args)
        } else {
            WireCommandView::Response(305, args)
        }),
    ensures
        ({
            let (after, reaction) = worker.received(message, queued, now, at);
            &&& after.away == away
            &&& after.channels.events == worker.channels.events.push(
                IrcEventView::Away(worker.channels.label, away),
            )
            &&& after.channels.entries == worker.channels.entries
            &&& after.server == worker.server
            &&& !reaction.shown && reaction.commands.len() == 0 && reaction.end is None
        }),
{
}

/// The server's word on our own membership reaches the channel that it is about: a
/// join, a part, a kick or a refusal; what others do changes nothing here. All of
/// it is shown as well.
pub proof fn law_membership_reaches_its_channel(
    worker: WorkerView,
    message: WireMessageView,
    channel: Seq<char>,
    queued: Seq<OutgoingMessageView>,
    now: u64,
    at: SystemTime,
)
    ensures
        ({
            let (after, reaction) = worker.received(message, queued, now, at);
            let own = message.source is Some && text::same_name(
                message.source->0,
                worker.server.nickname,
            );
            &&& message.command == WireCommandView::Join(channel) ==> {
                &&& reaction.shown && reaction.end is None
                &&& own ==> {
                    let (channels, command) = worker.channels.joined(channel, now);
                    &&& after.channels == channels
                    &&& command is Some ==> reaction.commands == seq![command->0]
                    &&& command is None ==> reaction.commands.len() == 0
                }
                &&& !own ==> after == worker && reaction.commands.len() == 0
            }
            &&& message.command == WireCommandView::Part(channel) ==> {
                &&& reaction.shown && reaction.end is None && reaction.commands.len() == 0
                &&& own ==> after.channels == worker.channels.left(channel, false)
                &&& !own ==> after == worker
            }
            &&& message.command matches WireCommandView::Kick { channel: place, nick, .. } ==> {
                &&& reaction.shown && reaction.end is None && reaction.commands.len() == 0
                &&& text::same_name(nick, worker.server.nickname) ==> after.channels.entries
                    == worker.channels.left(place, true).entries
                &&& !text::same_name(nick, worker.server.nickname) ==> after == worker
            }
        }),
{
}

/// Being kicked is said in the channel's own conversation, with the reason.
pub proof fn law_being_kicked_is_explained(
    worker: WorkerView,
    message: WireMessageView,
    i: int,
    channel: Seq<char>,
    nick: Seq<char>,
    reason: Option<Seq<char>>,
    queued: Seq<OutgoingMessageView>,
    now: u64,
    at: SystemTime,
)
    requires
        worker.channels.wf(),
        0 <= i < worker.channels.entries.len(),
        text::same_name(worker.channels.entries[i].name, channel),
        message.command == (WireCommandView::Kick { channel, nick, reason }),
        text::same_name(nick, worker.server.nickname),
    ensures
        ({
            let events = worker.received(message, queued, now, at).0.channels.events;
            let entry = worker.channels.entries[i];
            let first = worker.channels.events.len() as int;
            &&& events.len() == first + 2
            &&& events[first] == IrcEventView::Channel(
                worker.channels.label,
                entry.name,
                ChannelStatus { state: ChannelState::NotJoined, desired: entry.status.desired },
            )
            &&& events[first + 1] matches IrcEventView::Message(said) && {
                &&& said.server == text::lower(worker.channels.label)
                &&& said.target == BufferKindView::Channel(entry.name)
                &&& said.content.kind == MessageKindView::Console
                &&& said.content.text == "Kicked from "@ + channel + ": "@ + (match reason {
                    Some(reason) => reason,
                    None => "no reason given"@,
                })
            }
        }),
{
    lemma_found(worker.channels, i, channel);
    let left = worker.channels.left(channel, true);
    lemma_position(left.entries, channel);
    let found = left.index(channel);
    assert(text::same_name(left.entries[i].name, channel));
    if found is Some && found->0 != i {
        let j = found->0;
        assert(left.entries[j].name == worker.channels.entries[j].name);
        if j < i {
            assert(!text::same_name(
                worker.channels.entries[j].name,
                worker.channels.entries[i].name,
            ));
        } else {
            assert(!text::same_name(
                worker.channels.entries[i].name,
                worker.channels.entries[j].name,
            ));
        }
    }
}

/// A refusal reaches the channel that its second parameter names. A rejected
/// password, a ban and the server's error end the connection, the first two for
/// good; the last one alone is not shown.
pub proof fn law_refusals_reach_their_channel(
    worker: WorkerView,
    message: WireMessageView,
    code: u16,
    args: Seq<Seq<char>>,
    queued: Seq<OutgoingMessageView>,
    now: u64,
    at: SystemTime,
)
    ensures
        ({
            let (after, reaction) = worker.received(message, queued, now, at);
            &&& message.command == WireCommandView::Response(code, args) && 400 <= code && code
                != 464 && code != 465 ==> {
                &&& args.len() > 1 ==> after.channels == worker.channels.error(code, args[1])
                &&& args.len() <= 1 ==> after == worker
                &&& reaction.shown && reaction.commands.len() == 0 && reaction.end is None
            }
            &&& message.command == WireCommandView::Response(code, args) && (code == 464 || code
                == 465) ==> {
                &&& after == worker
                &&& reaction.shown && reaction.commands.len() == 0
                &&& reaction.end matches Some(End::Failed { permanent, registered, .. })
                    && permanent && registered == (worker.registered_at is Some)
            }
            &&& message.command is Error ==> {
                &&& after == worker
                &&& !reaction.shown && reaction.commands.len() == 0
                &&& reaction.end matches Some(End::Failed { permanent, registered, .. })
                    && !permanent && registered == (worker.registered_at is Some)
            }
            &&& message.command is Privmsg || message.command is Notice || message.command
                is Other ==> {
                &&& after == worker
                &&& reaction.shown && reaction.commands.len() == 0 && reaction.end is None
            }
        }),
{
}

/// A connection has earned its retries back after half a minute of registration.
pub proof fn law_half_a_minute_is_healthy(worker: WorkerView, permanent: bool, now: u64)
    ensures
        worker.failed(permanent, now) matches End::Failed { permanent: told, healthy, registered }
            && told == permanent && registered == (worker.registered_at is Some) && healthy == (
        worker.registered_at is Some && now - worker.registered_at->0 >= 30_000),
{
}

/// Without a connection nothing is sent, but a console line that joins or parts a
/// channel still changes what is wanted; any other message is dropped.
pub proof fn law_wishes_outlive_dropped_messages(
    worker: WorkerView,
    message: OutgoingMessageView,
    now: u64,
)
    ensures
        ({
            let (after, goes_on) = worker.idle_outgoing(Some(message), now);
            &&& goes_on
            &&& message is Privmsg ==> after == worker
            &&& message matches OutgoingMessageView::Raw { line, .. } ==> parsed_line(line) matches Some(
                parsed,
            ) ==> {
                &&& !(parsed.command is Join || parsed.command is Part) ==> after == worker
                &&& parsed.command matches LineCommandView::Join { channel, key, name }
                    ==> !parsed.tagged && !parsed.prefixed && key is None && name is None
                    && !text::breaks_line(line) && control_error(
                    ConnectionCommandView::Join(channel),
                ) is None ==> after.channels == worker.channels.request(
                    ConnectionCommandView::Join(channel),
                    false,
                    now,
                ).0
                &&& parsed.command matches LineCommandView::Part { channel, reason }
                    ==> !parsed.tagged && !parsed.prefixed && !text::breaks_line(line)
                    && control_error(ConnectionCommandView::Part { channel, reason }) is None
                    ==> after.channels == worker.channels.request(
                    ConnectionCommandView::Part { channel, reason },
                    false,
                    now,
                ).0
            }
            &&& worker.registered_at is None ==> worker.session_outgoing(Some(message), now).0
                == after
        }),
{
}

/// What was queued for an earlier connection is dropped one by one as a message
/// without a connection is, before a new attempt and at its welcome.
pub proof fn law_dropping_is_one_by_one(
    worker: WorkerView,
    queued: Seq<OutgoingMessageView>,
    message: OutgoingMessageView,
    now: u64,
)
    ensures
        worker.begin(queued.push(message), now).channels.entries == worker.with(
            discarded(worker.channels, queued, queued.len() as int, now),
        ).idle_outgoing(Some(message), now).0.channels.entries,
        worker.begin(Seq::empty(), now).channels.entries == worker.channels.entries,
        worker.begin(Seq::empty(), now).channels.events == worker.channels.events.push(
            IrcEventView::Connection(worker.channels.label, ConnectionState::Connecting),
        ),
        now + worker.policy.timeout <= u64::MAX ==> worker.begin(queued, now).deadline == now
            + worker.policy.timeout,
        worker.begin(queued, now).registered_at is None,
        worker.begin(queued, now).next == worker.next,
        worker.begin(queued, now).failures == worker.failures,
        worker.begin(queued, now).server == worker.server,
{
    let all = queued.push(message);
    lemma_same_discard(worker.channels, queued, all, queued.len() as int, now);
    assert(all[queued.len() as int] == message);
    assert(all.len() - 1 == queued.len());
}

proof fn lemma_same_discard(
    channels: ChannelsView,
    a: Seq<OutgoingMessageView>,
    b: Seq<OutgoingMessageView>,
    count: int,
    now: u64,
)
    requires
        count <= a.len() <= b.len(),
        forall|i: int| 0 <= i < a.len() ==> a[i] == b[i],
    ensures
        discarded(channels, a, count, now) == discarded(channels, b, count, now),
    decreases count,
{
    if count > 0 {
        lemma_same_discard(channels, a, b, count - 1, now);
    }
}

/// The wait before the retry after this many failures: the policy's, doubled once
/// for each, but never longer than half a minute.
pub proof fn law_waits_are_doubled(policy: RetryPolicy, failures: u32)
    ensures
        failures == 0 ==> retry_delay(policy, failures) == (if policy.delay < 30_000 {
            policy.delay as int
        } else {
            30_000
        }),
        failures == 1 ==> retry_delay(policy, failures) == (if policy.delay < 15_000 {
            2 * policy.delay
        } else {
            30_000
        }),
        failures == 2 ==> retry_delay(policy, failures) == (if policy.delay < 7_500 {
            4 * policy.delay
        } else {
            30_000
        }),
        failures >= 3 && policy.delay > 0 ==> retry_delay(policy, failures) >= (if policy.delay
            < 3_750 {
            8 * policy.delay
        } else {
            30_000
        }),
        retry_delay(policy, failures) <= 30_000,
{
    let delay = policy.delay as int;
    let factor = crate::connection::worker::backoff(failures) as int;
    if failures >= 3 {
        assert(delay * factor >= delay * 8) by (nonlinear_arith)
            requires
                factor >= 8,
                delay >= 0,
        ;
    }
}

/// The end of a connection or attempt is told as what it was. A failure is retried
/// after its wait while the budget lasts; then, and where retrying cannot help, the
/// worker stops, and says so. A connection that had been registered is shown as
/// connecting while it waits.
pub proof fn law_ends_are_told(
    worker: WorkerView,
    permanent: bool,
    healthy: bool,
    registered: bool,
    now: u64,
)
    requires
        now + 30_000 <= u64::MAX,
        worker.failures < u32::MAX,
    ensures
        ({
            let (after, goes_on) = worker.finish(
                End::Failed { permanent, healthy, registered },
                now,
            );
            let label = worker.channels.label;
            let left = worker.channels.disconnected(worker.channels.entries.len() as int).events;
            let events = after.channels.events;
            let failures = if healthy {
                0
            } else {
                worker.failures
            };
            let over = permanent || failures >= worker.policy.max_retries;
            &&& goes_on
            &&& events[left.len() as int] == (if registered {
                IrcEventView::Status(label, "disconnected (connection closed)"@)
            } else {
                IrcEventView::Error(label, "connection or registration failed"@)
            })
            &&& over ==> {
                &&& after.next is None
                &&& events.len() == left.len() + 2
                &&& events.last() == IrcEventView::Connection(label, ConnectionState::Stopped)
            }
            &&& !over ==> {
                &&& after.failures == failures + 1
                &&& after.next == Some((now + retry_delay(worker.policy, failures)) as u64)
                &&& registered ==> events.len() == left.len() + 2 && events.last()
                    == IrcEventView::Connection(label, ConnectionState::Connecting)
                &&& !registered ==> events.len() == left.len() + 1
            }
        }),
{
    lemma_disconnected_news(worker.channels, worker.channels.entries.len() as int);
    law_waits_are_doubled(
        worker.policy,
        if healthy {
            0
        } else {
            worker.failures
        },
    );
}

/// A stop that the user asked for is told, with or without a connection; a restart
/// leads to an attempt at once and is not told as a state; a shutdown ends the
/// worker.
pub proof fn law_asked_ends_are_told(worker: WorkerView, reason: Seq<char>, now: u64)
    ensures
        ({
            let left = worker.channels.disconnected(worker.channels.entries.len() as int);
            let stopped = worker.finish(End::Stop, now);
            let restarted = worker.finish(End::Restart, now);
            let label = worker.channels.label;
            &&& stopped.1 && stopped.0.next is None
            &&& stopped.0.channels.events == left.events.push(
                IrcEventView::Connection(label, ConnectionState::Stopped),
            )
            &&& restarted.1 && restarted.0.next == Some(now) && restarted.0.failures == 0
            &&& restarted.0.channels == left
            &&& !worker.finish(End::Shutdown, now).1
            &&& control_error(ConnectionCommandView::Disconnect(reason)) is None ==> {
                let idle = worker.idle_control(
                    Some(ConnectionCommandView::Disconnect(reason)),
                    now,
                ).0;
                &&& idle.next is None
                &&& idle.channels.events.last() == IrcEventView::Connection(
                    label,
                    ConnectionState::Stopped,
                )
            }
        }),
{
    lemma_disconnected_news(worker.channels, worker.channels.entries.len() as int);
}

/// A worker begins with an attempt at once, its settings and no failure.
pub proof fn law_a_worker_begins_at_once(
    server: ServerConfigView,
    label: Seq<char>,
    channels: Seq<Seq<char>>,
    policy: RetryPolicy,
    now: u64,
)
    ensures
        ({
            let worker = WorkerView::initial(server, label, channels, policy, now);
            &&& worker.next == Some(now)
            &&& worker.failures == 0
            &&& worker.registered_at is None
            &&& !worker.away
            &&& worker.server == server
            &&& worker.policy == policy
            &&& worker.channels.label == label
            &&& worker.channels.timeout == policy.timeout
        }),
{
    law_configured_channels_are_wanted_once(channels, label, policy.timeout);
}


/// What a shown message says is reported, as it is decoded for the channels that
/// are known and for our name; what says nothing is not.
pub proof fn law_what_is_shown_is_reported(
    worker: WorkerView,
    message: WireMessageView,
    at: SystemTime,
)
    ensures
        ({
            let names = worker.channels.entries.map_values(|entry: ChannelView| entry.name);
            let said = crate::protocol::decoded(
                message,
                worker.channels.label,
                names,
                worker.server.nickname,
                at,
            );
            let after = worker.shown(message, at);
            &&& said is None ==> after == worker
            &&& said is Some ==> after.channels.events == worker.channels.events.push(
                IrcEventView::Message(said->0),
            )
            &&& after.channels.entries == worker.channels.entries
            &&& after.server == worker.server
        }),
{
    assert(worker.names() =~= worker.channels.entries.map_values(
        |entry: ChannelView| entry.name,
    ));
}

} // verus!
