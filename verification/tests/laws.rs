use std::time::SystemTime;

use termirc::application::submission::{Feedback, Pending, Plan, Refusal, Submitted};
use termirc::application::{
    execute_command, finish_submission, plan_submission, submit, Connections, Session,
    SubmissionEffect,
};
use termirc::command::CommandAction;
use termirc::config::{Config, ServerConfig};
use termirc::connection::{ConnectionHandle, ConnectionState, IrcEvent};
use termirc::history::HistoryStore;
use termirc::model::{
    BufferId, BufferKind, ChannelState, ChannelStatus, ConnectionCommand, Direction,
    MessageContent, MessageId, OutgoingMessage, RoutedMessage,
};
use termirc::protocol::{
    channel_control_from_raw, encode_outgoing, encode_parsed, validate_control, LineCommand,
    ParsedLine, SendError,
};
use termirc::text::has_whitespace;
use termirc::tui::view::App;
use tokio::sync::mpsc::{channel, Receiver};

fn config() -> Config {
    Config {
        servers: [(
            "Srv".to_string(),
            ServerConfig {
                username: "me".into(),
                nickname: "me".into(),
                password: String::new(),
                server: "localhost".into(),
                use_tls: false,
                port: 6667,
                channels: vec!["#a".into(), "#A".into(), "#b".into()],
                queries: vec!["alice".into(), "ALICE".into()],
            },
        )]
        .into_iter()
        .collect(),
    }
}

fn queues() -> (
    Connections,
    Receiver<OutgoingMessage>,
    Receiver<ConnectionCommand>,
) {
    let (outgoing, messages) = channel(2);
    let (control, commands) = channel(2);
    (
        vec![("Srv".to_string(), ConnectionHandle { outgoing, control })],
        messages,
        commands,
    )
}

/// A session on the console of a connected server.
fn connected() -> Session {
    let mut session = Session::default();
    session.register_config(&config());
    session.apply_connection_event(&IrcEvent::Connection(
        "srv".into(),
        ConnectionState::Connected,
    ));
    session.select_buffer(0);
    session
}

fn private(nick: &str, text: &str) -> RoutedMessage {
    RoutedMessage {
        server: "srv".into(),
        target: BufferKind::Query(nick.into()),
        content: MessageContent::chat(nick, text),
    }
}

fn join(session: &mut Session, channel: &str) {
    session.apply_connection_event(&IrcEvent::Channel(
        "srv".into(),
        channel.into(),
        ChannelStatus {
            state: ChannelState::Joined,
            desired: true,
        },
    ));
}

fn ids(session: &Session, buffer: BufferId) -> Vec<MessageId> {
    session.messages_for(buffer).iter().map(|m| m.id).collect()
}

#[test]
fn histories_give_out_each_identity_once_and_keep_the_newest() {
    let mut history = HistoryStore::new(2);
    let (a, b) = (BufferId(1), BufferId(2));
    let mut inserted = Vec::new();
    for buffer in [a, b, a, a] {
        inserted.push(
            history
                .append(buffer, MessageContent::chat("n", "t"))
                .inserted,
        );
    }
    assert_eq!(
        inserted,
        [MessageId(1), MessageId(2), MessageId(3), MessageId(4)]
    );
    let kept: Vec<MessageId> = history.messages(a).iter().map(|m| m.id).collect();
    assert_eq!(kept, [MessageId(3), MessageId(4)]);
    assert_eq!(history.messages(b).len(), 1);
    let change = history.append(a, MessageContent::chat("n", "t"));
    assert_eq!(change.evicted, [MessageId(3)]);
    assert_eq!(history.messages(b).len(), 1);
}

#[test]
fn nothing_is_kept_without_room() {
    let mut history = HistoryStore::new(0);
    let change = history.append(BufferId(1), MessageContent::chat("n", "t"));
    assert_eq!(change.evicted, [change.inserted]);
    assert!(history.messages(BufferId(1)).is_empty());
}

#[test]
fn registering_a_configuration_twice_changes_nothing_more() {
    let mut session = Session::default();
    session.register_config(&config());
    let kinds: Vec<BufferKind> = session.buffers.iter().map(|b| b.kind.clone()).collect();
    assert_eq!(
        kinds,
        [
            BufferKind::Server,
            BufferKind::Channel("#a".into()),
            BufferKind::Channel("#b".into()),
            BufferKind::Query("alice".into())
        ]
    );
    session.register_config(&config());
    assert_eq!(session.buffers.len(), 4);
    assert!(session.active_buffer().is_none());
}

#[test]
fn servers_are_known_in_any_case() {
    let session = connected();
    for name in ["srv", "SRV", "Srv"] {
        assert_eq!(
            session.connection_state(name, None),
            ConnectionState::Connected
        );
    }
}

#[test]
fn lines_keep_to_their_limit_to_the_byte() {
    let said = |length| OutgoingMessage::Privmsg {
        server: "srv".into(),
        target: "#a".into(),
        text: "x".repeat(length),
    };
    // "PRIVMSG #a " takes 11 bytes and the line end 2.
    let line = encode_outgoing(&said(499)).unwrap();
    assert_eq!(line.len(), 512);
    assert_eq!(line.matches('\n').count(), 1);
    assert!(line.ends_with("\r\n"));
    assert_eq!(encode_outgoing(&said(500)), Err(SendError::TooLong));
    let wide = OutgoingMessage::Privmsg {
        server: "srv".into(),
        target: "#a".into(),
        text: "é".repeat(250),
    };
    assert_eq!(encode_outgoing(&wide), Err(SendError::TooLong));
}

#[test]
fn broken_lines_and_bad_names_are_not_sent() {
    let said = |target: &str, text: &str| {
        encode_outgoing(&OutgoingMessage::Privmsg {
            server: "srv".into(),
            target: target.into(),
            text: text.into(),
        })
    };
    for bad in ["a\rb", "a\nb", "a\0b"] {
        assert_eq!(said("#a", bad), Err(SendError::InvalidCharacters));
        assert_eq!(said(bad, "a"), Err(SendError::InvalidCharacters));
        assert_eq!(
            validate_control(&ConnectionCommand::Nick(bad.into())),
            Err(SendError::InvalidCharacters)
        );
    }
    for bad in ["", "two words", ":colon"] {
        assert_eq!(said(bad, "a"), Err(SendError::InvalidCommand));
        assert_eq!(
            validate_control(&ConnectionCommand::Nick(bad.into())),
            Err(SendError::InvalidCommand)
        );
    }
    assert_eq!(said("#a", ":)").unwrap(), "PRIVMSG #a ::)\r\n");
    assert_eq!(
        validate_control(&ConnectionCommand::Disconnect("x".repeat(600))),
        Err(SendError::TooLong)
    );
    assert_eq!(
        validate_control(&ConnectionCommand::Join("peer".into())),
        Err(SendError::InvalidCommand)
    );
    assert_eq!(validate_control(&ConnectionCommand::Back), Ok(()));
}

#[test]
fn lines_taken_apart_go_out_unless_their_word_is_none() {
    let parsed = |word: &str, text: &str| {
        Some(ParsedLine {
            tagged: false,
            prefixed: false,
            command: LineCommand::Raw(word.into()),
            text: text.into(),
        })
    };
    assert_eq!(encode_parsed(None), Err(SendError::InvalidCommand));
    assert_eq!(
        encode_parsed(parsed("WH OIS", "x")),
        Err(SendError::InvalidCommand)
    );
    assert_eq!(encode_parsed(parsed("", "x")), Err(SendError::InvalidCommand));
    assert_eq!(
        encode_parsed(parsed("WHOX", "WHOX me\r\n")).as_deref(),
        Ok("WHOX me\r\n")
    );
    assert_eq!(
        encode_parsed(parsed("WHOX", &"x".repeat(513))),
        Err(SendError::TooLong)
    );
}

#[test]
fn raw_joins_and_parts_are_controls() {
    assert_eq!(
        channel_control_from_raw("join #a"),
        Ok(Some(ConnectionCommand::Join("#a".into())))
    );
    assert_eq!(
        channel_control_from_raw("PART #a :so long"),
        Ok(Some(ConnectionCommand::Part {
            channel: "#a".into(),
            reason: Some("so long".into()),
        }))
    );
    assert_eq!(channel_control_from_raw("WHOIS me"), Ok(None));
    assert_eq!(
        channel_control_from_raw("JOIN #a key"),
        Err(SendError::InvalidCommand)
    );
    assert_eq!(
        channel_control_from_raw("JOIN #a\r\nQUIT"),
        Err(SendError::InvalidCharacters)
    );
}

#[test]
fn commands_are_refused_for_their_reasons() {
    let (connections, _messages, _commands) = queues();
    let refused = |session: &mut Session, action: CommandAction| match execute_command(
        session,
        &connections,
        action,
    ) {
        Err(refusal) => refusal,
        Ok(plan) => panic!("planned {plan:?}"),
    };
    let mut empty = Session::default();
    assert_eq!(
        refused(&mut empty, CommandAction::Query("bob".into())),
        Refusal::NoServer
    );
    assert_eq!(refused(&mut empty, CommandAction::Close), Refusal::NoQuery);
    assert_eq!(refused(&mut empty, CommandAction::Back), Refusal::NoServer);
    let mut session = connected();
    assert_eq!(
        refused(&mut session, CommandAction::Close),
        Refusal::NotQuery
    );
    assert_eq!(
        refused(&mut session, CommandAction::Connect(Some("other".into()))),
        Refusal::UnknownServer
    );
    assert_eq!(
        refused(
            &mut session,
            CommandAction::Part {
                channel: None,
                reason: None,
            }
        ),
        Refusal::NoChannel
    );
    assert_eq!(
        refused(
            &mut session,
            CommandAction::Part {
                channel: Some("#none".into()),
                reason: None,
            }
        ),
        Refusal::UnknownChannel
    );
    assert_eq!(
        refused(
            &mut session,
            CommandAction::Part {
                channel: Some("#a".into()),
                reason: None,
            }
        ),
        Refusal::ChannelBusy
    );
    assert_eq!(
        refused(&mut session, CommandAction::Away(Some("x".repeat(600)))),
        Refusal::InvalidControl
    );
    session.apply_connection_event(&IrcEvent::Connection("srv".into(), ConnectionState::Stopped));
    assert_eq!(
        refused(&mut session, CommandAction::Nick("you".into())),
        Refusal::NotConnected
    );
}

#[test]
fn refused_and_unqueued_input_keeps_its_draft_and_cursor() {
    let (connections, _messages, _commands) = queues();
    let mut status = String::new();
    for (input, feedback) in [
        ("/", Feedback::Unparsed(Refusal::MissingName)),
        ("/unknown", Feedback::Rejected(Refusal::Unsupported)),
        ("/join", Feedback::Rejected(Refusal::InvalidArguments)),
        (
            "/nick two words",
            Feedback::Rejected(Refusal::InvalidArguments),
        ),
        ("/close", Feedback::Rejected(Refusal::NotQuery)),
        ("  // escaped", Feedback::Rejected(Refusal::Unsupported)),
        ("/away a\nb", Feedback::Rejected(Refusal::InvalidCharacters)),
        ("/part #none", Feedback::Rejected(Refusal::UnknownChannel)),
        ("PART #none", Feedback::ChannelRejected(Refusal::UnknownChannel)),
    ] {
        let mut session = connected();
        session.restore_input_at(input.into(), 1);
        let expected = Submitted {
            effect: SubmissionEffect::Nothing,
            feedback: Some(feedback),
        };
        match plan_submission(&mut session, &connections, &mut status) {
            Plan::Settled(submitted) => assert_eq!(submitted, expected, "{input}"),
            Plan::Queue(pending) => panic!("nothing to queue, got {pending:?}"),
        }
        assert_eq!(status, "");
        assert_eq!(session.input(), input);
        assert_eq!(session.input_cursor(), 1);
    }
    let mut session = connected();
    session.restore_input_at("WHOIS me".into(), 3);
    match plan_submission(&mut session, &connections, &mut status) {
        Plan::Queue(pending) => {
            assert!(matches!(pending, Pending::Message { .. }));
            let submitted = finish_submission(
                &mut session,
                &config(),
                pending,
                false,
                SystemTime::now(),
                &mut status,
            );
            assert_eq!(submitted.effect, SubmissionEffect::Nothing);
            assert_eq!(submitted.feedback, Some(Feedback::Unsent("Srv".into())));
        }
        Plan::Settled(_) => panic!("nothing to queue"),
    }
    assert_eq!(session.input(), "WHOIS me");
    assert_eq!(session.input_cursor(), 3);
    assert_eq!(status, "failed to send (Srv disconnected or busy)");
    assert!(session.messages().is_empty());
}

#[test]
fn queued_input_is_echoed_and_its_draft_used_up() {
    let (connections, _messages, _commands) = queues();
    let mut status = String::new();
    let mut session = connected();
    join(&mut session, "#a");
    session.select_buffer(1);
    session.restore_input("  hello  ".into());
    let plan = plan_submission(&mut session, &connections, &mut status);
    let pending = match plan {
        Plan::Queue(pending) => pending,
        Plan::Settled(_) => panic!("nothing to queue"),
    };
    let at = SystemTime::now();
    finish_submission(&mut session, &config(), pending, true, at, &mut status);
    assert_eq!(session.input(), "");
    assert_eq!(session.messages().len(), 1);
    let echo = &session.messages()[0].content;
    assert_eq!((echo.nick.as_str(), echo.text.as_str()), ("me", "hello"));
    assert_eq!(echo.direction, Direction::Outgoing);
    assert_eq!(status, "");
}

#[test]
fn closing_hides_and_reopening_restores() {
    let mut session = connected();
    let query = session.open_query("srv", "alice");
    session.push_message(private("alice", "one"));
    session.select_buffer_id(query);
    session.restore_input("half a thought".into());
    let before = ids(&session, query);
    assert!(session.close_query(query).is_some());
    assert!(session.buffer(query).unwrap().hidden);
    assert_eq!(ids(&session, query), before);
    assert_eq!(session.open_query("SRV", "ALICE"), query);
    assert!(!session.buffer(query).unwrap().hidden);
    assert_eq!(session.buffer(query).unwrap().draft.text(), "half a thought");
    let console = session.open_server("srv");
    assert_eq!(session.close_query(console), None);
}

#[test]
fn only_speech_opens_a_conversation() {
    let mut session = connected();
    let count = session.buffers.len();
    let mut notice = private("bob", "away");
    notice.content = MessageContent::console("bob away");
    session.push_message(notice);
    assert_eq!(session.buffers.len(), count);
    session.push_message(private("bob", "hello"));
    assert_eq!(session.buffers.len(), count + 1);
    let opened = session.buffers.last().unwrap();
    assert_eq!(opened.kind, BufferKind::Query("bob".into()));
    assert!(opened.unread);
    assert!(session.active_buffer().unwrap().kind == BufferKind::Server);
}

#[test]
fn a_renamed_peer_keeps_the_conversation_unless_the_name_is_taken() {
    let mut session = connected();
    let alice = session.open_query("srv", "alice");
    session.apply_connection_event(&IrcEvent::PeerNickname(
        "srv".into(),
        "Alice".into(),
        "alicia".into(),
    ));
    assert_eq!(
        session.buffer(alice).unwrap().kind,
        BufferKind::Query("alicia".into())
    );
    let bob = session.open_query("srv", "bob");
    session.apply_connection_event(&IrcEvent::PeerNickname(
        "srv".into(),
        "alicia".into(),
        "Bob".into(),
    ));
    assert!(session.buffer(alice).unwrap().send_blocked);
    assert!(!session.buffer(bob).unwrap().send_blocked);
    assert_eq!(session.messages_for(alice).len(), 1);
    assert!(session.messages_for(bob).is_empty());
}

#[test]
fn a_message_to_ourselves_is_shown_once() {
    let mut session = connected();
    let mut sent = private("me", "note");
    sent.content.direction = Direction::Outgoing;
    session.push_message(sent);
    let own = session.open_query("srv", "me");
    assert_eq!(session.messages_for(own).len(), 1);
    assert!(session.push_message(private("ME", "note")).is_none());
    assert_eq!(session.messages_for(own).len(), 1);
    assert!(session.push_message(private("me", "note")).is_some());
    assert_eq!(session.messages_for(own).len(), 2);
}

#[test]
fn reports_before_the_barrier_do_not_undo_a_request() {
    let (connections, _messages, mut commands) = queues();
    let mut session = connected();
    join(&mut session, "#a");
    let plan = execute_command(
        &mut session,
        &connections,
        CommandAction::Disconnect("bye".into()),
    );
    let pending = match plan {
        Ok(Plan::Queue(pending)) => pending,
        other => panic!("expected a control, got {other:?}"),
    };
    assert!(commands.try_recv().is_err());
    let mut status = String::new();
    let at = SystemTime::now();
    finish_submission(&mut session, &config(), pending, true, at, &mut status);
    assert_eq!(
        session.connection_state("srv", None),
        ConnectionState::Stopped
    );
    assert_eq!(
        session.channel_status("srv", "#a"),
        ChannelStatus {
            state: ChannelState::NotJoined,
            desired: true,
        }
    );
    let connected = IrcEvent::Connection("srv".into(), ConnectionState::Connected);
    session.apply_connection_event(&connected);
    assert_eq!(
        session.connection_state("srv", None),
        ConnectionState::Stopped
    );
    session.apply_connection_event(&IrcEvent::ControlApplied("srv".into()));
    session.apply_connection_event(&connected);
    assert_eq!(
        session.connection_state("srv", None),
        ConnectionState::Connected
    );
}

#[test]
fn conversations_keep_their_drafts_and_positions_apart() {
    let mut app = App::new(40, 5);
    app.session.open_channel("srv", "#a");
    app.session.open_channel("srv", "#b");
    for i in 0..20 {
        app.push_message(RoutedMessage::chat("srv", "#a", "n", &format!("{i}")));
    }
    app.select_buffer(0);
    assert!(app.is_at_bottom());
    app.set_scroll_offset(3);
    app.session.restore_input("for a".into());
    app.select_buffer(1);
    assert_eq!(app.input(), "");
    app.session.restore_input("for b".into());
    app.select_buffer(0);
    assert_eq!(app.input(), "for a");
    assert_eq!(app.scroll_offset(), 3);
    let before = app.messages().len();
    app.resize(7, 2);
    assert_eq!(app.messages().len(), before);
}

#[test]
fn hidden_conversations_have_no_row() {
    let mut app = App::new(40, 5);
    app.session.register_config(&config());
    let rows = |app: &App| app.sidebar_rows().len();
    assert_eq!(rows(&app), 4);
    let query = app.session.open_query("srv", "alice");
    app.session.close_query(query);
    assert_eq!(rows(&app), 3);
    app.session.open_query("srv", "alice");
    assert_eq!(rows(&app), 4);
}

#[test]
fn away_and_nickname_follow_the_server() {
    let mut session = connected();
    assert!(!session.is_away("srv"));
    session.apply_connection_event(&IrcEvent::Away("srv".into(), true));
    assert!(session.is_away("SRV"));
    session.apply_connection_event(&IrcEvent::Nickname("srv".into(), "me2".into()));
    assert_eq!(session.nickname("srv"), Some("me2"));
}

#[test]
fn whitespace_is_what_unicode_says() {
    let listed = |c: char| {
        matches!(
            c,
            '\u{9}'..='\u{d}'
                | ' '
                | '\u{85}'
                | '\u{a0}'
                | '\u{1680}'
                | '\u{2000}'..='\u{200a}'
                | '\u{2028}'
                | '\u{2029}'
                | '\u{202f}'
                | '\u{205f}'
                | '\u{3000}'
        )
    };
    for c in '\0'..=char::MAX {
        assert_eq!(has_whitespace(&c.to_string()), listed(c), "{c:?}");
    }
}

#[test]
fn reports_wait_until_every_request_is_taken_up() {
    let mut session = connected();
    join(&mut session, "#a");
    session.begin_connection_change("Srv", ConnectionState::Stopped);
    session.begin_connection_change("srv", ConnectionState::Connecting);
    let requested = session.channel_status("srv", "#a");
    assert_eq!(requested.state, ChannelState::Joining);
    let connected = |name: &str| IrcEvent::Connection(name.into(), ConnectionState::Connected);
    let stopped = IrcEvent::Connection("srv".into(), ConnectionState::Stopped);
    let parted = IrcEvent::Channel(
        "SRV".into(),
        "#A".into(),
        ChannelStatus {
            state: ChannelState::NotJoined,
            desired: false,
        },
    );
    for event in [
        stopped.clone(),
        parted.clone(),
        IrcEvent::ControlApplied("SRV".into()),
        connected("srv"),
        parted.clone(),
        stopped.clone(),
    ] {
        session.handle_event(event);
        assert_eq!(
            session.connection_state("srv", None),
            ConnectionState::Connecting
        );
        assert_eq!(session.channel_status("srv", "#a"), requested);
    }
    session.handle_event(IrcEvent::ControlApplied("srv".into()));
    assert_eq!(
        session.connection_state("srv", None),
        ConnectionState::Connecting
    );
    session.handle_event(connected("SRV"));
    assert_eq!(
        session.connection_state("srv", None),
        ConnectionState::Connected
    );
}

#[test]
fn closing_answers_with_the_console_of_the_same_server() {
    let mut session = Session::default();
    let channel = session.open_channel("Other", "#a");
    session.open_server("Other");
    let query = session.open_query("Srv", "alice");
    session.select_buffer_id(query);
    session.restore_input("half a thought".into());
    session.select_buffer_id(channel);
    assert_eq!(session.close_query(channel), None);
    assert_eq!(session.close_query(BufferId(99)), None);
    assert_eq!(session.buffer_count(), 3);
    let console = session.close_query(query).unwrap();
    assert_eq!(session.buffer_count(), 4);
    assert_eq!(session.buffer(console).unwrap().kind, BufferKind::Server);
    assert_eq!(session.buffer(console).unwrap().server_label, "Srv");
    assert_eq!(session.active(), Some(channel));
    session.select_buffer_id(query);
    assert_eq!(session.active(), Some(channel));
    assert_eq!(session.open_query("Srv", "alice"), query);
    assert_eq!(session.buffer(query).unwrap().draft.text(), "half a thought");
    assert_eq!(session.close_query(query), Some(console));
    assert_eq!(session.buffer_count(), 4);
}

#[test]
fn the_pane_is_never_scrolled_past_its_last_row() {
    let mut app = App::new(40, 5);
    app.session.open_channel("srv", "#a");
    app.session.open_channel("srv", "#b");
    for i in 0..20 {
        app.push_message(RoutedMessage::chat("srv", "#a", "n", &format!("{i}")));
    }
    app.select_buffer(0);
    assert_eq!(app.scroll_offset(), app.max_offset());
    app.set_scroll_offset(10_000);
    assert_eq!(app.scroll_offset(), app.max_offset());
    app.select_buffer(1);
    app.resize(40, 30);
    app.select_buffer(0);
    assert!(app.scroll_offset() <= app.max_offset());
    app.resize(40, 60);
    assert_eq!(app.scroll_offset(), 0);
}

#[test]
fn no_two_conversations_share_an_identity() {
    let mut session = Session::default();
    let a = session.open_channel("srv", "#a");
    let b = session.open_channel("srv", "#b");
    for i in 0..6 {
        let channel = if i % 2 == 0 { "#a" } else { "#b" };
        session.push_message(RoutedMessage::chat("srv", channel, "n", "hello"));
    }
    let mut all = ids(&session, a);
    all.extend(ids(&session, b));
    all.sort_by_key(|id| id.0);
    all.dedup();
    assert_eq!(all.len(), 6);
}

#[test]
fn channel_reports_wait_until_the_request_is_taken_up() {
    let (connections, _messages, _commands) = queues();
    let mut session = connected();
    let mut status = String::new();
    let join = CommandAction::Join("#new".into());
    let pending = match execute_command(&mut session, &connections, join) {
        Ok(Plan::Queue(pending)) => pending,
        other => panic!("expected a control, got {other:?}"),
    };
    let at = SystemTime::now();
    finish_submission(&mut session, &config(), pending, true, at, &mut status);
    let requested = session.channel_status("srv", "#new");
    assert_eq!(
        requested,
        ChannelStatus {
            state: ChannelState::Joining,
            desired: true,
        }
    );
    let parted = IrcEvent::Channel(
        "SRV".into(),
        "#NEW".into(),
        ChannelStatus {
            state: ChannelState::NotJoined,
            desired: false,
        },
    );
    let taken_up = IrcEvent::ChannelControlApplied("Srv".into(), "#New".into());
    for event in [parted.clone(), parted.clone(), taken_up] {
        session.handle_event(event);
        assert_eq!(session.channel_status("srv", "#new"), requested);
    }
    session.handle_event(parted);
    assert_eq!(
        session.channel_status("srv", "#new"),
        ChannelStatus {
            state: ChannelState::NotJoined,
            desired: false,
        }
    );
}

#[test]
fn a_requested_change_disables_sending_until_it_is_taken_up() {
    let (connections, _messages, _commands) = queues();
    let mut session = connected();
    session.restore_input("WHOIS me".into());
    session.begin_connection_change("srv", ConnectionState::Connecting);
    let confirmed = || IrcEvent::Connection("srv".into(), ConnectionState::Connected);
    session.handle_event(confirmed());
    let mut status = String::new();
    assert!(matches!(
        plan_submission(&mut session, &connections, &mut status),
        Plan::Settled(Submitted {
            effect: SubmissionEffect::Nothing,
            feedback: Some(Feedback::Unsent(_)),
        })
    ));
    assert_eq!(session.input(), "WHOIS me");
    session.handle_event(IrcEvent::ControlApplied("srv".into()));
    session.handle_event(confirmed());
    assert!(matches!(
        plan_submission(&mut session, &connections, &mut status),
        Plan::Queue(Pending::Message { .. })
    ));
}

#[test]
fn every_command_leaves_one_record() {
    let at = SystemTime::now();
    let mut status = String::new();
    for (input, queued, feedback) in [
        ("/nick bob", true, Some(Feedback::Accepted)),
        (
            "/nick bob",
            false,
            Some(Feedback::Rejected(Refusal::DisconnectedOrBusy)),
        ),
        ("JOIN #new", true, None),
        (
            "JOIN #new",
            false,
            Some(Feedback::ChannelRejected(Refusal::DisconnectedOrBusy)),
        ),
    ] {
        let (connections, _messages, _commands) = queues();
        let mut session = connected();
        session.restore_input(input.into());
        let pending = match plan_submission(&mut session, &connections, &mut status) {
            Plan::Queue(pending) => pending,
            other => panic!("expected a control, got {other:?}"),
        };
        let submitted =
            finish_submission(&mut session, &config(), pending, queued, at, &mut status);
        assert_eq!(submitted.feedback, feedback, "{input}");
        assert_eq!(session.input(), if queued { "" } else { input });
        assert_eq!(status, "");
    }
    let (connections, _messages, mut commands) = queues();
    let mut session = connected();
    session.restore_input("/query alice".into());
    let submitted = submit(&mut session, &config(), &connections, &mut status);
    assert_eq!(submitted.feedback, Some(Feedback::Accepted));
    session.restore_input("/back".into());
    let submitted = submit(&mut session, &config(), &connections, &mut status);
    assert_eq!(submitted.feedback, Some(Feedback::Accepted));
    assert_eq!(commands.try_recv().unwrap(), ConnectionCommand::Back);
}

#[test]
fn items_go_to_the_worker_they_are_planned_for() {
    let (other_outgoing, mut other_messages) = channel(2);
    let (other_control, mut other_commands) = channel(2);
    let (mut connections, mut messages, mut commands) = queues();
    connections.insert(
        0,
        (
            "Other".to_string(),
            ConnectionHandle {
                outgoing: other_outgoing,
                control: other_control,
            },
        ),
    );
    let mut session = connected();
    let mut status = String::new();
    session.restore_input("WHOIS me".into());
    submit(&mut session, &config(), &connections, &mut status);
    session.restore_input("/back".into());
    submit(&mut session, &config(), &connections, &mut status);
    assert_eq!(
        messages.try_recv().unwrap(),
        OutgoingMessage::Raw {
            server: "Srv".into(),
            line: "WHOIS me".into(),
        }
    );
    assert_eq!(commands.try_recv().unwrap(), ConnectionCommand::Back);
    assert!(other_messages.try_recv().is_err());
    assert!(other_commands.try_recv().is_err());
}

#[test]
fn refusals_have_their_words() {
    for (refusal, word) in [
        (Refusal::NoServer, "no_server"),
        (Refusal::NoQuery, "no_query"),
        (Refusal::NotQuery, "not_query"),
        (Refusal::UnknownServer, "unknown_server"),
        (Refusal::NotConnected, "not_connected"),
        (Refusal::NoChannel, "no_channel"),
        (Refusal::UnknownChannel, "unknown_channel"),
        (Refusal::ChannelBusy, "channel_busy"),
        (Refusal::InvalidControl, "invalid_control"),
        (Refusal::MissingName, "missing_name"),
        (Refusal::InvalidCharacters, "invalid_characters"),
        (Refusal::Unsupported, "unsupported"),
        (Refusal::InvalidArguments, "invalid_arguments"),
        (Refusal::DisconnectedOrBusy, "disconnected_or_busy"),
    ] {
        assert_eq!(refusal.reason(), word);
    }
}

#[test]
fn an_app_registers_its_configuration() {
    let mut app = App::new(40, 5);
    assert!(app.session.has_room_for(&config()));
    app.register_config(&config());
    assert_eq!(app.buffer_count(), 4);
    assert_eq!(app.active(), None);
    assert_eq!(
        app.connection_state("srv", None),
        ConnectionState::Connecting
    );
}
