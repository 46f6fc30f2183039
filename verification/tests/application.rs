use termirc::application::submission::{Feedback, Refusal};
use termirc::application::{submit, submit_composer, Connections, Session, SubmissionEffect};
use termirc::config::Config;
use termirc::connection::{ConnectionHandle, ConnectionState, IrcEvent};
use termirc::model::{
    BufferKind, ChannelState, ChannelStatus, ConnectionCommand, DeliveryState, Direction,
    MessageContent, MessageKind, OutgoingMessage, RoutedMessage, ServerId,
};

fn connected_session(
    console: bool,
    capacity: usize,
) -> (
    Session,
    Connections,
    tokio::sync::mpsc::Receiver<OutgoingMessage>,
    tokio::sync::mpsc::Receiver<ConnectionCommand>,
) {
    let mut session = Session::default();
    if console {
        session.open_server("SRV");
    } else {
        session.open_channel("SRV", "#a");
    }
    session.select_buffer(0);
    session.apply_connection_event(&IrcEvent::Connection(
        "srv".into(),
        ConnectionState::Connected,
    ));
    session.apply_connection_event(&IrcEvent::Channel(
        "srv".into(),
        "#a".into(),
        ChannelStatus {
            state: ChannelState::Joined,
            desired: true,
        },
    ));
    let (outgoing, messages) = tokio::sync::mpsc::channel(capacity);
    let (control, commands) = tokio::sync::mpsc::channel(capacity);
    (
        session,
        Vec::from([("srv".into(), ConnectionHandle { outgoing, control })]),
        messages,
        commands,
    )
}

fn empty_config() -> Config {
    Config {
        servers: Default::default(),
    }
}

#[test]
fn supported_slash_commands_route_without_echo_or_ui_feedback() {
        for console in [false, true] {
        for (input, expected) in [
            ("/nick Alice", ConnectionCommand::Nick("Alice".into())),
            ("/away lunch", ConnectionCommand::Away(Some("lunch".into()))),
            ("/away", ConnectionCommand::Away(None)),
            ("/back", ConnectionCommand::Back),
            ("/connect SRV", ConnectionCommand::Connect),
            ("/reconnect", ConnectionCommand::Reconnect),
            (
                "/disconnect bye",
                ConnectionCommand::Disconnect("bye".into()),
            ),
            (
                "/quit bye all",
                ConnectionCommand::Disconnect("bye all".into()),
            ),
        ] {
            let mut app = Session::default();
            if console {
                app.open_server("srv");
            } else {
                app.open_channel("srv", "#a");
            }
            app.select_buffer(0);
            app.apply_connection_event(&IrcEvent::Connection(
                "srv".into(),
                ConnectionState::Connected,
            ));
            app.restore_input(input.into());
            let (out_tx, mut out_rx) = tokio::sync::mpsc::channel(8);
            let (ctrl_tx, mut ctrl_rx) = tokio::sync::mpsc::channel(8);
            let connections = Vec::from([(
                "srv".into(),
                ConnectionHandle {
                    outgoing: out_tx,
                    control: ctrl_tx,
                },
            )]);
            let mut status = "existing status".into();
            submit_composer(
                &mut app,
                &Config {
                    servers: Default::default(),
                },
                &connections,
                &mut status,
            );
            assert_eq!(ctrl_rx.try_recv().unwrap(), expected, "{input}");
            assert!(out_rx.try_recv().is_err());
            assert!(app.messages().is_empty());

            assert_eq!(status, "existing status");
            assert_eq!(app.input(), "");
        }
    }
}

#[test]
fn rejected_commands_preserve_input_cursor_and_status() {
        for input in [
        "/nick",
        "/nick Alice",
        "/connect absent",
        "/back extra",
        "/raw QUIT",
    ] {
        let mut app = Session::default();
        app.open_server("srv");
        app.select_buffer(0);
        app.restore_input(input.into());
        app.cursor_home();
        let mut status = "unchanged".into();
        submit_composer(
            &mut app,
            &Config {
                servers: Default::default(),
            },
            &Default::default(),
            &mut status,
        );
        assert_eq!(app.input(), input);
        assert_eq!(app.input_cursor(), 0);
        assert!(app.messages().is_empty());
        assert_eq!(status, "unchanged");
    }
}

#[test]
fn explicit_server_can_connect_without_active_view_and_does_not_touch_other_servers() {
        let mut app = Session::default();
    let (out_a, _rx_a) = tokio::sync::mpsc::channel(8);
    let (ctrl_a, mut controls_a) = tokio::sync::mpsc::channel(8);
    let (out_b, _rx_b) = tokio::sync::mpsc::channel(8);
    let (ctrl_b, mut controls_b) = tokio::sync::mpsc::channel(8);
    let connections = Vec::from([
        (
            "alpha".into(),
            ConnectionHandle {
                outgoing: out_a,
                control: ctrl_a,
            },
        ),
        (
            "beta".into(),
            ConnectionHandle {
                outgoing: out_b,
                control: ctrl_b,
            },
        ),
    ]);
    app.restore_input("/connect BETA".into());
    submit_composer(
        &mut app,
        &Config {
            servers: Default::default(),
        },
        &connections,
        &mut String::new(),
    );
    assert_eq!(controls_b.try_recv().unwrap(), ConnectionCommand::Connect);
    assert!(controls_a.try_recv().is_err());
    app.apply_connection_event(&IrcEvent::Connection(
        "beta".into(),
        ConnectionState::Connecting,
    ));
    assert_eq!(
        app.connection_state("beta", None),
        ConnectionState::Connecting
    );
    assert_eq!(
        app.connection_state("alpha", None),
        ConnectionState::Stopped
    );
}

#[test]
fn connecting_or_stopped_connections_do_not_queue_ordinary_input() {
        for state in [ConnectionState::Connecting, ConnectionState::Stopped] {
        let mut app = Session::default();
        app.open_server("srv");
        app.select_buffer(0);
        app.apply_connection_event(&IrcEvent::Connection("srv".into(), state));
        app.restore_input("WHOIS nick".into());
        let (tx, mut rx) = tokio::sync::mpsc::channel(8);
        let connections = Vec::from([(
            "srv".into(),
            ConnectionHandle {
                outgoing: tx,
                control: tokio::sync::mpsc::channel(8).0,
            },
        )]);
        submit_composer(
            &mut app,
            &Config {
                servers: Default::default(),
            },
            &connections,
            &mut String::new(),
        );
        assert!(rx.try_recv().is_err());
        assert!(app.messages().is_empty());
        assert_eq!(app.input(), "WHOIS nick");
    }
}

#[test]
fn stale_events_cannot_reopen_sending_after_disconnect_or_reconnect() {
        for (input, expected) in [
        ("/disconnect", ConnectionState::Stopped),
        ("/reconnect", ConnectionState::Connecting),
    ] {
        let mut app = Session::default();
        app.open_channel("srv", "#a");
        app.select_buffer(0);
        app.apply_connection_event(&IrcEvent::Connection(
            "srv".into(),
            ConnectionState::Connected,
        ));
        app.apply_connection_event(&IrcEvent::Channel(
            "srv".into(),
            "#a".into(),
            ChannelStatus {
                state: ChannelState::Joined,
                desired: true,
            },
        ));
        let (outgoing, mut messages) = tokio::sync::mpsc::channel(8);
        let (control, _commands) = tokio::sync::mpsc::channel(8);
        let connections = Vec::from([(
            "srv".into(),
            ConnectionHandle { outgoing, control },
        )]);
        let config = Config {
            servers: Default::default(),
        };
        app.restore_input(input.into());
        submit_composer(&mut app, &config, &connections, &mut String::new());
        // These were already queued before the worker saw our command.
        app.apply_connection_event(&IrcEvent::Connection(
            "srv".into(),
            ConnectionState::Connected,
        ));
        app.apply_connection_event(&IrcEvent::Channel(
            "srv".into(),
            "#a".into(),
            ChannelStatus {
                state: ChannelState::Joined,
                desired: true,
            },
        ));
        assert_eq!(app.connection_state("srv", None), expected);
        assert_eq!(app.connection_state("srv", Some("#a")), expected);
        app.restore_input("must not send".into());
        submit_composer(&mut app, &config, &connections, &mut String::new());
        assert!(messages.try_recv().is_err());
        assert!(app.messages().is_empty());
        // The worker barrier releases fresh events from the new session.
        app.apply_connection_event(&IrcEvent::ControlApplied("srv".into()));
        app.apply_connection_event(&IrcEvent::Connection(
            "srv".into(),
            ConnectionState::Connected,
        ));
        app.apply_connection_event(&IrcEvent::Channel(
            "srv".into(),
            "#a".into(),
            ChannelStatus {
                state: ChannelState::Joined,
                desired: true,
            },
        ));
        assert_eq!(
            app.connection_state("srv", None),
            ConnectionState::Connected
        );
        assert_eq!(
            app.connection_state("srv", Some("#a")),
            ConnectionState::Connected
        );
    }
}

#[test]
fn ordinary_submissions_send_echo_and_restore_on_failure() {
    for console in [false, true] {
        for connected in [false, true] {
            let input = if console { "WHOIS nick" } else { "hello /join" };
            let mut app = Session::default();
            if console {
                app.open_server("srv");
            } else {
                app.open_channel("srv", "#a");
            }
            app.select_buffer(0);
            if connected {
                app.apply_connection_event(&IrcEvent::Connection(
                    "srv".into(),
                    ConnectionState::Connected,
                ));
                app.apply_connection_event(&IrcEvent::Channel(
                    "srv".into(),
                    "#a".into(),
                    ChannelStatus {
                        state: ChannelState::Joined,
                        desired: true,
                    },
                ));
                app.apply_connection_event(&IrcEvent::Nickname(
                    "srv".into(),
                    "confirmed_nick".into(),
                ));
            }
            for c in input.chars() {
                app.type_char(c);
            }
            let config = Config {
                servers: Default::default(),
            };
            let (tx, mut rx) = tokio::sync::mpsc::channel(8);
            let mut outgoing = Vec::new();
            if connected {
                outgoing.push((
                    "srv".to_string(),
                    ConnectionHandle {
                        outgoing: tx,
                        control: tokio::sync::mpsc::channel(8).0,
                    },
                ));
            }
            let mut status = String::new();
            submit_composer(&mut app, &config, &outgoing, &mut status);
            if connected {
                let expected = if console {
                    OutgoingMessage::Raw {
                        server: "srv".into(),
                        line: input.into(),
                    }
                } else {
                    OutgoingMessage::Privmsg {
                        server: "srv".into(),
                        target: "#a".into(),
                        text: input.into(),
                    }
                };
                assert_eq!(rx.try_recv().unwrap(), expected);
                assert_eq!(app.messages().len(), 1);
                assert_eq!(app.messages()[0].text, input);
                assert_eq!(app.messages()[0].nick, "confirmed_nick");
                assert_eq!(app.input(), "");
            } else {
                assert!(app.messages().is_empty());
                assert_eq!(app.input(), input);
                assert!(status.contains("failed to send"));
            }
        }
    }
}

#[test]
fn ordinary_send_rejects_oversized_bytes_without_changing_the_draft() {
    for console in [false, true] {
        let (mut session, connections, mut messages, _commands) = connected_session(console, 1);
        let input = if console {
            format!("PRIVMSG #a :{}", "中".repeat(170))
        } else {
            format!("  {}  ", "中".repeat(170))
        };
        session.restore_input_at(input.clone(), 4);
        let mut status = String::new();
        submit_composer(&mut session, &empty_config(), &connections, &mut status);
        assert!(messages.try_recv().is_err());
        assert_eq!(session.input(), input);
        assert_eq!(session.input_cursor(), 4);
        assert!(session.messages().is_empty());
        assert!(status.contains("512"));
    }
}

#[test]
fn failed_queue_preserves_leading_spaces_and_exact_cursor() {
    let (mut session, connections, _messages, _commands) = connected_session(false, 1);
    connections[0]
            .1
        .outgoing
        .try_send(OutgoingMessage::Raw {
            server: "srv".into(),
            line: "PING :occupied".into(),
        })
        .unwrap();
    session.restore_input_at("  original 世界  ".into(), 3);
    let mut status = String::new();
    submit_composer(&mut session, &empty_config(), &connections, &mut status);
    assert_eq!(session.input(), "  original 世界  ");
    assert_eq!(session.input_cursor(), 3);
    assert!(session.messages().is_empty());
    assert!(status.contains("failed to send"));
}

#[test]
fn raw_input_preserves_suffix_spaces_and_case_insensitive_queue_lookup() {
    let (mut session, connections, mut messages, _commands) = connected_session(true, 1);
    session.restore_input("  PRIVMSG #a :hello  world  ".into());
    submit_composer(
        &mut session,
        &empty_config(),
        &connections,
        &mut String::new(),
    );
    assert_eq!(
        messages.try_recv().unwrap(),
        OutgoingMessage::Raw {
            server: "SRV".into(),
            line: "PRIVMSG #a :hello  world  ".into()
        }
    );
    assert_eq!(session.input(), "");
    assert_eq!(session.input_cursor(), 0);
    assert_eq!(session.messages()[0].text, "PRIVMSG #a :hello  world  ");
    assert_eq!(session.messages()[0].direction, Direction::Outgoing);
    assert_eq!(session.messages()[0].delivery, DeliveryState::Unconfirmed);
}

#[test]
fn preparation_never_consumes_draft() {
    let mut session = Session::default();
    session.open_channel("srv", "#a");
    session.select_buffer(0);
    for input in ["chat", "/connect", "/", "   "] {
        session.restore_input_at(input.into(), 1);
        let _ = session.prepare_input();
        assert_eq!(session.input(), input);
        assert_eq!(session.input_cursor(), 1);
    }
}

#[test]
fn blank_submission_clears_only_active_valid_whitespace() {
    let (mut session, connections, mut messages, _commands) = connected_session(false, 1);
    session.restore_input_at("   ".into(), 1);
    submit_composer(
        &mut session,
        &empty_config(),
        &connections,
        &mut String::new(),
    );
    assert_eq!(session.input(), "");
    assert_eq!(session.input_cursor(), 0);
    assert!(messages.try_recv().is_err());

    for invalid in ["\r", "\n", "\0"] {
        session.restore_input_at(invalid.into(), 1);
        submit_composer(
            &mut session,
            &empty_config(),
            &connections,
            &mut String::new(),
        );
        assert_eq!(session.input(), invalid);
        assert_eq!(session.input_cursor(), 1);
    }
    let mut welcome = Session::default();
    welcome.restore_input_at("   ".into(), 1);
    submit_composer(
        &mut welcome,
        &empty_config(),
        &connections,
        &mut String::new(),
    );
    assert_eq!(welcome.input(), "   ");
    assert_eq!(welcome.input_cursor(), 1);
}

#[test]
fn oversized_controls_and_trailing_crlf_do_not_enter_either_queue() {
    for input in [
        format!("/away {}", "中".repeat(170)),
        format!("/disconnect {}", "x".repeat(510)),
        "/away secret\r\n".into(),
        "/quit\0".into(),
    ] {
        let (mut session, connections, mut messages, mut commands) =
            connected_session(false, 1);
        session.restore_input_at(input.clone(), 2);
        let mut status = "unchanged".into();
        submit_composer(&mut session, &empty_config(), &connections, &mut status);
        assert!(commands.try_recv().is_err(), "control must be rejected");
        assert!(messages.try_recv().is_err());
        assert_eq!(session.input(), input);
        assert_eq!(session.input_cursor(), 2);
        assert_eq!(status, "unchanged");
        assert!(session.messages().is_empty());
        assert_eq!(
            session.connection_state("srv", None),
            ConnectionState::Connected
        );
    }
}

#[test]
fn invalid_ordinary_control_characters_are_not_trimmed_away() {
    for input in ["hello\n", "hello\r", "hello\0"] {
        let (mut session, connections, mut messages, _commands) = connected_session(false, 1);
        session.restore_input_at(input.into(), 2);
        let mut status = String::new();
        submit_composer(&mut session, &empty_config(), &connections, &mut status);
        assert!(messages.try_recv().is_err());
        assert_eq!(session.input(), input);
        assert_eq!(session.input_cursor(), 2);
        assert!(status.contains("failed to send"));
    }
}

#[test]
fn draft_ownership_tracks_typed_buffer_identity_and_welcome_page() {
    let mut session = Session::default();
    session.restore_input_at("/connect srv".into(), 3);
    let channel = session.open_channel("srv", "#a");
    let console = session.open_server("SRV");
    let query = session.open_buffer("srv", BufferKind::Query("#a".into()));
    assert_ne!(channel, console);
    assert_ne!(channel, query);
    assert_eq!(session.open_channel("SRV", "#A"), channel);
    assert_eq!(session.input(), "/connect srv");
    session.select_buffer(0);
    assert_eq!(session.input(), "");
    session.restore_input_at("channel draft".into(), 4);
    session.select_buffer(1);
    session.restore_input_at("server draft".into(), 2);
    session.select_buffer(0);
    assert_eq!(session.input(), "channel draft");
    assert_eq!(session.input_cursor(), 4);
    session.select_buffer(1);
    assert_eq!(session.input(), "server draft");
    assert_eq!(session.input_cursor(), 2);
}

#[test]
fn routed_errors_display_once_and_fall_back_to_server_console() {
    let mut session = Session::default();
    let channel = session.open_channel("srv", "#a");
    let console = session.open_server("srv");
    let other = session.open_channel("other", "#a");
    for (target, code, reason) in [("#a", 475, "bad key"), ("#missing", 404, "cannot send")] {
        session.push_message(RoutedMessage {
            server: ServerId::new("SRV"),
            target: BufferKind::Channel(target.into()),
            content: MessageContent {
                kind: MessageKind::Error {
                    code,
                    target: Some(target.into()),
                    reason: reason.into(),
                },
                ..MessageContent::console(&format!("{code} {target}: {reason}"))
            },
        });
    }
    assert_eq!(session.messages_for(channel).len(), 1);
    assert_eq!(session.messages_for(channel)[0].text, "475 #a: bad key");
    assert_eq!(session.messages_for(console).len(), 1);
    assert_eq!(
        session.messages_for(console)[0].text,
        "404 #missing: cannot send"
    );
    assert!(session.messages_for(other).is_empty());
    assert!(session.messages_for(channel)[0].nick.is_empty());
}

#[test]
fn multiple_pending_connection_changes_require_all_worker_barriers() {
    let mut session = Session::default();
    session.open_channel("SRV", "#a");
    session.apply_connection_event(&IrcEvent::Channel(
        "srv".into(),
        "#a".into(),
        ChannelStatus {
            state: ChannelState::Joined,
            desired: true,
        },
    ));
    session.begin_connection_change("srv", ConnectionState::Stopped);
    session.begin_connection_change("SRV", ConnectionState::Connecting);
    session.apply_connection_event(&IrcEvent::ControlApplied("srv".into()));
    session.apply_connection_event(&IrcEvent::Connection(
        "SRV".into(),
        ConnectionState::Connected,
    ));
    session.apply_connection_event(&IrcEvent::Channel(
        "srv".into(),
        "#A".into(),
        ChannelStatus {
            state: ChannelState::Joined,
            desired: true,
        },
    ));
    assert_eq!(
        session.connection_state("srv", None),
        ConnectionState::Connecting
    );
    assert_eq!(
        session.connection_state("SRV", Some("#a")),
        ConnectionState::Connecting
    );
    session.apply_connection_event(&IrcEvent::ControlApplied("SRV".into()));
    session.apply_connection_event(&IrcEvent::Connection(
        "srv".into(),
        ConnectionState::Connected,
    ));
    session.apply_connection_event(&IrcEvent::Channel(
        "SRV".into(),
        "#a".into(),
        ChannelStatus {
            state: ChannelState::Joined,
            desired: true,
        },
    ));
    assert_eq!(
        session.connection_state("SRV", None),
        ConnectionState::Connected
    );
    assert_eq!(
        session.connection_state("srv", Some("#A")),
        ConnectionState::Connected
    );
}

#[test]
fn full_control_queue_keeps_draft_and_does_not_begin_connection_change() {
    let (mut session, connections, _messages, mut commands) = connected_session(false, 1);
    connections[0]
            .1
        .control
        .try_send(ConnectionCommand::Back)
        .unwrap();
    session.restore_input_at(" /disconnect bye  ".into(), 5);
    let mut status = "unchanged".into();
    submit_composer(&mut session, &empty_config(), &connections, &mut status);
    assert_eq!(session.input(), " /disconnect bye  ");
    assert_eq!(session.input_cursor(), 5);
    assert_eq!(status, "unchanged");
    assert_eq!(
        session.connection_state("srv", None),
        ConnectionState::Connected
    );
    assert_eq!(commands.try_recv().unwrap(), ConnectionCommand::Back);
    assert!(commands.try_recv().is_err());
    session.apply_connection_event(&IrcEvent::Connection(
        "srv".into(),
        ConnectionState::Stopped,
    ));
    assert_eq!(
        session.connection_state("srv", None),
        ConnectionState::Stopped
    );
}

#[test]
fn session_routes_worker_messages_and_limits_each_server_history_independently() {
    let mut session = Session::new(2);
    let first = session.open_channel("First", "#shared");
    let second = session.open_channel("Second", "#shared");
    session.select_buffer(0);
    session.handle_event(IrcEvent::Message(RoutedMessage::chat(
        "FIRST", "#SHARED", "alice", "one",
    )));
    let oldest = session.messages()[0].id;
    session.handle_event(IrcEvent::Message(RoutedMessage::chat(
        "second",
        "#shared",
        "bob",
        "other server",
    )));
    session.handle_event(IrcEvent::Message(RoutedMessage::chat(
        "first", "#shared", "alice", "two",
    )));
    let change = session
        .push_message(RoutedMessage::chat("first", "#shared", "alice", "three"))
        .unwrap();
    assert_eq!(change.evicted, vec![oldest]);
    assert_eq!(
        session
            .messages_for(first)
            .iter()
            .map(|message| message.text.as_str())
            .collect::<Vec<_>>(),
        ["two", "three"]
    );
    assert_eq!(session.messages_for(second)[0].text, "other server");
    assert_eq!(session.active_buffer().unwrap().server_label, "First");
    assert_eq!(session.active(), Some(first));
}

#[test]
fn rejected_slash_submissions_only_produce_redacted_debug_feedback() {
    for console in [false, true] {
        for input in [
            "/join #new",
            "/quit",
            "/raw JOIN #new",
            "/unknown a b",
            "/MSG alice hello  世界",
            "  /nick newname  ",
            "//hello",
            "/private-command-name sensitive-payload-260909",
            "/",
            "/   ",
            "/ join",
        ] {
            for recorded in [false, true] {
                let mut app = Session::default();
                if console {
                    app.open_server("srv");
                } else {
                    app.open_channel("srv", "#a");
                }
                app.select_buffer(0);
                for c in input.chars() {
                    app.type_char(c);
                }
                let old_cursor = app.input_cursor();
                let config = empty_config();
                let (tx, mut rx) = tokio::sync::mpsc::channel(8);
                let outgoing: Connections = vec![(
                    "srv".to_string(),
                    ConnectionHandle {
                        outgoing: tx,
                        control: tokio::sync::mpsc::channel(8).0,
                    },
                )];
                let mut status = "previous connection status".to_string();

                if recorded {
                    let submitted = submit(&mut app, &config, &outgoing, &mut status);
                    assert_eq!(submitted.effect, SubmissionEffect::Nothing);
                    let logs = format!("{:?}", submitted.feedback);
                    if matches!(input, "/" | "/   " | "/ join") {
                        assert_eq!(
                            submitted.feedback,
                            Some(Feedback::Unparsed(Refusal::MissingName))
                        );
                    } else {
                        assert!(matches!(submitted.feedback, Some(Feedback::Rejected(_))));
                        assert!(!logs.contains(input.trim()));
                    }
                    assert!(!logs.contains("private-command-name"));
                    assert!(!logs.contains("sensitive-payload-260909"));
                } else {
                    submit_composer(&mut app, &config, &outgoing, &mut status);
                }

                assert!(
                    matches!(
                        rx.try_recv(),
                        Err(tokio::sync::mpsc::error::TryRecvError::Empty)
                    ),
                    "queued {input:?}, console={console}"
                );
                assert!(app.messages().is_empty());
                assert_eq!(app.buffer_count(), 1);
                assert_eq!(status, "previous connection status");
                assert_eq!(app.input(), input);
                assert_eq!(app.input_cursor(), old_cursor);
            }
        }
    }
}
