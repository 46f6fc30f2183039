use std::collections::VecDeque;
use std::time::SystemTime;

use irc::proto::{Command, Message};
use termirc::application::submit_composer;
use termirc::config::{Config, ServerConfig};
use termirc::connection::worker::{End, Reaction, Step, Worker};
use termirc::connection::{ConnectionHandle, ConnectionState, IrcEvent, RetryPolicy};
use termirc::model::{
    BufferKind, ChannelState, ChannelStatus, ConnectionCommand, Direction, MessageKind,
    OutgoingMessage, RoutedMessage,
};
use termirc::protocol::{ClientCommand, WireCommand, WireMessage};
use termirc::tui::App;
use tokio::sync::mpsc::{channel, Receiver};

/// A line as it is read off the wire.
fn wire(line: &str) -> WireMessage {
    let message: Message = line.parse().unwrap();
    let tags = match &message.tags {
        Some(tags) => tags
            .iter()
            .map(|tag| (tag.0.clone(), tag.1.clone()))
            .collect(),
        None => Vec::new(),
    };
    let command = match &message.command {
        Command::PRIVMSG(target, text) => WireCommand::Privmsg {
            target: target.clone(),
            text: text.clone(),
        },
        Command::NOTICE(target, text) => WireCommand::Notice {
            target: target.clone(),
            text: text.clone(),
        },
        Command::NICK(nick) => WireCommand::Nick(nick.clone()),
        Command::JOIN(channel, _, _) => WireCommand::Join(channel.clone()),
        Command::PART(channel, _) => WireCommand::Part(channel.clone()),
        Command::KICK(channel, nick, reason) => WireCommand::Kick {
            channel: channel.clone(),
            nick: nick.clone(),
            reason: reason.clone(),
        },
        Command::ERROR(_) => WireCommand::Error,
        Command::Response(code, arguments) => {
            WireCommand::Response(*code as u16, arguments.clone())
        }
        Command::Raw(command, arguments) => {
            WireCommand::Raw(command.clone(), arguments.clone())
        }
        _ => WireCommand::Other,
    };
    WireMessage {
        tags,
        source: message.source_nickname().map(str::to_string),
        command,
        line: message.to_string(),
    }
}

/// A command as it is put on the wire.
fn sent(command: ClientCommand) -> String {
    let command = match command {
        ClientCommand::Privmsg { target, text } => Command::PRIVMSG(target, text),
        ClientCommand::Nick(nick) => Command::NICK(nick),
        ClientCommand::Quit(reason) => Command::QUIT(Some(reason)),
        ClientCommand::Away(reason) => Command::AWAY(reason),
        ClientCommand::Join(channel) => Command::JOIN(channel, None, None),
        ClientCommand::Part { channel, reason } => Command::PART(channel, reason),
    };
    Message::from(command).to_string().trim_end().to_string()
}

fn server_config(nickname: &str, channels: &[&str]) -> ServerConfig {
    ServerConfig {
        username: "test".into(),
        nickname: nickname.into(),
        password: String::new(),
        server: "127.0.0.1".into(),
        use_tls: false,
        port: 6667,
        channels: channels.iter().map(|channel| (*channel).into()).collect(),
        queries: vec![],
    }
}

fn policy(max_retries: u32, delay: u64, timeout: u64) -> RetryPolicy {
    RetryPolicy {
        max_retries,
        delay,
        timeout,
    }
}

#[derive(PartialEq)]
enum Phase {
    Resting,
    Connecting,
    Open,
    Over,
}

/// A worker with its queues, on a wire and a clock that the test owns.
struct Link {
    worker: Worker,
    phase: Phase,
    now: u64,
    nickname: Option<String>,
    lines: Vec<String>,
    events: VecDeque<IrcEvent>,
    handle: ConnectionHandle,
    outgoing: Receiver<OutgoingMessage>,
    control: Receiver<ConnectionCommand>,
}

impl Link {
    fn new(server: ServerConfig, label: &str, policy: RetryPolicy) -> Link {
        let (outgoing_queue, outgoing) = channel(64);
        let (control_queue, control) = channel(16);
        let channels = server.channels.clone();
        Link {
            worker: Worker::new(server, label, &channels, policy, 0),
            phase: Phase::Resting,
            now: 0,
            nickname: None,
            lines: Vec::new(),
            events: VecDeque::new(),
            handle: ConnectionHandle {
                outgoing: outgoing_queue,
                control: control_queue,
            },
            outgoing,
            control,
        }
    }

    fn collect(&mut self) {
        self.events.extend(self.worker.take_events());
    }

    fn end(&mut self, end: End) {
        self.phase = if self.worker.finish(end, self.now) {
            Phase::Resting
        } else {
            Phase::Over
        };
        self.collect();
    }

    fn perform(&mut self, step: Step) {
        match step {
            Step::Wait => {}
            Step::Send(command) => self.lines.push(sent(command)),
            Step::SendRaw(line) => {
                let message: Message = line.parse().unwrap();
                self.lines.push(message.to_string().trim_end().to_string());
            }
            Step::Close { reason, end } => {
                self.lines.push(sent(ClientCommand::Quit(reason)));
                self.end(end);
            }
        }
    }

    fn queued(&mut self) -> Vec<OutgoingMessage> {
        let mut queued = Vec::new();
        while let Ok(message) = self.outgoing.try_recv() {
            queued.push(message);
        }
        queued
    }

    /// Take up what is queued, controls first.
    fn pump(&mut self) {
        loop {
            if let Ok(command) = self.control.try_recv() {
                match self.phase {
                    Phase::Resting => {
                        self.worker.idle_control(Some(command), self.now);
                    }
                    Phase::Connecting => {
                        if let Some(end) = self.worker.connecting_control(Some(command), self.now) {
                            self.end(end);
                        }
                    }
                    Phase::Open => {
                        let step = self.worker.session_control(Some(command), self.now);
                        self.perform(step);
                    }
                    Phase::Over => {}
                }
            } else if let Ok(message) = self.outgoing.try_recv() {
                match self.phase {
                    Phase::Open => {
                        let step = self.worker.session_outgoing(Some(message), self.now);
                        self.perform(step);
                    }
                    Phase::Over => {}
                    _ => {
                        self.worker.idle_outgoing(Some(message), self.now);
                    }
                }
            } else {
                break;
            }
        }
        self.collect();
    }

    /// Wait for the next attempt and start it.
    fn attempt(&mut self) {
        self.pump();
        assert!(self.phase == Phase::Resting);
        let due = self.worker.next_attempt().expect("worker did not connect");
        self.now = self.now.max(due);
        let queued = self.queued();
        let client = self.worker.begin(&queued, self.now);
        assert_eq!(client.channels, Vec::<String>::new());
        self.nickname = client.nickname;
        self.phase = Phase::Connecting;
        self.collect();
    }

    /// The next attempt reaches the server.
    fn accept(&mut self) {
        self.attempt();
        self.lines.clear();
        self.phase = Phase::Open;
    }

    /// The deadline of the registration passes.
    fn time_out(&mut self) {
        self.now = self.worker.registration_deadline().unwrap();
        let end = self.worker.failed(false, self.now);
        self.end(end);
    }

    /// The socket is gone.
    fn lose(&mut self) {
        self.pump();
        let end = self.worker.failed(false, self.now);
        self.end(end);
    }

    /// Lines from the server.
    fn send(&mut self, lines: &str) {
        self.pump();
        for line in lines.split_inclusive("\r\n") {
            let message = wire(line);
            let queued = if self.worker.is_welcome(&message) {
                self.queued()
            } else {
                Vec::new()
            };
            let at = SystemTime::now();
            let Reaction {
                commands,
                shown,
                end,
            } = self.worker.received(&message, &queued, self.now, at);
            self.lines.extend(commands.into_iter().map(sent));
            if shown {
                self.worker.show(&message, at);
            }
            if let Some(end) = end {
                self.end(end);
            }
        }
        self.collect();
    }

    /// What went out since the last look.
    fn wire(&mut self) -> Vec<String> {
        self.pump();
        std::mem::take(&mut self.lines)
    }

    /// The next event, waiting for deadlines where there is none yet.
    fn event(&mut self) -> IrcEvent {
        self.pump();
        while self.events.is_empty() {
            let due = self.worker.channel_deadline().expect("missing event");
            self.now = self.now.max(due);
            self.worker.expire(self.now, SystemTime::now());
            self.collect();
        }
        self.events.pop_front().unwrap()
    }

    fn receive_until(&mut self, predicate: impl Fn(&IrcEvent) -> bool) -> Vec<IrcEvent> {
        let mut received = Vec::new();
        loop {
            let event = self.event();
            let done = predicate(&event);
            received.push(event);
            if done {
                return received;
            }
        }
    }

    /// All events up to here.
    fn taken(&mut self) -> Vec<IrcEvent> {
        self.pump();
        self.events.drain(..).collect()
    }

    fn control(&self, command: ConnectionCommand) {
        self.handle.control.try_send(command).unwrap();
    }

    fn outgoing(&self, message: OutgoingMessage) {
        self.handle.outgoing.try_send(message).unwrap();
    }

    fn messages_until_done(&mut self) -> Vec<RoutedMessage> {
        self.send(":mock NOTICE * :done\r\n");
        self.receive_until(
            |event| matches!(event, IrcEvent::Message(message) if message.content.text == "done"),
        )
        .into_iter()
        .filter_map(|event| match event {
            IrcEvent::Message(message) if message.content.text != "done" => Some(message),
            _ => None,
        })
        .filter(|message| message.content.text != "Welcome")
        .collect()
    }
}

/// A registered link whose server gave us the name `assigned`.
fn assigned(channels: &[&str]) -> (Link, Vec<IrcEvent>) {
    let mut link = Link::new(
        server_config("requested", channels),
        "srv",
        policy(0, 30, 3_000),
    );
    link.accept();
    link.send(":mock 001 assigned :Welcome\r\n");
    let events = link.receive_until(|event| {
        *event == IrcEvent::Connection("srv".into(), ConnectionState::Connected)
    });
    assert!(events.contains(&IrcEvent::Nickname("srv".into(), "assigned".into())));
    (link, events)
}

/// A view, and the link that its submissions go to.
struct MockSession {
    link: Link,
    app: App,
    config: Config,
    status: String,
    observed: Vec<IrcEvent>,
}

impl MockSession {
    fn start(channels: &[&str]) -> Self {
        Self::with_timeout(channels, 5_000)
    }

    fn with_timeout(channels: &[&str], timeout: u64) -> Self {
        let server = server_config("test", channels);
        let config = Config {
            servers: [("srv".to_string(), server.clone())].into_iter().collect(),
        };
        let mut app = App::new(40, 5);
        app.session.register_config(&config);
        let console = app.session.open_server("srv");
        app.activate_buffer(console);
        let mut session = Self {
            link: Link::new(server, "srv", policy(0, 30, timeout)),
            app,
            config,
            status: String::new(),
            observed: Vec::new(),
        };
        session.accept();
        session.register();
        session
    }

    fn accept(&mut self) {
        self.link.accept();
    }

    fn register(&mut self) {
        self.send(":mock 001 test :Welcome\r\n:mock 376 test :End of MOTD\r\n");
        self.receive_until(|event| {
            *event == IrcEvent::Connection("srv".into(), ConnectionState::Connected)
        });
        self.sync_events();
    }

    fn send(&mut self, lines: &str) {
        self.link.send(lines);
    }

    fn control(&self, command: ConnectionCommand) {
        self.link.control(command);
    }

    fn outgoing(&self, message: OutgoingMessage) {
        self.link.outgoing(message);
    }

    fn wire(&mut self) -> Vec<String> {
        self.link.wire()
    }

    fn receive_until(&mut self, predicate: impl Fn(&IrcEvent) -> bool) -> Vec<IrcEvent> {
        let received = self.link.receive_until(predicate);
        for event in &received {
            self.app.session.handle_event(event.clone());
            self.observed.push(event.clone());
        }
        received
    }

    fn sync_events(&mut self) -> Vec<IrcEvent> {
        self.send(":mock NOTICE * :event-barrier\r\n");
        self.receive_until(
            |event| matches!(event, IrcEvent::Message(message) if message.content.text == "event-barrier"),
        )
    }

    fn wait_channel(&mut self, channel: &str, state: ChannelState, desired: bool) -> Vec<IrcEvent> {
        self.receive_until(|event| channel_event(event, channel, state, desired))
    }

    fn assert_channel(&self, channel: &str, state: ChannelState, desired: bool) {
        assert_eq!(
            self.app.session.channel_status("srv", channel),
            ChannelStatus { state, desired },
            "channel {channel}; observed {:?}",
            self.observed
        );
    }

    fn submit(&mut self, input: &str) {
        self.app.session.restore_input(input.into());
        let connections = vec![(
            "srv".to_string(),
            ConnectionHandle {
                control: self.link.handle.control.clone(),
                outgoing: self.link.handle.outgoing.clone(),
            },
        )];
        let effect = submit_composer(
            &mut self.app.session,
            &self.config,
            &connections,
            &mut self.status,
        );
        self.app.apply_submission_effect(effect);
    }

    fn confirm_join(&mut self, channel: &str) {
        self.send(&format!(":test!u@h JOIN {channel}\r\n"));
        self.wait_channel(channel, ChannelState::Joined, true);
    }

    fn reconnect(&mut self) {
        self.control(ConnectionCommand::Reconnect);
        assert_eq!(self.wire(), ["QUIT Reconnecting"]);
        self.accept();
        self.register();
    }
}

fn channel_event(event: &IrcEvent, channel: &str, state: ChannelState, desired: bool) -> bool {
    matches!(event, IrcEvent::Channel(server, name, status)
        if server == "srv" && name.eq_ignore_ascii_case(channel)
            && *status == ChannelStatus { state, desired })
}

#[test]
fn configured_channels_seed_intent_but_opening_a_buffer_does_not_join() {
    let mut session = MockSession::start(&["#seed"]);
    assert_eq!(session.wire(), ["JOIN #seed"]);
    session.assert_channel("#SEED", ChannelState::Joining, true);
    session.app.session.open_channel("srv", "#view-only");
    session.assert_channel("#view-only", ChannelState::NotJoined, false);
    assert!(session.wire().is_empty());
    assert_eq!(session.config.servers["srv"].channels, ["#seed"]);
}

#[test]
fn slash_join_waits_for_own_confirmation_before_chat_and_part_keeps_buffer() {
    let mut session = MockSession::start(&[]);
    session.submit("/join #Live");
    assert_eq!(session.wire(), ["JOIN #Live"]);
    session.sync_events();
    session.assert_channel("#live", ChannelState::Joining, true);
    assert!(session.observed.contains(&IrcEvent::ChannelControlApplied(
        "srv".into(),
        "#Live".into()
    )));
    let channel = session.app.active_buffer().unwrap().id;
    assert_eq!(
        session.app.active_buffer().unwrap().kind,
        BufferKind::Channel("#Live".into())
    );
    session.submit("not ready");
    assert_eq!(session.app.input(), "not ready");
    assert!(session.app.messages_for(channel).is_empty());
    assert!(session.wire().is_empty());
    session.send(":someone!u@h JOIN #Live\r\n");
    session.sync_events();
    session.assert_channel("#live", ChannelState::Joining, true);
    session.confirm_join("#LIVE");
    session.submit("hello channel");
    assert_eq!(session.wire(), ["PRIVMSG #Live :hello channel"]);
    assert_eq!(session.app.messages_for(channel).len(), 1);
    session.submit("/part #Live leaving for lunch");
    assert_eq!(session.wire(), ["PART #Live :leaving for lunch"]);
    session.sync_events();
    session.assert_channel("#live", ChannelState::Parting, false);
    session.submit("keep this draft");
    assert_eq!(session.app.input(), "keep this draft");
    assert!(session.wire().is_empty());
    session.send(":test!u@h PART #live :leaving for lunch\r\n");
    session.wait_channel("#live", ChannelState::NotJoined, false);
    assert_eq!(session.app.active_buffer().unwrap().id, channel);
    assert!(!session.app.buffer(channel).unwrap().hidden);
    assert_eq!(session.app.input(), "keep this draft");
    assert_eq!(session.app.messages_for(channel).len(), 1);
    assert!(session.config.servers["srv"].channels.is_empty());
}

#[test]
fn own_unsolicited_join_creates_buffer_before_first_message_without_stealing_focus() {
    let mut session = MockSession::start(&[]);
    let console = session.app.active_buffer().unwrap().id;
    session.app.session.restore_input("console draft".into());
    session.send(":other!u@h JOIN #unknown\r\n:other!u@h PRIVMSG #unknown :drop this\r\n:TEST!u@h JOIN #discovered\r\n:Alice!u@h PRIVMSG #DISCOVERED :first message\r\n:Alice!u@h PRIVMSG TEST :private message\r\n:Alice!u@h PRIVMSG stranger :not for us\r\n");
    let events = session.sync_events();
    let joined = events
        .iter()
        .position(|event| channel_event(event, "#discovered", ChannelState::Joined, true))
        .unwrap();
    let first_message = events.iter().position(|event| matches!(event, IrcEvent::Message(message) if message.content.text == "first message")).unwrap();
    assert!(joined < first_message, "{events:?}");
    assert!(!events.iter().any(|event| matches!(event, IrcEvent::Message(message) if matches!(message.content.text.as_str(), "drop this" | "not for us"))));
    assert_eq!(session.app.buffer_count(), 3);
    let dynamic = session.app.session.open_channel("srv", "#discovered");
    assert_eq!(session.app.messages_for(dynamic).len(), 1);
    assert_eq!(session.app.messages_for(dynamic)[0].text, "first message");
    assert!(events.iter().any(|event| matches!(event, IrcEvent::Message(message) if message.target == BufferKind::Query("Alice".into()) && message.content.text == "private message")));
    assert_eq!(session.app.active_buffer().unwrap().id, console);
    assert_eq!(session.app.input(), "console draft");
    assert!(session.wire().is_empty());
}

#[test]
fn join_failures_keep_intent_and_route_once_only_for_known_channels() {
    let mut session = MockSession::start(&["#seed"]);
    assert_eq!(session.wire(), ["JOIN #seed"]);
    session.send(":mock 473 test #seed :Invite only\r\n");
    session.wait_channel("#seed", ChannelState::NotJoined, true);
    let codes = [403, 405, 407, 437, 471, 473, 474, 475, 476, 477, 489];
    for code in codes {
        session.control(ConnectionCommand::Join("#runtime".into()));
        assert_eq!(session.wire(), ["JOIN #runtime"]);
        session.sync_events();
        session.send(&format!(
            ":mock {code} test #RUNTIME :Join denied\r\n:mock {code} test #unknown :Unknown channel\r\n"
        ));
        let events = session.sync_events();
        assert_eq!(
            events
                .iter()
                .filter(|event| channel_event(event, "#runtime", ChannelState::NotJoined, true))
                .count(),
            1,
            "code {code}: {events:?}"
        );
        assert!(!events.iter().any(|event| matches!(event, IrcEvent::Channel(_, channel, _) if channel.eq_ignore_ascii_case("#unknown"))), "code {code}: {events:?}");
        let errors: Vec<_> = events
            .iter()
            .filter_map(|event| match event {
                IrcEvent::Message(message)
                    if matches!(message.content.kind, MessageKind::Error { .. }) =>
                {
                    Some(message)
                }
                _ => None,
            })
            .collect();
        assert_eq!(errors.len(), 2, "code {code}: {events:?}");
        assert!(
            errors[0]
                .target
                .matches(&BufferKind::Channel("#runtime".into()))
        );
        assert_eq!(errors[1].target, BufferKind::Server);
        assert!(
            matches!(&errors[0].content.kind, MessageKind::Error { code: actual, target: Some(target), reason }
            if *actual == code && target == "#RUNTIME" && reason == "Join denied")
        );
        session.assert_channel("#runtime", ChannelState::NotJoined, true);
        assert!(
            session.wire().is_empty(),
            "JOIN failure must not auto-retry"
        );
    }
    let channel = session.app.session.open_channel("srv", "#runtime");
    assert_eq!(session.app.messages_for(channel).len(), codes.len());
    assert_eq!(session.app.buffer_count(), 3);
}

#[test]
fn cannot_send_error_does_not_clear_membership_and_not_on_channel_completes_part() {
    let mut session = MockSession::start(&["#seed"]);
    assert_eq!(session.wire(), ["JOIN #seed"]);
    session.confirm_join("#seed");
    session.send(":mock 404 test #seed :Cannot send to channel\r\n");
    session.sync_events();
    session.assert_channel("#seed", ChannelState::Joined, true);
    session.control(ConnectionCommand::Part {
        channel: "#seed".into(),
        reason: None,
    });
    assert_eq!(session.wire(), ["PART #seed"]);
    session.send(":mock 442 test #seed :Not on channel\r\n");
    session.wait_channel("#seed", ChannelState::NotJoined, false);
    session.reconnect();
    assert!(session.wire().is_empty());
}

#[test]
fn join_deadlines_are_independent_and_late_confirmation_resolves_uncertainty() {
    let mut session = MockSession::with_timeout(&[], 900);
    session.control(ConnectionCommand::Join("#first".into()));
    assert_eq!(session.wire(), ["JOIN #first"]);
    session.wait_channel("#first", ChannelState::Joining, true);
    session.link.now += 450;
    session.control(ConnectionCommand::Join("#second".into()));
    assert_eq!(session.wire(), ["JOIN #second"]);
    session.wait_channel("#second", ChannelState::Joining, true);
    let events = session.wait_channel("#first", ChannelState::Uncertain, true);
    assert!(!events.iter().any(|event| channel_event(
        event,
        "#second",
        ChannelState::Uncertain,
        true
    )));
    session.assert_channel("#second", ChannelState::Joining, true);
    let first = session.app.session.open_channel("srv", "#first");
    session.app.activate_buffer(first);
    session.submit("no uncertain chat");
    assert_eq!(session.app.input(), "no uncertain chat");
    assert!(session.wire().is_empty());
    session.confirm_join("#first");
    session.assert_channel("#first", ChannelState::Joined, true);
    session.wait_channel("#second", ChannelState::Uncertain, true);
    session.assert_channel("#first", ChannelState::Joined, true);
    assert!(
        session.wire().is_empty(),
        "timeouts must not automatically repeat JOIN"
    );
}

#[test]
fn part_deadlines_are_independent_and_timeout_keeps_exit_intent() {
    let mut session = MockSession::with_timeout(&["#first", "#second"], 900);
    assert_eq!(session.wire(), ["JOIN #first", "JOIN #second"]);
    session.confirm_join("#first");
    session.confirm_join("#second");
    session.control(ConnectionCommand::Part {
        channel: "#first".into(),
        reason: None,
    });
    assert_eq!(session.wire(), ["PART #first"]);
    session.wait_channel("#first", ChannelState::Parting, false);
    session.link.now += 450;
    session.control(ConnectionCommand::Part {
        channel: "#second".into(),
        reason: None,
    });
    assert_eq!(session.wire(), ["PART #second"]);
    session.wait_channel("#second", ChannelState::Parting, false);
    session.wait_channel("#first", ChannelState::Uncertain, false);
    session.assert_channel("#second", ChannelState::Parting, false);
    session.send(":test!u@h PART #first\r\n");
    session.wait_channel("#first", ChannelState::NotJoined, false);
    session.wait_channel("#second", ChannelState::Uncertain, false);
    assert!(
        session.wire().is_empty(),
        "timeouts must not automatically repeat PART"
    );
    session.reconnect();
    assert!(
        session.wire().is_empty(),
        "part timeout must not restore configured intent"
    );
}

#[test]
fn kick_keeps_intent_without_autoretry_but_unsolicited_own_part_clears_it() {
    let mut session =
        MockSession::with_timeout(&["#kicked", "#parted"], 250);
    assert_eq!(session.wire(), ["JOIN #kicked", "JOIN #parted"]);
    session.confirm_join("#kicked");
    session.confirm_join("#parted");
    session.send(":op!u@h KICK #kicked somebody :not us\r\n:op!u@h KICK #unknown test :unknown\r\n");
    session.sync_events();
    session.assert_channel("#kicked", ChannelState::Joined, true);
    session.send(":op!u@h KICK #kicked TEST :Removed\r\n:test!u@h PART #parted :Leaving\r\n");
    session.sync_events();
    session.assert_channel("#kicked", ChannelState::NotJoined, true);
    session.assert_channel("#parted", ChannelState::NotJoined, false);
    assert_eq!(session.app.buffer_count(), 3);
    session.link.now += 300;
    assert!(session.wire().is_empty());
    session.reconnect();
    assert_eq!(session.wire(), ["JOIN #kicked"]);
}

#[test]
fn late_join_after_part_is_countered_by_part_without_restoring_join_intent() {
    let mut session = MockSession::with_timeout(&[], 250);
    session.control(ConnectionCommand::Join("#late".into()));
    assert_eq!(session.wire(), ["JOIN #late"]);
    session.wait_channel("#late", ChannelState::Uncertain, true);
    session.control(ConnectionCommand::Part {
        channel: "#late".into(),
        reason: Some("changed mind".into()),
    });
    assert_eq!(session.wire(), ["PART #late :changed mind"]);
    session.send(":mock 442 test #late :Not on channel\r\n");
    session.wait_channel("#late", ChannelState::NotJoined, false);
    session.send(":test!u@h JOIN #late\r\n");
    session.sync_events();
    let lines = session.wire();
    assert_eq!(lines.len(), 1, "late JOIN must be countered: {lines:?}");
    assert!(lines[0] == "PART #late" || lines[0].starts_with("PART #late :"));
    session.assert_channel("#late", ChannelState::Parting, false);
    session.send(":test!u@h PART #late :Leaving\r\n");
    session.wait_channel("#late", ChannelState::NotJoined, false);
    session.reconnect();
    assert!(session.wire().is_empty());
}

#[test]
fn reconnect_joins_runtime_intent_once_and_excludes_parted_configuration() {
    let mut session = MockSession::start(&["#keep", "#leave"]);
    assert_eq!(session.wire(), ["JOIN #keep", "JOIN #leave"]);
    session.confirm_join("#keep");
    session.confirm_join("#leave");
    session.control(ConnectionCommand::Join("#runtime".into()));
    assert_eq!(session.wire(), ["JOIN #runtime"]);
    session.confirm_join("#runtime");
    session.control(ConnectionCommand::Part {
        channel: "#leave".into(),
        reason: None,
    });
    assert_eq!(session.wire(), ["PART #leave"]);
    session.send(":test!u@h PART #leave\r\n");
    session.wait_channel("#leave", ChannelState::NotJoined, false);
    for reconnect in [false, true] {
        if reconnect {
            session.reconnect();
            let mut lines = session.wire();
            lines.sort();
            assert_eq!(lines, ["JOIN #keep", "JOIN #runtime"]);
        }
        session.send(":mock 001 test :Duplicate welcome\r\n:mock 376 test :Duplicate end of MOTD\r\n:mock 422 test :No MOTD\r\n:mock 376 test :End again\r\n:mock 422 test :Still no MOTD\r\n");
        session.sync_events();
        assert!(
            session.wire().is_empty(),
            "registration replies must not repeat JOIN"
        );
    }
    assert_eq!(session.config.servers["srv"].channels, ["#keep", "#leave"]);
}

#[test]
fn controls_accepted_across_disconnect_preserve_intent_without_replaying_chat() {
    let mut session = MockSession::start(&["#seed"]);
    assert_eq!(session.wire(), ["JOIN #seed"]);
    session.confirm_join("#seed");
    session.control(ConnectionCommand::Disconnect("pause".into()));
    session.control(ConnectionCommand::Join("#queued".into()));
    session.control(ConnectionCommand::Part {
        channel: "#seed".into(),
        reason: None,
    });
    session.outgoing(OutgoingMessage::Privmsg {
        server: "srv".into(),
        target: "Alice".into(),
        text: "old chat must not replay".into(),
    });
    session.receive_until(|event| {
        *event == IrcEvent::Connection("srv".into(), ConnectionState::Stopped)
    });
    session.receive_until(|event| matches!(event, IrcEvent::ChannelControlApplied(server, channel) if server == "srv" && channel == "#seed"));
    assert!(session.observed.contains(&IrcEvent::ChannelControlApplied(
        "srv".into(),
        "#queued".into()
    )));
    session.control(ConnectionCommand::Connect);
    session.accept();
    session.register();
    assert_eq!(session.wire(), ["JOIN #queued"]);
    session.assert_channel("#seed", ChannelState::NotJoined, false);
    session.assert_channel("#queued", ChannelState::Joining, true);
}

#[test]
fn console_raw_join_and_part_use_managed_state_without_console_echoes() {
    let mut session = MockSession::start(&[]);
    let console = session.app.active_buffer().unwrap().id;
    let history_before = session.app.messages_for(console).len();
    session.submit("jOiN #raw");
    assert_eq!(session.wire(), ["JOIN #raw"]);
    assert_eq!(session.app.messages_for(console).len(), history_before);
    session.sync_events();
    session.assert_channel("#raw", ChannelState::Joining, true);
    session.confirm_join("#raw");
    session.app.activate_buffer(console);
    session.submit("pArT #raw :done  for now");
    assert_eq!(session.wire(), ["PART #raw :done  for now"]);
    session.sync_events();
    session.assert_channel("#raw", ChannelState::Parting, false);
    session.send(":test!u@h PART #raw :done\r\n");
    session.wait_channel("#raw", ChannelState::NotJoined, false);
    session.reconnect();
    assert!(session.wire().is_empty());
}

#[test]
fn worker_raw_join_and_part_cannot_bypass_runtime_intent() {
    let mut session = MockSession::start(&[]);
    session.outgoing(OutgoingMessage::Raw {
        server: "srv".into(),
        line: "JOIN #direct".into(),
    });
    assert_eq!(session.wire(), ["JOIN #direct"]);
    session.sync_events();
    session.assert_channel("#direct", ChannelState::Joining, true);
    session.confirm_join("#direct");
    session.outgoing(OutgoingMessage::Raw {
        server: "srv".into(),
        line: "PART #direct :done".into(),
    });
    assert_eq!(session.wire(), ["PART #direct done"]);
    session.send(":test!u@h PART #direct :done\r\n");
    session.wait_channel("#direct", ChannelState::NotJoined, false);
    session.reconnect();
    assert!(session.wire().is_empty());
}

#[test]
fn keys_multiple_targets_and_raw_prefixes_are_rejected_without_side_effects() {
    let mut session = MockSession::start(&[]);
    let console = session.app.active_buffer().unwrap().id;
    let history_before = session.app.messages_for(console).len();
    for input in [
        "/join",
        "/join #one key",
        "/join #one,#two",
        "/join 0",
        "/join peer",
        "/part #one,#two reason",
        "JOIN #one key",
        "JOIN #one,#two",
        "JOIN 0",
        "JOIN #one :key",
        "PART #one,#two :reason",
        ":test JOIN #one",
        "@tag=value JOIN #one",
        "JOIN #one\r\nJOIN #two",
    ] {
        session.submit(input);
        assert_eq!(session.app.input(), input, "accepted {input:?}");
        assert_eq!(session.app.active_buffer().unwrap().id, console);
        assert_eq!(
            session.app.buffer_count(),
            1,
            "created buffer for {input:?}"
        );
    }
    assert_eq!(session.app.messages_for(console).len(), history_before);
    assert!(session.wire().is_empty());
    for channel in ["", "0", "peer", "#one,#two", "#one key", "#one\r\nQUIT"] {
        session.control(ConnectionCommand::Join(channel.into()));
        session.control(ConnectionCommand::Part {
            channel: channel.into(),
            reason: None,
        });
    }
    session.control(ConnectionCommand::Part {
        channel: "#one".into(),
        reason: Some("bad\r\nQUIT".into()),
    });
    assert!(session.wire().is_empty());
    let events = session.sync_events();
    assert!(!events.iter().any(|event| matches!(
        event,
        IrcEvent::Channel(..) | IrcEvent::ChannelControlApplied(..)
    )));
    assert_eq!(session.app.buffer_count(), 1);
}

#[test]
fn prioritized_part_prevents_queued_channel_chat_from_leaking_to_the_wire() {
    let mut session = MockSession::start(&["#seed"]);
    assert_eq!(session.wire(), ["JOIN #seed"]);
    session.confirm_join("#seed");
    session.control(ConnectionCommand::Part {
        channel: "#seed".into(),
        reason: None,
    });
    session.outgoing(OutgoingMessage::Privmsg {
        server: "srv".into(),
        target: "#seed".into(),
        text: "queued before the UI saw PART confirmation".into(),
    });
    assert_eq!(session.wire(), ["PART #seed"]);
    session.wait_channel("#seed", ChannelState::Parting, false);
}

#[test]
fn ui_join_and_part_are_online_only_while_existing_buffers_and_drafts_survive() {
    let mut session = MockSession::start(&["#seed"]);
    assert_eq!(session.wire(), ["JOIN #seed"]);
    session.confirm_join("#seed");
    session.control(ConnectionCommand::Disconnect("pause".into()));
    session.receive_until(|event| {
        *event == IrcEvent::Connection("srv".into(), ConnectionState::Stopped)
    });
    for input in [
        "/join #offline",
        "/part #seed",
        "JOIN #offline",
        "PART #seed",
    ] {
        session.submit(input);
        assert_eq!(session.app.input(), input);
        assert_eq!(session.app.buffer_count(), 2);
    }
    session.control(ConnectionCommand::Connect);
    session.accept();
    session.register();
    assert_eq!(session.wire(), ["JOIN #seed"]);
}

#[test]
fn incoming_private_messages_use_welcome_nickname_without_joining() {
    let (mut session, _) = assigned(&[]);
    session.send("@custom=value :Alice!u@h PRIVMSG ASSIGNED :hello\r\n:Alice!u@h PRIVMSG assigned :\x01ACTION waves\x01\r\n:assigned!u@h PRIVMSG assigned :note to self\r\n:Alice!u@h PRIVMSG requested :wrong initial nickname\r\n:Alice!u@h PRIVMSG stranger :not for us\r\n:Alice!u@h PRIVMSG #unknown :not configured\r\n:Alice!u@h PRIVMSG assigned :\x01VERSION\x01\r\n");
    let messages = session.messages_until_done();
    assert_eq!(messages.len(), 3, "{messages:?}");
    assert_eq!(messages[0].server.as_str(), "srv");
    assert_eq!(messages[0].target, BufferKind::Query("Alice".into()));
    assert_eq!(messages[0].content.nick, "Alice");
    assert_eq!(messages[0].content.text, "hello");
    assert_eq!(messages[0].content.kind, MessageKind::Chat);
    assert_eq!(
        messages[0].content.tags,
        vec![("custom".into(), Some("value".into()))]
    );
    assert_eq!(messages[1].target, BufferKind::Query("Alice".into()));
    assert_eq!(messages[1].content.text, "* waves");
    assert_eq!(messages[1].content.kind, MessageKind::Action);
    assert_eq!(messages[2].target, BufferKind::Query("assigned".into()));
    assert_eq!(messages[2].content.text, "note to self");
}

#[test]
fn incoming_private_targets_change_only_after_confirmed_own_nick() {
    let (mut session, _) = assigned(&[]);
    session.control(ConnectionCommand::Nick("renamed".into()));
    assert_eq!(session.wire(), ["NICK renamed"]);
    session.send(":Alice!u@h PRIVMSG renamed :not confirmed\r\n:Alice!u@h PRIVMSG assigned :before confirmation\r\n");
    let messages = session.messages_until_done();
    assert_eq!(messages.len(), 1, "{messages:?}");
    assert_eq!(messages[0].content.text, "before confirmation");

    session.send(":ASSIGNED!u@h NICK :renamed\r\n:Alice!u@h PRIVMSG assigned :stale nickname\r\n:Alice!u@h PRIVMSG RENAMED :after confirmation\r\n");
    session.receive_until(|event| *event == IrcEvent::Nickname("srv".into(), "renamed".into()));
    let messages = session.messages_until_done();
    assert_eq!(messages.len(), 1, "{messages:?}");
    assert_eq!(messages[0].target, BufferKind::Query("Alice".into()));
    assert_eq!(messages[0].content.text, "after confirmation");
}

#[test]
fn peer_nickname_changes_are_emitted_without_an_existing_query() {
    let (mut session, _) = assigned(&[]);
    session.send(":Alice!u@h NICK :Alicia\r\n:server.example NICK :not-a-peer\r\n:mock NOTICE * :done\r\n");
    let events = session.receive_until(
        |event| matches!(event, IrcEvent::Message(message) if message.content.text == "done"),
    );
    let nicknames: Vec<_> = events
        .into_iter()
        .filter(|event| matches!(event, IrcEvent::Nickname(..) | IrcEvent::PeerNickname(..)))
        .collect();
    assert_eq!(
        nicknames,
        vec![IrcEvent::PeerNickname(
            "srv".into(),
            "Alice".into(),
            "Alicia".into(),
        )]
    );
    session.send(":Alicia!u@h PRIVMSG assigned :still addressed to us\r\n");
    let messages = session.messages_until_done();
    assert_eq!(messages.len(), 1, "{messages:?}");
    assert_eq!(messages[0].target, BufferKind::Query("Alicia".into()));
}

#[test]
fn private_reply_numerics_preserve_query_and_structured_error_destinations() {
    let (mut session, _) = assigned(&[]);
    session.send(":mock 301 assigned Alice :Out to lunch\r\n:mock 401 assigned nobody :No such nick/channel\r\n:Alice!u@h NOTICE assigned :private notice\r\n");
    let messages = session.messages_until_done();
    assert_eq!(messages.len(), 3, "{messages:?}");
    assert_eq!(messages[0].target, BufferKind::Query("Alice".into()));
    assert_eq!(messages[0].content.kind, MessageKind::Console);
    assert_eq!(messages[0].content.text, "Alice Out to lunch");
    assert_eq!(messages[1].target, BufferKind::Server);
    assert_eq!(messages[1].content.text, "401 nobody No such nick/channel");
    assert_eq!(
        messages[1].content.kind,
        MessageKind::Error {
            code: 401,
            target: Some("nobody".into()),
            reason: "No such nick/channel".into(),
        }
    );
    assert_eq!(messages[2].target, BufferKind::Server);
    assert_eq!(messages[2].content.kind, MessageKind::Console);
    assert_eq!(messages[2].content.text, "private notice");
    assert!(
        messages
            .iter()
            .all(|message| message.content.nick.is_empty())
    );
}

#[test]
fn outgoing_private_message_reaches_wire_before_any_join_confirmation() {
    let (mut session, _) = assigned(&["#pending"]);
    assert_eq!(session.wire(), ["JOIN #pending"]);
    session.outgoing(OutgoingMessage::Privmsg {
        server: "srv".into(),
        target: "Alice".into(),
        text: "hello  privately".into(),
    });
    assert_eq!(session.wire(), ["PRIVMSG Alice :hello  privately"]);
    assert!(session.messages_until_done().is_empty());
}

#[test]
fn query_ui_commands_and_worker_preserve_conversation_across_reconnect() {
    let (mut transport, registration) = assigned(&[]);
    let mut app = App::new(40, 5);
    let console = app.session.open_server("srv");
    app.activate_buffer(console);
    for event in registration {
        app.session.handle_event(event);
    }
    let config = Config {
        servers: Default::default(),
    };
    let handles = vec![(
        "srv".to_string(),
        ConnectionHandle {
            outgoing: transport.handle.outgoing.clone(),
            control: transport.handle.control.clone(),
        },
    )];
    let mut status = String::new();
    app.session.restore_input("/query Alice".into());
    let effect = submit_composer(&mut app.session, &config, &handles, &mut status);
    app.apply_submission_effect(effect);
    let query = app.active_buffer().unwrap().id;
    app.session.restore_input("hello".into());
    submit_composer(&mut app.session, &config, &handles, &mut status);
    assert_eq!(transport.wire(), ["PRIVMSG Alice hello"]);
    transport.send(":Alice!u@h PRIVMSG assigned :reply\r\n:mock 301 assigned Alice :Away\r\n:mock 401 assigned Alice :No such nick\r\n");
    for message in transport.messages_until_done() {
        app.session.handle_event(IrcEvent::Message(message));
    }
    assert_eq!(app.messages_for(query).len(), 4);
    assert_eq!(
        app.messages_for(query)[0].content.direction,
        Direction::Outgoing
    );
    assert_eq!(app.messages_for(query)[1].text, "reply");
    assert_eq!(app.messages_for(query)[2].text, "Alice Away");
    assert!(matches!(
        app.messages_for(query)[3].kind,
        MessageKind::Error { code: 401, .. }
    ));
    app.session.restore_input("/close".into());
    let effect = submit_composer(&mut app.session, &config, &handles, &mut status);
    app.apply_submission_effect(effect);
    assert_eq!(app.active_buffer().unwrap().id, console);
    assert!(app.buffer(query).unwrap().hidden);
    transport.control(ConnectionCommand::Reconnect);
    assert_eq!(transport.wire(), ["QUIT Reconnecting"]);
    transport.accept();
    transport.send(":mock 001 assigned :Welcome back\r\n");
    for event in transport.receive_until(|event| {
        *event == IrcEvent::Connection("srv".into(), ConnectionState::Connected)
    }) {
        app.session.handle_event(event);
    }
    assert!(app.buffer(query).unwrap().hidden);
    assert_eq!(app.messages_for(query).len(), 4);
    transport.send(":Alice!u@h NICK :Alicia\r\n:mock NOTICE * :renamed\r\n");
    for event in transport.receive_until(
        |event| matches!(event, IrcEvent::Message(message) if message.content.text == "renamed"),
    ) {
        app.session.handle_event(event);
    }
    assert_eq!(
        app.buffer(query).unwrap().kind,
        BufferKind::Query("Alicia".into())
    );
    assert!(app.buffer(query).unwrap().hidden);
    transport.send(":Alicia!u@h PRIVMSG assigned :back\r\n");
    for message in transport.messages_until_done() {
        app.session.handle_event(IrcEvent::Message(message));
    }
    assert_eq!(app.active_buffer().unwrap().id, console);
    assert!(!app.buffer(query).unwrap().hidden);
    assert!(app.buffer(query).unwrap().unread);
    app.session.restore_input("/query Alicia".into());
    let effect = submit_composer(&mut app.session, &config, &handles, &mut status);
    app.apply_submission_effect(effect);
    assert_eq!(app.active_buffer().unwrap().id, query);
    app.session.restore_input("again".into());
    submit_composer(&mut app.session, &config, &handles, &mut status);
    assert_eq!(transport.wire(), ["PRIVMSG Alicia again"]);
}

fn connections(events: &[IrcEvent], state: ConnectionState) -> usize {
    events
        .iter()
        .filter(|event| matches!(event, IrcEvent::Connection(_, seen) if *seen == state))
        .count()
}

#[test]
fn worker_states_wait_for_the_server_to_confirm() {
    let mut link = Link::new(
        server_config("test", &["#ok", "#bad"]),
        "srv",
        policy(2, 30, 500),
    );
    link.accept();
    assert_eq!(
        link.taken(),
        [IrcEvent::Connection(
            "srv".into(),
            ConnectionState::Connecting
        )]
    );
    link.send(":mock 001 assigned :Welcome\r\n:mock 376 assigned :End\r\n");
    let events = link.taken();
    assert_eq!(connections(&events, ConnectionState::Connected), 1);
    assert!(events.contains(&IrcEvent::Nickname("srv".into(), "assigned".into())));
    assert!(events.contains(&IrcEvent::Away("srv".into(), false)));
    assert_eq!(link.wire(), ["JOIN #ok", "JOIN #bad"]);
    link.send(":someone!u@h JOIN #ok\r\n");
    assert!(link.taken().is_empty());
    link.send(":assigned!u@h JOIN #ok\r\n:mock 473 assigned #bad :Invite only\r\n");
    let events = link.taken();
    assert!(channel_event(
        &events[0],
        "#ok",
        ChannelState::Joined,
        true
    ));
    assert!(channel_event(
        &events[1],
        "#bad",
        ChannelState::NotJoined,
        true
    ));
    assert_eq!(link.worker.channel_deadline(), None);
}

#[test]
fn worker_controls_use_the_protocol_and_wait_for_confirmation() {
    let mut link = Link::new(server_config("test", &[]), "srv", policy(2, 30, 500));
    link.accept();
    link.control(ConnectionCommand::Nick("early".into()));
    link.control(ConnectionCommand::Away(None));
    link.control(ConnectionCommand::Back);
    link.control(ConnectionCommand::Connect);
    assert!(link.wire().is_empty());
    link.send(":mock 001 test :Welcome\r\n");
    link.taken();
    link.control(ConnectionCommand::Nick("Alice".into()));
    assert_eq!(link.wire(), ["NICK Alice"]);
    assert_eq!(link.worker.nickname_rejected(link.now), None);
    assert!(link.taken().is_empty());
    link.send(":test!u@h NICK :Alice\r\n");
    assert_eq!(
        link.taken(),
        [IrcEvent::Nickname("srv".into(), "Alice".into())]
    );
    link.control(ConnectionCommand::Away(Some("lunch  break".into())));
    assert_eq!(link.wire(), ["AWAY :lunch  break"]);
    link.send(":mock 306 Alice :Away\r\n");
    assert_eq!(link.taken(), [IrcEvent::Away("srv".into(), true)]);
    link.control(ConnectionCommand::Away(None));
    assert_eq!(link.wire(), ["AWAY"]);
    link.send(":mock 305 Alice :Back\r\n");
    assert_eq!(link.taken(), [IrcEvent::Away("srv".into(), false)]);
    link.control(ConnectionCommand::Away(None));
    assert_eq!(link.wire(), ["AWAY Away"]);
    link.control(ConnectionCommand::Back);
    assert_eq!(link.wire(), ["AWAY"]);
    link.control(ConnectionCommand::Disconnect("bye  all".into()));
    assert_eq!(link.wire(), ["QUIT :bye  all"]);
    assert_eq!(
        link.taken(),
        [
            IrcEvent::ControlApplied("srv".into()),
            IrcEvent::Connection("srv".into(), ConnectionState::Stopped)
        ]
    );
    assert_eq!(link.worker.next_attempt(), None);
}

#[test]
fn worker_stops_after_its_retries_and_starts_over_when_asked() {
    let mut link = Link::new(server_config("test", &[]), "srv", policy(3, 1_000, 30_000));
    let mut waits = Vec::new();
    for _ in 0..4 {
        link.attempt();
        assert_eq!(link.worker.registration_deadline(), Some(link.now + 30_000));
        link.time_out();
        waits.push(link.worker.next_attempt().map(|next| next - link.now));
    }
    assert_eq!(waits, [Some(1_000), Some(2_000), Some(4_000), None]);
    let events = link.taken();
    assert_eq!(connections(&events, ConnectionState::Connecting), 4);
    assert_eq!(connections(&events, ConnectionState::Stopped), 1);
    assert!(events.contains(&IrcEvent::Error(
        "srv".into(),
        "connection or registration failed".into()
    )));
    link.control(ConnectionCommand::Connect);
    link.attempt();
    link.control(ConnectionCommand::Disconnect(String::new()));
    link.pump();
    assert!(link.phase == Phase::Resting);
    assert_eq!(link.worker.next_attempt(), None);
    assert_eq!(connections(&link.taken(), ConnectionState::Stopped), 1);
}

#[test]
fn worker_waits_never_exceed_half_a_minute() {
    let mut link = Link::new(server_config("test", &[]), "srv", policy(9, 4_000, 100));
    let mut waits = Vec::new();
    for _ in 0..9 {
        link.attempt();
        link.time_out();
        waits.push(link.worker.next_attempt().unwrap() - link.now);
    }
    assert_eq!(
        waits,
        [4_000, 8_000, 16_000, 30_000, 30_000, 30_000, 30_000, 30_000, 30_000]
    );
}

#[test]
fn worker_cancels_a_wait_at_once() {
    let mut link = Link::new(server_config("test", &[]), "srv", policy(2, 10_000, 500));
    link.attempt();
    link.time_out();
    assert_eq!(link.worker.next_attempt(), Some(link.now + 10_000));
    link.control(ConnectionCommand::Disconnect(String::new()));
    link.pump();
    assert_eq!(link.worker.next_attempt(), None);
    link.control(ConnectionCommand::Nick("other".into()));
    link.pump();
    assert_eq!(link.worker.next_attempt(), None);
    link.control(ConnectionCommand::Reconnect);
    link.pump();
    assert_eq!(link.worker.next_attempt(), Some(link.now));
}

#[test]
fn worker_does_not_retry_what_cannot_help() {
    for line in [
        ":mock 464 test :Password incorrect\r\n",
        ":mock 465 test :You are banned\r\n",
    ] {
        let mut link = Link::new(server_config("test", &[]), "srv", policy(2, 30, 500));
        link.accept();
        link.send(line);
        assert_eq!(link.worker.next_attempt(), None);
        let events = link.taken();
        assert_eq!(connections(&events, ConnectionState::Connecting), 1);
        assert!(matches!(events[1], IrcEvent::Message(_)));
        assert_eq!(
            events.last(),
            Some(&IrcEvent::Connection(
                "srv".into(),
                ConnectionState::Stopped
            ))
        );
    }
    let mut link = Link::new(server_config("test", &[]), "srv", policy(2, 30, 500));
    link.accept();
    let end = link.worker.nickname_rejected(link.now).unwrap();
    assert_eq!(
        end,
        End::Failed {
            permanent: true,
            healthy: false,
            registered: false,
        }
    );
    link.end(end);
    assert_eq!(link.worker.next_attempt(), None);
}

#[test]
fn worker_restores_its_retries_after_a_healthy_connection() {
    let mut link = Link::new(server_config("test", &[]), "srv", policy(1, 1_000, 500));
    link.attempt();
    link.time_out();
    link.accept();
    link.send(":mock 001 test :Welcome\r\n");
    link.now += 29_999;
    assert_eq!(
        link.worker.failed(false, link.now),
        End::Failed {
            permanent: false,
            healthy: false,
            registered: true,
        }
    );
    link.now += 1;
    link.taken();
    link.lose();
    assert_eq!(link.worker.next_attempt(), Some(link.now + 1_000));
    assert_eq!(
        link.taken(),
        [
            IrcEvent::Status("srv".into(), "disconnected (connection closed)".into()),
            IrcEvent::Connection("srv".into(), ConnectionState::Connecting)
        ]
    );
}

#[test]
fn worker_reconnects_with_its_confirmed_name_and_replays_nothing() {
    let mut link = Link::new(server_config("test", &["#ok"]), "srv", policy(2, 30, 500));
    link.accept();
    assert_eq!(link.nickname.as_deref(), Some("test"));
    link.send(":mock 001 test :Welcome\r\n:test!u@h NICK :Alice\r\n:mock 306 Alice :Away\r\n");
    link.wire();
    link.lose();
    link.outgoing(OutgoingMessage::Privmsg {
        server: "srv".into(),
        target: "#ok".into(),
        text: "while waiting".into(),
    });
    link.accept();
    assert_eq!(link.nickname.as_deref(), Some("Alice"));
    link.outgoing(OutgoingMessage::Privmsg {
        server: "srv".into(),
        target: "bob".into(),
        text: "must not replay".into(),
    });
    link.outgoing(OutgoingMessage::Raw {
        server: "srv".into(),
        line: "JOIN #kept".into(),
    });
    link.taken();
    link.send(":mock 001 Alice :Welcome again\r\n");
    assert_eq!(link.wire(), ["JOIN #ok", "JOIN #kept"]);
    assert!(link
        .taken()
        .contains(&IrcEvent::Away("srv".into(), false)));
    link.control(ConnectionCommand::Away(None));
    assert_eq!(link.wire(), ["AWAY Away"]);
}

#[test]
fn worker_ends_with_an_error_of_the_server_and_with_its_queues() {
    let mut link = Link::new(server_config("test", &[]), "srv", policy(2, 30, 500));
    link.accept();
    link.taken();
    link.send("ERROR :Closing Link\r\n");
    assert!(link.phase == Phase::Resting);
    assert_eq!(link.worker.next_attempt(), Some(30));
    link.attempt();
    assert_eq!(
        link.worker.connecting_control(None, link.now),
        Some(End::Shutdown)
    );
    assert_eq!(
        link.worker.session_control(None, link.now),
        Step::Close {
            reason: String::new(),
            end: End::Shutdown,
        }
    );
    assert_eq!(
        link.worker.session_outgoing(None, link.now),
        Step::Close {
            reason: String::new(),
            end: End::Shutdown,
        }
    );
    link.end(End::Shutdown);
    assert!(link.phase == Phase::Over);
    assert!(!link.worker.idle_control(None, link.now));
    assert!(!link.worker.idle_outgoing(None, link.now));
}

#[test]
fn worker_explains_a_kick_in_its_channel() {
    let mut link = Link::new(server_config("test", &["#room"]), "srv", policy(0, 30, 500));
    link.accept();
    link.send(":mock 001 test :Welcome\r\n:test!u@h JOIN #room\r\n");
    link.taken();
    link.send(":op!u@h KICK #ROOM test\r\n");
    let events = link.taken();
    assert!(channel_event(
        &events[0],
        "#room",
        ChannelState::NotJoined,
        true
    ));
    match &events[1] {
        IrcEvent::Message(message) => {
            assert_eq!(message.target, BufferKind::Channel("#room".into()));
            assert_eq!(message.content.kind, MessageKind::Console);
            assert_eq!(message.content.text, "Kicked from #ROOM: no reason given");
        }
        other => panic!("expected a message, got {other:?}"),
    }
    assert!(link.wire().is_empty());
}

#[test]
fn worker_shows_a_message_only_once_its_commands_are_sent() {
    let mut link = Link::new(server_config("test", &["#room"]), "srv", policy(0, 30, 500));
    link.accept();
    link.taken();
    let welcome = wire(":mock 001 test :Welcome\r\n");
    let at = SystemTime::now();
    let reaction = link.worker.received(&welcome, &Vec::new(), link.now, at);
    assert_eq!(
        reaction,
        Reaction {
            commands: vec![ClientCommand::Join("#room".into())],
            shown: true,
            end: None,
        }
    );
    let is_message = |event: &IrcEvent| matches!(event, IrcEvent::Message(_));
    let events = link.worker.take_events();
    assert!(events.contains(&IrcEvent::Nickname("srv".into(), "test".into())));
    assert!(!events.iter().any(is_message));
    link.worker.show(&welcome, at);
    let events = link.worker.take_events();
    assert_eq!(events.len(), 1);
    assert!(events.iter().all(is_message));
    let away = wire(":mock 306 test :You have been marked as being away\r\n");
    let reaction = link.worker.received(&away, &Vec::new(), link.now, at);
    assert!(!reaction.shown && reaction.commands.is_empty() && reaction.end.is_none());
    let refused = wire(":mock 464 test :Password incorrect\r\n");
    let reaction = link.worker.received(&refused, &Vec::new(), link.now, at);
    assert!(reaction.shown && reaction.end.is_some());
}
