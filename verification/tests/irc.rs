use irc::proto::{Command, Message};
use termirc::config::ServerConfig;
use termirc::irc::{
    build_client_config, connected, ended, outgoing, received, IrcEvent, OutgoingMessage, Sending,
};
use termirc::message::ChatMessage;
use termirc::protocol::{WireCommand, WireMessage};

/// A line as it is read off the wire.
fn wire(line: &str) -> WireMessage {
    let message: Message = line.parse().unwrap();
    let tags = match &message.tags {
        Some(tags) => tags
            .iter()
            .map(|tag| (tag.0.clone(), tag.1.clone()))
            .collect(),
        None => Vec::new(),
    };
    let command = match &message.command {
        Command::PRIVMSG(target, text) => WireCommand::Privmsg {
            target: target.clone(),
            text: text.clone(),
        },
        Command::NOTICE(target, text) => WireCommand::Notice {
            target: target.clone(),
            text: text.clone(),
        },
        Command::NICK(nick) => WireCommand::Nick(nick.clone()),
        Command::JOIN(channel, _, _) => WireCommand::Join(channel.clone()),
        Command::PART(channel, _) => WireCommand::Part(channel.clone()),
        Command::KICK(channel, nick, reason) => WireCommand::Kick {
            channel: channel.clone(),
            nick: nick.clone(),
            reason: reason.clone(),
        },
        Command::ERROR(_) => WireCommand::Error,
        Command::Response(code, arguments) => {
            WireCommand::Response(*code as u16, arguments.clone())
        }
        Command::Raw(command, arguments) => {
            WireCommand::Raw(command.clone(), arguments.clone())
        }
        _ => WireCommand::Other,
    };
    WireMessage {
        tags,
        source: message.source_nickname().map(str::to_string),
        command,
        line: message.to_string(),
    }
}

fn server_config() -> ServerConfig {
    ServerConfig {
        username: "alice".to_string(),
        nickname: "alice_".to_string(),
        password: "secret".to_string(),
        server: "irc.example.org".to_string(),
        use_tls: false,
        port: 6667,
        channels: vec!["#osu".to_string(), "#chinese".to_string()],
        queries: vec![],
    }
}

#[test]
fn irc_maps_server_fields_onto_irc_config() {
    // Arrange
    let server = server_config();

    // Act
    let client_config = build_client_config(&server, &server.channels);

    // Assert
    assert_eq!(client_config.server.as_deref(), Some("irc.example.org"));
    assert_eq!(client_config.port, Some(6667));
    assert_eq!(client_config.nickname.as_deref(), Some("alice_"));
    assert_eq!(client_config.username.as_deref(), Some("alice"));
    assert_eq!(client_config.password.as_deref(), Some("secret"));
    assert_eq!(client_config.use_tls, Some(false));
}

#[test]
fn irc_joins_every_configured_channel() {
    // Arrange
    let server = server_config();

    // Act
    let client_config = build_client_config(&server, &server.channels);

    // Assert: both channels are joined, in config order.
    assert_eq!(client_config.channels, server.channels);
}

#[test]
fn irc_realname_defaults_to_nickname() {
    // Arrange
    let server = server_config();

    // Act
    let client_config = build_client_config(&server, &server.channels);

    // Assert
    assert_eq!(client_config.realname.as_deref(), Some("alice_"));
}

const GREETING: [&str; 6] = [
    ":mock 001 test :Welcome to the Mock IRC Network\r\n",
    ":mock 002 test :Your host is mock\r\n",
    ":mock 003 test :This server was created today\r\n",
    ":mock 004 test mock 1.0 ov o\r\n",
    ":mock 375 test :- mock Message of the Day -\r\n",
    ":mock 376 test :End of /MOTD command.\r\n",
];

const ANSWER: [&str; 3] = [
    ":mock 353 test = #test :test\r\n",
    ":alice!a@b PRIVMSG #test :hello world\r\n",
    "PING :mock\r\n",
];

/// What is reported of a greeting and the answer to a join.
fn reported() -> Vec<ChatMessage> {
    let channels = ["#test".to_string(), "#test2".to_string()];
    GREETING
        .iter()
        .chain(ANSWER.iter())
        .filter_map(|line| match received(&wire(line), "osu_irc", &channels) {
            Some(IrcEvent::Message(message)) => Some(message),
            other => {
                assert_eq!(other, None);
                None
            }
        })
        .collect()
}

/// What goes out for an item of the queue.
fn line_for(message: OutgoingMessage) -> String {
    let command = match outgoing(Some(message)) {
        Sending::Stop => panic!("the queue is open"),
        Sending::Privmsg { target, text } => Command::PRIVMSG(target, text),
        Sending::Raw { command, arguments } => Command::Raw(command, arguments),
    };
    Message::from(command).to_string().trim_end().to_string()
}

#[test]
fn forwards_privmsg_as_chat_message() {
    let chat = reported()
        .into_iter()
        .find(|message| !message.channel.is_empty());
    assert_eq!(
        chat,
        Some(ChatMessage {
            server: "osu_irc".to_string(),
            channel: "#test".to_string(),
            nick: "alice".to_string(),
            text: "hello world".to_string(),
        })
    );
}

#[test]
fn server_replies_land_in_the_console_view() {
    let welcome = reported()
        .into_iter()
        .find(|message| message.channel.is_empty() && message.text.starts_with(":mock 001"));
    assert_eq!(
        welcome,
        Some(ChatMessage {
            server: "osu_irc".to_string(),
            channel: String::new(),
            nick: String::new(),
            text: ":mock 001 test :Welcome to the Mock IRC Network".to_string(),
        })
    );
}

#[test]
fn names_replies_stay_out_of_the_console() {
    let all = reported();
    let chat = all.iter().any(|message| !message.channel.is_empty());
    let console: Vec<&str> = all
        .iter()
        .filter(|message| message.channel.is_empty())
        .map(|message| message.text.as_str())
        .collect();
    assert!(chat, "channel chat never arrived");
    assert!(
        console.iter().all(|t| !t.contains(" 353 ")),
        "353 leaked into the console: {console:?}"
    );
    assert_eq!(console.len(), 6);
}

#[test]
fn reports_status_when_server_closes_connection() {
    match ended("osu_irc", "irc.example.org", None) {
        IrcEvent::Status(server, text) => {
            assert_eq!(server, "osu_irc");
            assert!(text.contains("disconnected"));
            assert_eq!(text, "disconnected from irc.example.org (connection closed)");
        }
        other => panic!("expected IrcEvent::Status, got {other:?}"),
    }
}

#[test]
fn reports_error_when_connection_is_refused() {
    match ended("osu_irc", "irc.example.org", Some("connection refused")) {
        IrcEvent::Error(server, text) => {
            assert_eq!(server, "osu_irc");
            assert_eq!(text, "connection refused");
        }
        other => panic!("expected IrcEvent::Error, got {other:?}"),
    }
}

#[test]
fn outgoing_message_is_sent_as_privmsg_on_the_wire() {
    let line = line_for(OutgoingMessage::Privmsg {
        server: "osu_irc".to_string(),
        target: "#test".to_string(),
        text: "hello world".to_string(),
    });
    assert_eq!(line, "PRIVMSG #test :hello world");
}

#[test]
fn raw_line_is_sent_verbatim_on_the_wire() {
    let line = line_for(OutgoingMessage::Raw {
        server: "osu_irc".to_string(),
        line: "WHOIS test".to_string(),
    });
    assert_eq!(line, "WHOIS test");
}

#[test]
fn raw_line_marks_a_colon_last_param_as_trailing() {
    let line = line_for(OutgoingMessage::Raw {
        server: "osu_irc".to_string(),
        line: "PING :smoke".to_string(),
    });
    assert_eq!(line, "PING ::smoke");
}

#[test]
fn joins_all_configured_channels() {
    let mut server = server_config();
    server.channels = vec!["#test".to_string(), "#test2".to_string()];
    let client_config = build_client_config(&server, &server.channels);
    assert!(client_config.channels.iter().any(|c| c == "#test"));
    assert!(client_config.channels.iter().any(|c| c == "#test2"));
}

#[test]
fn a_connection_reports_its_host() {
    assert_eq!(
        connected("osu_irc", "irc.ppy.sh"),
        IrcEvent::Status("osu_irc".to_string(), "connected to irc.ppy.sh".to_string())
    );
}

#[test]
fn a_closed_queue_ends_the_connection_and_blank_lines_are_empty_commands() {
    assert_eq!(outgoing(None), Sending::Stop);
    assert_eq!(
        outgoing(Some(OutgoingMessage::Raw {
            server: "osu_irc".to_string(),
            line: "  \t ".to_string(),
        })),
        Sending::Raw {
            command: String::new(),
            arguments: vec![],
        }
    );
    assert_eq!(
        outgoing(Some(OutgoingMessage::Raw {
            server: "osu_irc".to_string(),
            line: " MODE  #test\t+o alice ".to_string(),
        })),
        Sending::Raw {
            command: "MODE".to_string(),
            arguments: vec!["#test".to_string(), "+o".to_string(), "alice".to_string()],
        }
    );
}
