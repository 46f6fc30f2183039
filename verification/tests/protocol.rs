use irc::proto::{Command, Message};
use termirc::model::{
    BufferKind, ConnectionCommand, DeliveryState, MessageKind, OutgoingMessage, RoutedMessage,
    ServerId,
};
use termirc::protocol::{
    decode_message, encode_outgoing, validate_control, SendError, WireCommand, WireMessage,
};

/// A line as it is read off the wire.
fn wire(line: &str) -> WireMessage {
    let message: Message = line.parse().unwrap();
    let tags = match &message.tags {
        Some(tags) => tags
            .iter()
            .map(|tag| (tag.0.clone(), tag.1.clone()))
            .collect(),
        None => Vec::new(),
    };
    let command = match &message.command {
        Command::PRIVMSG(target, text) => WireCommand::Privmsg {
            target: target.clone(),
            text: text.clone(),
        },
        Command::NOTICE(target, text) => WireCommand::Notice {
            target: target.clone(),
            text: text.clone(),
        },
        Command::NICK(nick) => WireCommand::Nick(nick.clone()),
        Command::JOIN(channel, _, _) => WireCommand::Join(channel.clone()),
        Command::PART(channel, _) => WireCommand::Part(channel.clone()),
        Command::KICK(channel, nick, reason) => WireCommand::Kick {
            channel: channel.clone(),
            nick: nick.clone(),
            reason: reason.clone(),
        },
        Command::ERROR(_) => WireCommand::Error,
        Command::Response(code, arguments) => {
            WireCommand::Response(*code as u16, arguments.clone())
        }
        Command::Raw(command, arguments) => {
            WireCommand::Raw(command.clone(), arguments.clone())
        }
        _ => WireCommand::Other,
    };
    WireMessage {
        tags,
        source: message.source_nickname().map(str::to_string),
        command,
        line: message.to_string(),
    }
}

fn decode(line: &str) -> Option<RoutedMessage> {
    decode_message(
        &wire(line),
        "OSU_IRC",
        &["#osu".to_string(), "#chinese".to_string()],
        "",
    )
}

fn outgoing(target: &str, text: &str) -> OutgoingMessage {
    OutgoingMessage::Privmsg {
        server: "srv".into(),
        target: target.into(),
        text: text.into(),
    }
}

fn raw(line: &str) -> OutgoingMessage {
    OutgoingMessage::Raw {
        server: "srv".into(),
        line: line.into(),
    }
}

#[test]
fn protocol_privmsg_with_full_nickmask_yields_nick_and_text() {
    let message = decode(":alice!a@b PRIVMSG #osu :hello world").unwrap();
    assert_eq!(message.server, ServerId::new("osu_irc"));
    assert_eq!(message.target, BufferKind::Channel("#osu".into()));
    assert_eq!(message.content.nick, "alice");
    assert_eq!(message.content.text, "hello world");
    assert_eq!(message.content.kind, MessageKind::Chat);
    assert_eq!(message.content.delivery, DeliveryState::Received);
}

#[test]
fn protocol_privmsg_with_bancho_style_prefix_yields_nick() {
    assert_eq!(
        decode(":Bubble_Shark!Bubble_Shark@cho.ppy.sh PRIVMSG #osu :hi")
            .unwrap()
            .content
            .nick,
        "Bubble_Shark"
    );
}

#[test]
fn protocol_channel_match_is_case_insensitive_and_keeps_received_case() {
    assert_eq!(
        decode(":alice!a@b PRIVMSG #OSU :hi").unwrap().target,
        BufferKind::Channel("#OSU".into())
    );
}

#[test]
fn protocol_any_configured_channel_is_accepted() {
    assert_eq!(
        decode(":alice!a@b PRIVMSG #chinese :hi").unwrap().target,
        BufferKind::Channel("#chinese".into())
    );
}

#[test]
fn protocol_privmsg_to_private_nick_is_ignored() {
    assert!(decode(":bot!u@h PRIVMSG me :hello").is_none());
}

#[test]
fn protocol_privmsg_to_unconfigured_channel_is_ignored() {
    assert!(decode(":alice!u@h PRIVMSG #other :hello").is_none());
}

#[test]
fn protocol_ctcp_action_renders_with_star_prefix() {
    let message = decode(":alice!a@b PRIVMSG #osu :\x01ACTION dances\x01").unwrap();
    assert_eq!(message.content.text, "* dances");
    assert_eq!(message.content.kind, MessageKind::Action);
}

#[test]
fn protocol_non_action_ctcp_is_ignored() {
    assert!(decode(":alice!a@b PRIVMSG #osu :\x01VERSION\x01").is_none());
}

#[test]
fn channel_notice_is_ignored() {
    assert!(decode(":alice!a@b NOTICE #osu :hi").is_none());
}

#[test]
fn server_message_without_nick_becomes_console_message() {
    let message = decode(":cho.ppy.sh NOTICE * :*** Looking up your hostname").unwrap();
    assert_eq!(message.target, BufferKind::Server);
    assert!(message.content.nick.is_empty());
}

#[test]
fn protocol_privmsg_from_hostname_only_prefix_is_ignored() {
    assert!(decode(":cho.ppy.sh PRIVMSG #osu :hello").is_none());
}

#[test]
fn protocol_trailing_carriage_return_is_stripped() {
    assert_eq!(
        decode(":alice!a@b PRIVMSG #osu :hello\r")
            .unwrap()
            .content
            .text,
        "hello"
    );
}

#[test]
fn numeric_replies_become_console_payload_lines() {
    let message = decode(":mock 001 test :Welcome to the Mock IRC Network").unwrap();
    assert_eq!(message.target, BufferKind::Server);
    assert!(message.content.nick.is_empty());
    assert_eq!(message.content.text, "Welcome to the Mock IRC Network");
    assert_eq!(message.content.kind, MessageKind::Console);
}

#[test]
fn notices_become_console_payload_lines() {
    assert_eq!(
        decode(":cho.ppy.sh NOTICE * :*** Looking up your hostname")
            .unwrap()
            .content
            .text,
        "*** Looking up your hostname"
    );
}

#[test]
fn multi_param_replies_drop_own_nick_and_join_the_rest() {
    assert_eq!(
        decode(":mock 311 smoke alice ~a host * :real name")
            .unwrap()
            .content
            .text,
        "alice ~a host * real name"
    );
    assert_eq!(
        decode(":mock 433 smoke BadNick :Nickname is already in use")
            .unwrap()
            .content
            .text,
        "433 BadNick Nickname is already in use"
    );
}

#[test]
fn replies_without_a_payload_are_dropped() {
    assert!(decode(":mock 300 smoke").is_none());
}

#[test]
fn channel_param_replies_are_blocked_from_the_console() {
    for line in [
        ":mock 332 smoke #osu :Welcome to #osu",
        ":mock NOTICE #osu :spam",
        ":mock 353 smoke = #osu :a b",
    ] {
        assert!(decode(line).is_none(), "{line}");
    }
}

#[test]
fn protocol_joins_of_other_users_stay_out_of_the_console() {
    assert!(decode(":bob!b@c JOIN #osu").is_none());
}

#[test]
fn protocol_server_ping_keepalives_stay_out_of_the_console() {
    assert!(decode("PING :mock").is_none());
}

#[test]
fn names_replies_are_blocked_from_the_console() {
    assert!(decode(":mock 353 smoke = #test :smoke alice bob").is_none());
    assert!(decode(":mock 366 smoke #test :End of /NAMES list").is_none());
}

#[test]
fn lusers_statistics_are_blocked_from_the_console() {
    for code in [250, 251, 252, 253, 254, 255, 265, 266] {
        assert!(decode(&format!(":mock {code} smoke 3 :population statistics")).is_none());
    }
}

#[test]
fn isupport_tokens_are_blocked_from_the_console() {
    assert!(
        decode(":mock 005 smoke PREFIX=(ov)@+ CHANTYPES=# NICKLEN=30 :supported by server")
            .is_none()
    );
}

#[test]
fn whois_motd_and_error_replies_stay_visible() {
    for line in [
        ":mock 311 smoke alice ~a host * :real name",
        ":mock 372 smoke :- some motd line",
        ":mock 401 smoke nobody :No such nick/channel",
    ] {
        assert!(decode(line).is_some(), "{line}");
    }
}

#[test]
fn channel_errors_retain_code_target_reason_and_have_no_nickname() {
    for (code, reason) in [
        (475, "Cannot join channel (+k)"),
        (404, "Cannot send to channel"),
    ] {
        let message = decode(&format!(":mock {code} smoke #OSU :{reason}")).unwrap();
        assert_eq!(message.target, BufferKind::Channel("#OSU".into()));
        assert!(message.content.nick.is_empty());
        assert_eq!(message.content.text, format!("{code} #OSU {reason}"));
        assert_eq!(
            message.content.kind,
            MessageKind::Error {
                code,
                target: Some("#OSU".into()),
                reason: reason.into()
            }
        );
    }
}

#[test]
fn unknown_channel_errors_fall_back_to_server_without_losing_target() {
    let message = decode(":mock 475 smoke #unknown :Need a key").unwrap();
    assert_eq!(message.target, BufferKind::Server);
    assert_eq!(
        message.content.kind,
        MessageKind::Error {
            code: 475,
            target: Some("#unknown".into()),
            reason: "Need a key".into()
        }
    );
    assert_eq!(message.content.text, "475 #unknown Need a key");
}

#[test]
fn nickname_errors_retain_the_requested_target() {
    let message = decode(":mock 401 smoke nobody :No such nick/channel").unwrap();
    assert_eq!(message.target, BufferKind::Server);
    assert_eq!(
        message.content.kind,
        MessageKind::Error {
            code: 401,
            target: Some("nobody".into()),
            reason: "No such nick/channel".into(),
        }
    );
}

#[test]
fn errors_unknown_to_the_dependency_remain_visible() {
    let message = decode(":mock 599 smoke #osu :Custom failure").unwrap();
    assert!(matches!(
        message.content.kind,
        MessageKind::Error { code: 599, .. }
    ));
}

#[test]
fn tags_are_retained_on_chat_console_and_error_messages() {
    for body in [
        ":alice!u@h PRIVMSG #osu :hello",
        ":mock NOTICE * :hello",
        ":mock 404 me #osu :blocked",
    ] {
        let message = decode(&format!(
            "@time=2026-09-17T00:00:00Z;custom;escaped=one\\stwo {body}"
        ))
        .unwrap();
        assert_eq!(
            message.content.tags,
            vec![
                ("time".into(), Some("2026-09-17T00:00:00Z".into())),
                ("custom".into(), None),
                ("escaped".into(), Some("one two".into()))
            ]
        );
    }
}

#[test]
fn encoded_length_includes_target_command_and_crlf() {
    // "PRIVMSG #x " is 11 bytes, and CRLF adds 2.
    let accepted = encode_outgoing(&outgoing("#x", &"a".repeat(499))).unwrap();
    assert_eq!(accepted.to_string().len(), 512);
    assert_eq!(
        encode_outgoing(&outgoing("#x", &"a".repeat(500))),
        Err(SendError::TooLong)
    );
    assert_eq!(
        encode_outgoing(&outgoing("#longer", &"a".repeat(499))),
        Err(SendError::TooLong)
    );
}

#[test]
fn unicode_limit_uses_utf8_bytes_and_trailing_colon_overhead() {
    let text = format!("{}a", "中".repeat(166));
    assert_eq!(
        encode_outgoing(&outgoing("#x", &text))
            .unwrap()
            .to_string()
            .len(),
        512
    );
    assert_eq!(
        encode_outgoing(&outgoing("#x", &format!("{text}中"))),
        Err(SendError::TooLong)
    );
    assert_eq!(
        encode_outgoing(&outgoing("#x", &format!("{} ", "a".repeat(498)))),
        Err(SendError::TooLong)
    );
}

#[test]
fn raw_encoding_preserves_trailing_space_and_colon_semantics() {
    for (line, expected) in [
        ("PING :smoke", Command::PING("smoke".into(), None)),
        ("QUIT :bye", Command::QUIT(Some("bye".into()))),
        (
            "PRIVMSG #x :hello  world  ",
            Command::PRIVMSG("#x".into(), "hello  world  ".into()),
        ),
    ] {
        let encoded = encode_outgoing(&raw(line)).unwrap();
        let roundtrip: Message = encoded.to_string().parse().unwrap();
        assert_eq!(roundtrip.command, expected);
    }
}

#[test]
fn raw_commands_and_controls_enforce_actual_wire_limit() {
    assert_eq!(
        encode_outgoing(&raw(&format!("QUIT :{}", "a".repeat(505))))
            .unwrap()
            .to_string()
            .len(),
        512
    );
    assert_eq!(
        encode_outgoing(&raw(&format!("QUIT :{}", "a".repeat(506)))),
        Err(SendError::TooLong)
    );
    for command in [
        ConnectionCommand::Nick("a".repeat(506)),
        ConnectionCommand::Away(Some("中".repeat(169))),
        ConnectionCommand::Disconnect("a".repeat(506)),
    ] {
        assert_eq!(validate_control(&command), Err(SendError::TooLong));
    }
    for command in [
        ConnectionCommand::Nick("a".repeat(505)),
        ConnectionCommand::Away(Some("a".repeat(505))),
        ConnectionCommand::Disconnect("a".repeat(505)),
        ConnectionCommand::Connect,
        ConnectionCommand::Reconnect,
        ConnectionCommand::Back,
    ] {
        assert!(validate_control(&command).is_ok());
    }
}

#[test]
fn invalid_input_errors_never_include_original_contents() {
    for invalid in ["secret\r", "secret\n", "secret\0"] {
        assert_eq!(
            encode_outgoing(&outgoing("#x", invalid)),
            Err(SendError::InvalidCharacters)
        );
        assert_eq!(
            encode_outgoing(&raw(invalid)),
            Err(SendError::InvalidCharacters)
        );
        for command in [
            ConnectionCommand::Nick(invalid.into()),
            ConnectionCommand::Away(Some(invalid.into())),
            ConnectionCommand::Disconnect(invalid.into()),
        ] {
            let error = validate_control(&command).unwrap_err();
            assert!(!error.message().contains("secret"));
            assert!(!format!("{error:?}").contains("secret"));
        }
    }
    assert_eq!(encode_outgoing(&raw("")), Err(SendError::InvalidCommand));
    assert_eq!(encode_outgoing(&raw(" ")), Err(SendError::InvalidCommand));
}
