use irc::proto::{Command, Message};
use termirc::message::ChatMessage;
use termirc::protocol::{WireCommand, WireMessage};

const SERVER: &str = "osu_irc";

fn channels() -> Vec<String> {
    vec!["#osu".to_string(), "#chinese".to_string()]
}

/// A line as it is read off the wire.
fn wire(line: &str) -> WireMessage {
    let message: Message = line.parse().unwrap();
    let tags = match &message.tags {
        Some(tags) => tags
            .iter()
            .map(|tag| (tag.0.clone(), tag.1.clone()))
            .collect(),
        None => Vec::new(),
    };
    let command = match &message.command {
        Command::PRIVMSG(target, text) => WireCommand::Privmsg {
            target: target.clone(),
            text: text.clone(),
        },
        Command::NOTICE(target, text) => WireCommand::Notice {
            target: target.clone(),
            text: text.clone(),
        },
        Command::NICK(nick) => WireCommand::Nick(nick.clone()),
        Command::JOIN(channel, _, _) => WireCommand::Join(channel.clone()),
        Command::PART(channel, _) => WireCommand::Part(channel.clone()),
        Command::KICK(channel, nick, reason) => WireCommand::Kick {
            channel: channel.clone(),
            nick: nick.clone(),
            reason: reason.clone(),
        },
        Command::ERROR(_) => WireCommand::Error,
        Command::Response(code, arguments) => {
            WireCommand::Response(*code as u16, arguments.clone())
        }
        Command::Raw(command, arguments) => {
            WireCommand::Raw(command.clone(), arguments.clone())
        }
        _ => WireCommand::Other,
    };
    WireMessage {
        tags,
        source: message.source_nickname().map(str::to_string),
        command,
        line: message.to_string(),
    }
}

#[test]
fn message_privmsg_with_full_nickmask_yields_nick_and_text() {
    // Arrange
    let msg = wire(":alice!a@b PRIVMSG #osu :hello world");

    // Act
    let chat = ChatMessage::from_proto(&msg, SERVER, &channels());

    // Assert
    assert_eq!(
        chat,
        Some(ChatMessage {
            server: "osu_irc".to_string(),
            channel: "#osu".to_string(),
            nick: "alice".to_string(),
            text: "hello world".to_string(),
        })
    );
}

#[test]
fn message_privmsg_with_bancho_style_prefix_yields_nick() {
    // Arrange: osu! Bancho uses Nick!Nick@cho.ppy.sh as the prefix.
    let msg = wire(":Bubble_Shark!Bubble_Shark@cho.ppy.sh PRIVMSG #osu :hi");

    // Act
    let chat = ChatMessage::from_proto(&msg, SERVER, &channels());

    // Assert
    assert_eq!(chat.unwrap().nick, "Bubble_Shark");
}

#[test]
fn message_channel_match_is_case_insensitive_and_keeps_received_case() {
    // Arrange: IRC channel names compare case-insensitively.
    let msg = wire(":alice!a@b PRIVMSG #OSU :hi");

    // Act
    let chat = ChatMessage::from_proto(&msg, SERVER, &channels());

    // Assert
    let chat = chat.unwrap();
    assert_eq!(chat.channel, "#OSU");
    assert_eq!(chat.server, "osu_irc");
}

#[test]
fn message_any_configured_channel_is_accepted() {
    // Arrange: a message to the second configured channel.
    let msg = wire(":alice!a@b PRIVMSG #chinese :ni hao");

    // Act
    let chat = ChatMessage::from_proto(&msg, SERVER, &channels());

    // Assert
    assert_eq!(chat.unwrap().channel, "#chinese");
}

#[test]
fn message_privmsg_to_private_nick_is_ignored() {
    // Arrange: a DM/whisper targets our nick, not a channel.
    let msg = wire(":BanchoBot!bot@ppy.sh PRIVMSG Bubble_Shark :your rank is #1234");

    // Act & Assert
    assert_eq!(ChatMessage::from_proto(&msg, SERVER, &channels()), None);
}

#[test]
fn message_privmsg_to_unconfigured_channel_is_ignored() {
    // Arrange
    let msg = wire(":alice!a@b PRIVMSG #other :hi");

    // Act & Assert
    assert_eq!(ChatMessage::from_proto(&msg, SERVER, &channels()), None);
}

#[test]
fn message_ctcp_action_renders_with_star_prefix() {
    // Arrange: /me arrives as a CTCP ACTION envelope.
    let msg = wire(":alice!a@b PRIVMSG #osu :\x01ACTION dances\x01");

    // Act
    let chat = ChatMessage::from_proto(&msg, SERVER, &channels());

    // Assert
    assert_eq!(
        chat,
        Some(ChatMessage {
            server: "osu_irc".to_string(),
            channel: "#osu".to_string(),
            nick: "alice".to_string(),
            text: "* dances".to_string(),
        })
    );
}

#[test]
fn message_non_action_ctcp_is_ignored() {
    // Arrange: e.g. a CTCP VERSION query is not chat.
    let msg = wire(":alice!a@b PRIVMSG #osu :\x01VERSION\x01");

    // Act & Assert
    assert_eq!(ChatMessage::from_proto(&msg, SERVER, &channels()), None);
}

#[test]
fn notice_is_ignored() {
    // Arrange
    let msg = wire(":alice!a@b NOTICE #osu :hi");

    // Act & Assert
    assert_eq!(ChatMessage::from_proto(&msg, SERVER, &channels()), None);
}

#[test]
fn server_message_without_nick_is_ignored() {
    // Arrange: server NOTICEs have a hostname prefix without a nick.
    let msg = wire(":cho.ppy.sh NOTICE * :*** Looking up your hostname");

    // Act & Assert
    assert_eq!(ChatMessage::from_proto(&msg, SERVER, &channels()), None);
}

#[test]
fn message_privmsg_from_hostname_only_prefix_is_ignored() {
    // Arrange: a PRIVMSG whose source is a server name has no user nick.
    let msg = wire(":cho.ppy.sh PRIVMSG #osu :hello");

    // Act & Assert
    assert_eq!(ChatMessage::from_proto(&msg, SERVER, &channels()), None);
}

#[test]
fn numeric_responses_are_ignored() {
    // Arrange
    let msg = wire(":srv 001 me :Welcome");

    // Act & Assert
    assert_eq!(ChatMessage::from_proto(&msg, SERVER, &channels()), None);
}

#[test]
fn message_trailing_carriage_return_is_stripped() {
    // Arrange: IRC lines end with \r\n; a stray \r must not reach the UI.
    let msg = wire(":alice!a@b PRIVMSG #osu :hello\r");

    // Act
    let chat = ChatMessage::from_proto(&msg, SERVER, &channels());

    // Assert
    assert_eq!(chat.unwrap().text, "hello");
}

#[test]
fn numeric_replies_become_raw_console_lines() {
    // Arrange: the welcome numeric every server sends on connect.
    let msg = wire(":mock 001 test :Welcome to the Mock IRC Network");

    // Act
    let chat = ChatMessage::raw_from_proto(&msg, SERVER);

    // Assert: routed to the console (empty channel and nick), text is
    // the verbatim wire line without the CRLF.
    assert_eq!(
        chat,
        Some(ChatMessage {
            server: "osu_irc".to_string(),
            channel: String::new(),
            nick: String::new(),
            text: ":mock 001 test :Welcome to the Mock IRC Network".to_string(),
        })
    );
}

#[test]
fn notices_become_raw_console_lines() {
    // Arrange: server notices (hostname lookups, auth hints).
    let msg = wire(":cho.ppy.sh NOTICE * :*** Looking up your hostname");

    // Act
    let chat = ChatMessage::raw_from_proto(&msg, SERVER);

    // Assert
    assert_eq!(
        chat.unwrap().text,
        ":cho.ppy.sh NOTICE * :*** Looking up your hostname"
    );
}

#[test]
fn message_joins_of_other_users_stay_out_of_the_console() {
    // Arrange: presence traffic of other users would flood the console
    // on busy channels.
    let msg = wire(":bob!b@c JOIN #osu");

    // Act & Assert
    assert_eq!(ChatMessage::raw_from_proto(&msg, SERVER), None);
}

#[test]
fn message_server_ping_keepalives_stay_out_of_the_console() {
    // Arrange
    let msg = wire("PING :mock");

    // Act & Assert
    assert_eq!(ChatMessage::raw_from_proto(&msg, SERVER), None);
}
