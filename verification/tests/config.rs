use termirc::config::{Config, ConfigError, ServerConfig};

/// The configuration that a TOML text spells.
fn configuration(text: &str) -> Config {
    let table: toml::Table = text.parse().unwrap();
    let mut servers = indexmap::IndexMap::new();
    for (name, server) in table["servers"].as_table().unwrap() {
        let word = |key: &str| server[key].as_str().unwrap().to_string();
        let list = |key: &str| -> Vec<String> {
            match server.get(key) {
                Some(list) => list
                    .as_array()
                    .unwrap()
                    .iter()
                    .map(|item| item.as_str().unwrap().to_string())
                    .collect(),
                None => Vec::new(),
            }
        };
        servers.insert(
            name.clone(),
            ServerConfig {
                username: word("username"),
                nickname: word("nickname"),
                password: word("password"),
                server: word("server"),
                port: server["port"].as_integer().unwrap() as u16,
                use_tls: false,
                channels: list("channels"),
                queries: list("queries"),
            },
        );
    }
    Config { servers }
}

#[test]
fn first_server_returns_first_in_file_order_not_alphabetical() {
    // Arrange: "zeta" is written before "alpha" — alphabetical order would pick alpha.
    let content = r##"
[servers.zeta]
username = "u1"
nickname = "n1"
password = "p1"
server = "z.example.org"
port = 6667
channels = ["#z"]

[servers.alpha]
username = "u2"
nickname = "n2"
password = "p2"
server = "a.example.org"
port = 6667
channels = ["#a"]
"##;

    // Act
    let config = configuration(content);

    // Assert
    let (name, server) = config.first_server().unwrap();
    assert_eq!(name, "zeta");
    assert_eq!(server.server, "z.example.org");
}

#[test]
fn first_channel_returns_first_channel_of_server() {
    // Arrange
    let content = r##"
[servers.osu_irc]
username = "alice"
nickname = "alice"
password = "secret"
server = "irc.example.org"
port = 6667
channels = ["#osu", "#chinese"]
"##;
    let config = configuration(content);

    // Act
    let channel = config.first_server().unwrap().1.first_channel();

    // Assert
    assert_eq!(channel, Some("#osu"));
}

#[test]
fn first_channel_is_none_when_channels_empty() {
    // Arrange
    let content = r##"
[servers.empty]
username = "u"
nickname = "n"
password = "p"
server = "s.example.org"
port = 6667
channels = []
"##;
    let config = configuration(content);

    // Act & Assert
    assert_eq!(config.first_server().unwrap().1.first_channel(), None);
}

#[test]
fn first_server_is_none_when_no_servers() {
    // Arrange: servers table present but empty.
    let content = "[servers]\n";
    let config = configuration(content);

    // Act & Assert
    assert!(config.first_server().is_none());
}

fn servers(entries: &[(&str, &[&str])]) -> Config {
    Config {
        servers: entries
            .iter()
            .map(|(name, queries)| {
                (
                    name.to_string(),
                    ServerConfig {
                        username: "u".to_string(),
                        nickname: "n".to_string(),
                        password: "p".to_string(),
                        server: "s.example.org".to_string(),
                        use_tls: false,
                        port: 6667,
                        channels: vec![],
                        queries: queries.iter().map(|query| query.to_string()).collect(),
                    },
                )
            })
            .collect(),
    }
}

#[test]
fn keys_must_differ_in_more_than_letter_case() {
    assert_eq!(
        servers(&[("osu", &[]), ("Libera", &[])]).validate(),
        Ok(())
    );
    assert_eq!(
        servers(&[("osu", &[]), ("libera", &[]), ("OSU", &[])]).validate(),
        Err(ConfigError::DuplicateServer("OSU".to_string()))
    );
}

#[test]
fn private_conversations_are_with_single_nicknames() {
    assert_eq!(
        servers(&[("osu", &["alice", "Bob_", "alice"])]).validate(),
        Ok(())
    );
    for nickname in ["", "#osu", "alice,bob", "alice bob", "a\r\nQUIT"] {
        assert_eq!(
            servers(&[("osu", &["alice", nickname])]).validate(),
            Err(ConfigError::InvalidQuery {
                server: "osu".to_string(),
                nickname: nickname.to_string(),
            }),
            "accepted {nickname:?}"
        );
    }
}
