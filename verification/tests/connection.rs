use termirc::config::ServerConfig;
use termirc::connection::build_client_config;

fn server_config() -> ServerConfig {
    ServerConfig {
        username: "alice".to_string(),
        nickname: "alice_".to_string(),
        password: "secret".to_string(),
        server: "irc.example.org".to_string(),
        use_tls: false,
        port: 6667,
        channels: vec!["#osu".to_string(), "#chinese".to_string()],
        queries: vec![],
    }
}

#[test]
fn mod_maps_server_fields_onto_irc_config() {
    // Arrange
    let server = server_config();

    // Act
    let client_config = build_client_config(&server, &server.channels);

    // Assert
    assert_eq!(client_config.server.as_deref(), Some("irc.example.org"));
    assert_eq!(client_config.port, Some(6667));
    assert_eq!(client_config.nickname.as_deref(), Some("alice_"));
    assert_eq!(client_config.username.as_deref(), Some("alice"));
    assert_eq!(client_config.password.as_deref(), Some("secret"));
    assert_eq!(client_config.use_tls, Some(false));
}

#[test]
fn mod_joins_every_configured_channel() {
    // Arrange
    let server = server_config();

    // Act
    let client_config = build_client_config(&server, &server.channels);

    // Assert: both channels are joined, in config order.
    assert_eq!(client_config.channels, server.channels);
}

#[test]
fn mod_realname_defaults_to_nickname() {
    // Arrange
    let server = server_config();

    // Act
    let client_config = build_client_config(&server, &server.channels);

    // Assert
    assert_eq!(client_config.realname.as_deref(), Some("alice_"));
}
