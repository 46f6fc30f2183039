use std::time::SystemTime;

use termirc::connection::channels::Channels;
use termirc::model::{ChannelState, ChannelStatus, ConnectionCommand};
use termirc::protocol::ClientCommand;

fn registry() -> Channels {
    Channels::new(&["#First".into(), "#FIRST".into()], "srv", 100)
}

#[test]
fn runtime_intent_survives_sockets_but_parted_channels_do_not_rejoin() {
    let mut channels = registry();
    assert_eq!(channels.names(), vec!["#First"]);
    assert_eq!(channels.start(0).len(), 1);
    channels.joined("#first", 0);
    assert!(channels
        .request(&ConnectionCommand::Join("#dynamic".into()), true, 0)
        .is_some());
    channels.joined("#dynamic", 0);
    assert!(channels
        .request(
            &ConnectionCommand::Part {
                channel: "#FIRST".into(),
                reason: None
            },
            true,
            0
        )
        .is_some());
    channels.left("#First", false);
    channels.disconnected();
    assert_eq!(
        channels.start(0),
        vec![ClientCommand::Join("#dynamic".into())]
    );
}

#[test]
fn stale_join_confirmation_does_not_restore_cancelled_intent() {
    let mut channels = registry();
    channels.request(
        &ConnectionCommand::Part {
            channel: "#first".into(),
            reason: None,
        },
        false,
        0,
    );
    assert_eq!(
        channels.joined("#FIRST", 0),
        Some(ClientCommand::Part {
            channel: "#First".into(),
            reason: None
        })
    );
    assert_eq!(
        channels.entries[0].status,
        ChannelStatus {
            state: ChannelState::Parting,
            desired: false
        }
    );
    assert!(channels.joined("#first", 0).is_none());
}

#[test]
fn channel_deadlines_and_errors_are_scoped_to_the_operation() {
    let mut channels = registry();
    channels.start(0);
    let first_deadline = channels.deadline().unwrap();
    channels.request(&ConnectionCommand::Join("#later".into()), true, 0);
    channels.entries[1].deadline = Some(first_deadline + 1_000);
    channels.expire(first_deadline, SystemTime::now());
    assert_eq!(channels.entries[0].status.state, ChannelState::Uncertain);
    assert_eq!(channels.entries[1].status.state, ChannelState::Joining);
    channels.joined("#later", 0);
    channels.error(404, "#later");
    assert_eq!(channels.entries[1].status.state, ChannelState::Joined);
    channels.error(475, "#later");
    assert_eq!(channels.entries[1].status.state, ChannelState::Joined);
}

#[test]
fn channel_send_permission_waits_for_confirmation_and_stops_on_part() {
    let mut channels = registry();
    channels.start(0);
    assert!(!channels.can_send("#first"));
    channels.joined("#first", 0);
    assert!(channels.can_send("#FIRST"));
    channels.request(
        &ConnectionCommand::Part {
            channel: "#first".into(),
            reason: None,
        },
        true,
        0,
    );
    assert!(!channels.can_send("#First"));
    assert!(channels.can_send("alice"));
    assert!(!channels.can_send("#unknown"));
}
