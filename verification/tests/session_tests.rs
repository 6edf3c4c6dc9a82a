use bevy_mqtt::session::{status_command, StatusCommand};
use bevy_mqtt::routing::{append_route, client_positions, first_client};
use bevy_mqtt::session::{panic_report, relay_continues, step, ClientEvent, ClientOutput, ClientStatus};

fn status(has_client: bool, connected: bool) -> ClientStatus {
    ClientStatus { has_client, connected }
}

#[test]
fn connack_marks_connected() {
    let (s, o) = step(status(true, false), ClientEvent::ConnAck);
    assert_eq!(s, status(true, true));
    assert_eq!(o, ClientOutput { event: true, publish: false, connect_error: false });
}

#[test]
fn disconnect_keeps_client() {
    let (s, o) = step(status(true, true), ClientEvent::Disconnect);
    assert_eq!(s, status(true, false));
    assert!(o.event && !o.publish && !o.connect_error);
}

#[test]
fn publish_is_forwarded_for_dispatch() {
    let (s, o) = step(status(true, true), ClientEvent::Publish);
    assert_eq!(s, status(true, true));
    assert_eq!(o, ClientOutput { event: true, publish: true, connect_error: false });
    let (s2, o2) = step(status(true, false), ClientEvent::OtherPacket);
    assert_eq!(s2, status(true, false));
    assert_eq!(o2, ClientOutput { event: true, publish: false, connect_error: false });
}

#[test]
fn error_drops_client_and_spawn_rebuilds() {
    let (s, o) = step(status(true, true), ClientEvent::ConnectionError);
    assert_eq!(s, status(false, false));
    assert_eq!(o, ClientOutput { event: false, publish: false, connect_error: true });
    let (s2, o2) = step(s, ClientEvent::Spawned);
    assert_eq!(s2, status(true, false));
    assert_eq!(o2, ClientOutput { event: false, publish: false, connect_error: false });
}

#[test]
fn relay_stops_on_error_or_closed_channel() {
    assert!(relay_continues(true, true));
    assert!(!relay_continues(true, false));
    assert!(!relay_continues(false, true));
    assert!(!relay_continues(false, false));
}

#[test]
fn panic_report_text() {
    assert_eq!(panic_report(Some("boom")), "MQTT thread panicked: boom");
    assert_eq!(panic_report(None), "MQTT thread panicked: Unknown panic occurred");
}

#[test]
fn route_lists_entity_then_ancestors() {
    let mut targets = vec![1u64];
    append_route(&mut targets, 7, &vec![8, 9]);
    assert_eq!(targets, vec![1, 7, 8, 9]);
    append_route(&mut targets, 3, &vec![]);
    assert_eq!(targets, vec![1, 7, 8, 9, 3]);
}

#[test]
fn nearest_client_is_chosen() {
    assert_eq!(first_client(&vec![false, true, true]), Some(1));
    assert_eq!(first_client(&vec![false, false]), None);
    assert_eq!(first_client(&vec![]), None);
}

#[test]
fn every_client_on_path_is_listed() {
    assert_eq!(client_positions(&vec![true, false, true, true]), vec![0, 2, 3]);
    assert_eq!(client_positions(&vec![false]), Vec::<usize>::new());
}

#[test]
fn connected_mark_follows_last_connack_or_disconnect() {
    let mut s = status(false, false);
    for e in [
        ClientEvent::Spawned,
        ClientEvent::ConnAck,
        ClientEvent::Publish,
        ClientEvent::Disconnect,
        ClientEvent::OtherPacket,
        ClientEvent::ConnAck,
        ClientEvent::Publish,
    ] {
        s = step(s, e).0;
    }
    assert_eq!(s, status(true, true));
    for e in [ClientEvent::ConnectionError, ClientEvent::ConnectionError] {
        s = step(s, e).0;
    }
    assert_eq!(s, status(false, false));
}

#[test]
fn status_commands_carry_out_steps() {
    assert_eq!(status_command(status(false, false), status(true, false)), StatusCommand::AddClient);
    assert_eq!(status_command(status(true, true), status(false, false)), StatusCommand::DropClient);
    assert_eq!(status_command(status(true, false), status(true, true)), StatusCommand::MarkConnected);
    assert_eq!(status_command(status(true, true), status(true, false)), StatusCommand::ClearMark);
    assert_eq!(status_command(status(true, true), status(true, true)), StatusCommand::Keep);
}
