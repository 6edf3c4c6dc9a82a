//! The decisions taken for one MQTT client entity as its connection reports events:
//! whether the entity holds a client, whether it is marked connected, and which
//! messages each report produces.

use vstd::prelude::*;
use vstd::string::StringExecFns;

verus! {

/// What the connection of a client reported.
#[derive(Debug, Clone, Copy, PartialEq, Eq, Structural)]
pub enum ClientEvent {
    /// A client was built for an entity that had settings but no client.
    Spawned,
    /// The broker acknowledged the connection.
    ConnAck,
    /// The broker sent a disconnect.
    Disconnect,
    /// The broker delivered a publish packet.
    Publish,
    /// Any other incoming or outgoing packet.
    OtherPacket,
    /// The connection failed.
    ConnectionError,
}

/// Which components describe the client on its entity.
#[derive(Debug, Clone, Copy, PartialEq, Eq, Structural)]
pub struct ClientStatus {
    /// The entity holds a client (and its channels).
    pub has_client: bool,
    /// The entity is marked connected.
    pub connected: bool,
}

/// The messages one report produces.
#[derive(Debug, Clone, Copy, PartialEq, Eq, Structural)]
pub struct ClientOutput {
    /// The raw event is forwarded.
    pub event: bool,
    /// The publish packet is forwarded for dispatch to subscriptions.
    pub publish: bool,
    /// A connection error is reported.
    pub connect_error: bool,
}

/// The status after `event`.
pub open spec fn next_status(status: ClientStatus, event: ClientEvent) -> ClientStatus {
    match event {
        ClientEvent::Spawned => ClientStatus { has_client: true, connected: status.connected },
        ClientEvent::ConnAck => ClientStatus { has_client: status.has_client, connected: true },
        ClientEvent::Disconnect => ClientStatus { has_client: status.has_client, connected: false },
        ClientEvent::ConnectionError => ClientStatus { has_client: false, connected: false },
        _ => status,
    }
}

/// The messages `event` produces: every packet event is forwarded, a publish is also
/// forwarded for dispatch, and a failure is reported as a connection error.
pub open spec fn output_of(event: ClientEvent) -> ClientOutput {
    ClientOutput {
        event: match event {
            ClientEvent::Spawned | ClientEvent::ConnectionError => false,
            _ => true,
        },
        publish: event == ClientEvent::Publish,
        connect_error: event == ClientEvent::ConnectionError,
    }
}

/// What is done to an entity's components to bring its status from one value to
/// another.
#[derive(Debug, Clone, Copy, PartialEq, Eq, Structural)]
pub enum StatusCommand {
    /// Insert a freshly built client.
    AddClient,
    /// Remove the client and the connected mark together.
    DropClient,
    /// Insert the connected mark.
    MarkConnected,
    /// Remove the connected mark.
    ClearMark,
    /// Leave the components as they are.
    Keep,
}

/// The status that `command` leaves an entity in.
pub open spec fn apply_command(status: ClientStatus, command: StatusCommand) -> ClientStatus {
    match command {
        StatusCommand::AddClient => ClientStatus { has_client: true, connected: status.connected },
        StatusCommand::DropClient => ClientStatus { has_client: false, connected: false },
        StatusCommand::MarkConnected => ClientStatus { has_client: status.has_client, connected: true },
        StatusCommand::ClearMark => ClientStatus { has_client: status.has_client, connected: false },
        StatusCommand::Keep => status,
    }
}

/// Whether an entity marked connected holds a client.
pub open spec fn mark_with_client(status: ClientStatus) -> bool {
    status.connected ==> status.has_client
}

/// The command that brings an entity's components from `before` to `after`, for every
/// change one event can make between statuses in which the connected mark goes with a
/// client.
pub fn status_command(before: ClientStatus, after: ClientStatus) -> (c: StatusCommand)
    ensures
        mark_with_client(before) && mark_with_client(after) && !(!before.has_client
            && after.connected) ==> apply_command(before, c) == after,
        before == after ==> c == StatusCommand::Keep,
{
    if before.has_client && !after.has_client {
        StatusCommand::DropClient
    } else if !before.has_client && after.has_client {
        StatusCommand::AddClient
    } else if after.connected && !before.connected {
        StatusCommand::MarkConnected
    } else if before.connected && !after.connected {
        StatusCommand::ClearMark
    } else {
        StatusCommand::Keep
    }
}

/// When a report can come: a client is spawned only for an entity without one, and
/// packets come only from a client the entity holds. Connection errors are drained from
/// the client's channel after its packets, so more than one can arrive in a frame, after
/// the first has already dropped the client.
pub open spec fn can_occur(status: ClientStatus, event: ClientEvent) -> bool {
    match event {
        ClientEvent::Spawned => !status.has_client,
        ClientEvent::ConnectionError => true,
        _ => status.has_client,
    }
}

/// Whether an event is a packet from the broker.
pub open spec fn is_packet(event: ClientEvent) -> bool {
    event != ClientEvent::Spawned && event != ClientEvent::ConnectionError
}

/// Whether an event sets or clears the connected mark.
pub open spec fn sets_mark(event: ClientEvent) -> bool {
    event == ClientEvent::ConnAck || event == ClientEvent::Disconnect || event
        == ClientEvent::ConnectionError
}

/// The status after `events`, in order.
pub open spec fn run(status: ClientStatus, events: Seq<ClientEvent>) -> ClientStatus
    decreases events.len(),
{
    if events.len() == 0 {
        status
    } else {
        next_status(run(status, events.drop_last()), events.last())
    }
}

/// The events `handle_mqtt_events` feeds for one client in one frame: its packets, then
/// `errors` connection errors.
pub open spec fn frame(packets: Seq<ClientEvent>, errors: nat) -> Seq<ClientEvent> {
    packets + Seq::new(errors, |i: int| ClientEvent::ConnectionError)
}

/// The status a reported event leaves the entity in, and the messages it produces.
pub fn step(status: ClientStatus, event: ClientEvent) -> (r: (ClientStatus, ClientOutput))
    ensures
        r.0 == next_status(status, event),
        r.1 == output_of(event),
{
    let next = match event {
        ClientEvent::Spawned => ClientStatus { has_client: true, connected: status.connected },
        ClientEvent::ConnAck => ClientStatus { has_client: status.has_client, connected: true },
        ClientEvent::Disconnect => ClientStatus { has_client: status.has_client, connected: false },
        ClientEvent::ConnectionError => ClientStatus { has_client: false, connected: false },
        _ => status,
    };
    let output = ClientOutput {
        event: match event {
            ClientEvent::Spawned | ClientEvent::ConnectionError => false,
            _ => true,
        },
        publish: match event {
            ClientEvent::Publish => true,
            _ => false,
        },
        connect_error: match event {
            ClientEvent::ConnectionError => true,
            _ => false,
        },
    };
    (next, output)
}

/// An entity is never marked connected without a client: every event that can occur
/// keeps that so.
pub proof fn lemma_connected_implies_client(status: ClientStatus, event: ClientEvent)
    requires
        status.connected ==> status.has_client,
        can_occur(status, event),
    ensures
        next_status(status, event).connected ==> next_status(status, event).has_client,
{
}

/// Every step an event that can occur makes from a status whose mark goes with a client
/// is one a single `status_command` carries out.
pub proof fn lemma_step_is_one_command(status: ClientStatus, event: ClientEvent)
    requires
        mark_with_client(status),
        can_occur(status, event),
    ensures
        mark_with_client(next_status(status, event)),
        !(!status.has_client && next_status(status, event).connected),
{
}

/// Over a run of events whose each event can occur where it comes, an entity is never
/// left marked connected without a client.
pub proof fn lemma_run_keeps_mark_with_client(status: ClientStatus, events: Seq<ClientEvent>)
    requires
        status.connected ==> status.has_client,
        forall|i: int|
            0 <= i < events.len() ==> can_occur(run(status, events.take(i)), #[trigger] events[i]),
    ensures
        run(status, events).connected ==> run(status, events).has_client,
    decreases events.len(),
{
    if events.len() > 0 {
        let front = events.drop_last();
        assert forall|i: int| 0 <= i < front.len() implies can_occur(
            run(status, front.take(i)),
            #[trigger] front[i],
        ) by {
            assert(front.take(i) =~= events.take(i));
            assert(front[i] == events[i]);
        }
        lemma_run_keeps_mark_with_client(status, front);
        assert(events.take(events.len() - 1) =~= front);
        assert(can_occur(run(status, events.take(events.len() - 1)), events[events.len() - 1]));
    }
}

/// The connected mark follows the last event that sets or clears it: a ConnAck leaves
/// the entity connected, a Disconnect or a connection error leaves it not connected.
pub proof fn lemma_connected_follows_last_mark(
    status: ClientStatus,
    events: Seq<ClientEvent>,
    i: int,
)
    requires
        0 <= i < events.len(),
        sets_mark(events[i]),
        forall|j: int| i < j < events.len() ==> !sets_mark(#[trigger] events[j]),
    ensures
        run(status, events).connected == (events[i] == ClientEvent::ConnAck),
    decreases events.len(),
{
    if i < events.len() - 1 {
        let front = events.drop_last();
        assert forall|j: int| i < j < front.len() implies !sets_mark(#[trigger] front[j]) by {
            assert(front[j] == events[j]);
        }
        lemma_connected_follows_last_mark(status, front, i);
        assert(!sets_mark(events[events.len() - 1]));
    }
}

/// Without an event that sets or clears it, the connected mark stays as it was.
pub proof fn lemma_connected_unchanged_without_mark(status: ClientStatus, events: Seq<ClientEvent>)
    requires
        forall|j: int| 0 <= j < events.len() ==> !sets_mark(#[trigger] events[j]),
    ensures
        run(status, events).connected == status.connected,
    decreases events.len(),
{
    if events.len() > 0 {
        let front = events.drop_last();
        assert forall|j: int| 0 <= j < front.len() implies !sets_mark(#[trigger] front[j]) by {
            assert(front[j] == events[j]);
        }
        lemma_connected_unchanged_without_mark(status, front);
        assert(!sets_mark(events[events.len() - 1]));
    }
}

/// Packets keep the client an entity holds.
proof fn lemma_packets_keep_client(status: ClientStatus, packets: Seq<ClientEvent>)
    requires
        forall|i: int| 0 <= i < packets.len() ==> is_packet(#[trigger] packets[i]),
    ensures
        run(status, packets).has_client == status.has_client,
    decreases packets.len(),
{
    if packets.len() > 0 {
        let front = packets.drop_last();
        assert forall|i: int| 0 <= i < front.len() implies is_packet(#[trigger] front[i]) by {
            assert(front[i] == packets[i]);
        }
        lemma_packets_keep_client(status, front);
        assert(is_packet(packets[packets.len() - 1]));
    }
}

/// One frame of a client's reports, whatever the entity's mark was before: without a
/// connection error the entity keeps its client; with one it ends with neither client nor
/// mark; either way it is never left marked connected without a client.
pub proof fn lemma_frame_keeps_mark_with_client(
    status: ClientStatus,
    packets: Seq<ClientEvent>,
    errors: nat,
)
    requires
        status.has_client,
        forall|i: int| 0 <= i < packets.len() ==> is_packet(#[trigger] packets[i]),
    ensures
        run(status, frame(packets, errors)).connected ==> run(status, frame(packets, errors)).has_client,
        errors == 0 ==> run(status, frame(packets, errors)).has_client,
        errors > 0 ==> !run(status, frame(packets, errors)).has_client && !run(
            status,
            frame(packets, errors),
        ).connected,
    decreases errors,
{
    if errors == 0 {
        assert(frame(packets, errors) =~= packets);
        lemma_packets_keep_client(status, packets);
    } else {
        let e = (errors - 1) as nat;
        lemma_frame_keeps_mark_with_client(status, packets, e);
        assert(frame(packets, errors).drop_last() =~= frame(packets, e));
        assert(frame(packets, errors).last() == ClientEvent::ConnectionError);
    }
}

/// A connection error drops the client and the connected mark together, and the next
/// spawn rebuilds a client that waits for the broker's acknowledgement.
pub proof fn lemma_error_then_reconnect(status: ClientStatus)
    ensures
        next_status(status, ClientEvent::ConnectionError) == (ClientStatus {
            has_client: false,
            connected: false,
        }),
        next_status(next_status(status, ClientEvent::ConnectionError), ClientEvent::Spawned) == (
        ClientStatus { has_client: true, connected: false }),
{
}

/// Publish packets and other packets never change which components the entity holds.
pub proof fn lemma_packets_keep_status(status: ClientStatus, event: ClientEvent)
    requires
        event == ClientEvent::Publish || event == ClientEvent::OtherPacket,
    ensures
        next_status(status, event) == status,
{
}

/// Whether the relay of a connection goes on after one notification: it goes on only
/// after an event that was handed over; a failure of the connection, or a receiver that
/// went away, ends it.
pub fn relay_continues(is_event: bool, delivered: bool) -> (b: bool)
    ensures
        b == (is_event && delivered),
{
    is_event && delivered
}

/// The text of the connection error that reports a panic of the relay: the panic's
/// message when it carried one, else a fixed notice.
pub fn panic_report(message: Option<&str>) -> (r: String)
    ensures
        r@ == "MQTT thread panicked: "@ + match message {
            Some(m) => m@,
            None => "Unknown panic occurred"@,
        },
{
    broadcast use vstd::string::group_string_axioms;
    let mut report = "MQTT thread panicked: ".to_string();
    match message {
        Some(m) => report.append(m),
        None => report.append("Unknown panic occurred"),
    }
    report
}

} // verus!
