use tfscale::protocol::RelayMessage;
use tfscale::relay::{first_message, session_message, undelivered_reply, RelayState, RouteDecision, SessionAction};

fn frame(source: &str, destination: &str, payload: &str) -> RelayMessage {
    RelayMessage::Frame {
        source_device_id: source.to_string(),
        destination_device_id: destination.to_string(),
        payload: payload.to_string(),
    }
}

#[test]
fn routes_frame_to_registered_destination() {
    let mut state = RelayState::new();
    assert!(!state.register("dev_a".to_string()), "first source registration");
    assert!(!state.register("dev_b".to_string()), "first destination registration");

    let action = session_message(frame("dev_a", "dev_b", "encrypted-frame"));
    let SessionAction::Route(message) = action else {
        panic!("expected frame");
    };
    let decision = state.route_decision(&message);
    let RouteDecision::Deliver(destination) = decision else {
        panic!("expected delivery");
    };
    state.record_route(true);

    assert_eq!(destination, "dev_b");
    let RelayMessage::Frame { source_device_id, destination_device_id, payload } = message else {
        panic!("expected frame");
    };
    assert_eq!(source_device_id, "dev_a");
    assert_eq!(destination_device_id, "dev_b");
    assert_eq!(payload, "encrypted-frame");
    assert_eq!(state.routed_frames, 1);
    assert_eq!(state.dropped_frames, 0);
}

#[test]
fn drops_frame_for_unknown_destination() {
    let mut state = RelayState::new();

    let decision = state.route_decision(&frame("dev_a", "dev_missing", "encrypted-frame"));
    let delivered = matches!(decision, RouteDecision::Deliver(_));
    state.record_route(delivered);

    assert!(!delivered);
    assert_eq!(state.routed_frames, 0);
    assert_eq!(state.dropped_frames, 1);
}

#[test]
fn second_registration_replaces_session() {
    let mut state = RelayState::new();

    assert!(!state.register("dev_a".to_string()));
    assert!(state.register("dev_a".to_string()));
    assert_eq!(state.sessions.len(), 1);
}

#[test]
fn unregistered_destination_is_dropped() {
    let mut state = RelayState::new();
    state.register("dev_b".to_string());
    state.unregister("dev_b");

    assert!(!state.is_registered("dev_b"));
    assert!(matches!(state.route_decision(&frame("dev_a", "dev_b", "x")), RouteDecision::Drop));
}

#[test]
fn non_frames_are_not_routed() {
    let state = RelayState::new();
    let message = RelayMessage::Error { message: "boom".to_string() };

    assert!(matches!(state.route_decision(&message), RouteDecision::NotAFrame));
}

#[test]
fn first_message_must_register() {
    let registered = first_message(RelayMessage::Register {
        device_id: "dev_a".to_string(),
        node_key: "node-key".to_string(),
    });
    assert_eq!(registered, Ok("dev_a".to_string()));

    let refused = first_message(frame("dev_a", "dev_b", "x"));
    assert_eq!(
        refused,
        Err(RelayMessage::Error { message: "first relay message must be register".to_string() })
    );
}

#[test]
fn session_refuses_second_register_and_ignores_errors() {
    let action = session_message(RelayMessage::Register {
        device_id: "dev_a".to_string(),
        node_key: "node-key".to_string(),
    });
    let SessionAction::Reply(reply) = action else {
        panic!("expected reply");
    };
    assert_eq!(reply, RelayMessage::Error { message: "session is already registered".to_string() });

    assert!(matches!(
        session_message(RelayMessage::Error { message: "x".to_string() }),
        SessionAction::Ignore
    ));
}

#[test]
fn undelivered_frame_names_destination() {
    assert_eq!(
        undelivered_reply("dev_missing"),
        RelayMessage::Error { message: "unknown destination device: dev_missing".to_string() }
    );
}

#[test]
fn relay_state_checks_that_each_device_is_registered_once() {
    let mut state = RelayState::new();
    assert!(state.is_well_formed());
    state.register("dev_a".to_string());
    state.register("dev_b".to_string());
    state.register("dev_a".to_string());
    assert!(state.is_well_formed());
    state.sessions.push("dev_b".to_string());
    assert!(!state.is_well_formed());
}
