use launchpi::hass_protocol::{
    auth, get_states, parse_server_message, states_of, subscribe_state_changed, ServerMessage,
    ServiceCall,
};
use launchpi::panels::JsonValue;

fn document(value: &serde_json::Value) -> JsonValue {
    match value {
        serde_json::Value::Null => JsonValue::Null,
        serde_json::Value::Bool(flag) => JsonValue::Bool(*flag),
        serde_json::Value::Number(number) => match number.as_i64() {
            Some(whole) => JsonValue::Integer(whole),
            None => JsonValue::Number(number.to_string()),
        },
        serde_json::Value::String(text) => JsonValue::Text(text.clone()),
        serde_json::Value::Array(items) => JsonValue::Array(items.iter().map(document).collect()),
        serde_json::Value::Object(fields) => JsonValue::Object(
            fields
                .iter()
                .map(|(key, value)| (key.clone(), document(value)))
                .collect(),
        ),
    }
}

fn frame(payload: &str) -> Result<ServerMessage, String> {
    let value: serde_json::Value =
        serde_json::from_str(payload).map_err(|error| format!("unreadable frame: {error}"))?;
    parse_server_message(&document(&value))
}

fn text(value: &str) -> JsonValue {
    JsonValue::Text(value.to_string())
}

fn object(members: Vec<(&str, JsonValue)>) -> JsonValue {
    JsonValue::Object(
        members
            .into_iter()
            .map(|(key, value)| (key.to_string(), value))
            .collect(),
    )
}

fn member<'a>(value: &'a JsonValue, key: &str) -> Option<&'a JsonValue> {
    match value {
        JsonValue::Object(fields) => fields
            .iter()
            .find(|(name, _)| name == key)
            .map(|(_, value)| value),
        _ => None,
    }
}

#[test]
fn the_handshake_frames_are_recognised() {
    assert_eq!(
        frame(r#"{"type":"auth_required","ha_version":"2026.7.1"}"#),
        Ok(ServerMessage::AuthRequired)
    );
    assert_eq!(
        frame(r#"{"type":"auth_ok","ha_version":"2026.7.1"}"#),
        Ok(ServerMessage::AuthOk)
    );
    assert_eq!(
        frame(r#"{"type":"auth_invalid","message":"Invalid access token"}"#),
        Ok(ServerMessage::AuthInvalid {
            message: "Invalid access token".to_string()
        })
    );
}

#[test]
fn a_state_changed_event_yields_the_new_state() {
    let payload = r#"{
        "id": 1,
        "type": "event",
        "event": {
            "event_type": "state_changed",
            "data": {
                "entity_id": "light.kitchen",
                "old_state": { "entity_id": "light.kitchen", "state": "off", "attributes": {} },
                "new_state": {
                    "entity_id": "light.kitchen",
                    "state": "on",
                    "attributes": { "rgb_color": [232, 185, 35], "brightness": 200 }
                }
            }
        }
    }"#;
    let ServerMessage::State(state) = frame(payload).expect("parses") else {
        panic!("a state_changed event carries a state");
    };
    assert_eq!(member(&state, "entity_id"), Some(&text("light.kitchen")));
    let attributes = member(&state, "attributes").expect("attributes");
    assert_eq!(member(attributes, "brightness"), Some(&JsonValue::Integer(200)));
}

#[test]
fn a_removed_entity_carries_no_state_and_is_ignored() {
    let payload = r#"{
        "id": 1,
        "type": "event",
        "event": {
            "event_type": "state_changed",
            "data": { "entity_id": "light.kitchen", "new_state": null }
        }
    }"#;
    assert_eq!(frame(payload), Ok(ServerMessage::Ignored));
}

#[test]
fn a_successful_result_carries_its_payload() {
    let payload = r#"{"id":2,"type":"result","success":true,"result":[{"entity_id":"light.kitchen","state":"on"}]}"#;
    let ServerMessage::Result { id, outcome } = frame(payload).expect("parses") else {
        panic!("a result frame parses as a result");
    };
    assert_eq!(id, 2);
    assert_eq!(states_of(&outcome.expect("succeeded")).len(), 1);
}

#[test]
fn a_failed_result_reads_as_the_reason_home_assistant_gave() {
    let payload = r#"{"id":3,"type":"result","success":false,"error":{"code":"not_found","message":"Service light.explode not found"}}"#;
    assert_eq!(
        frame(payload),
        Ok(ServerMessage::Result {
            id: 3,
            outcome: Err("Service light.explode not found (not_found)".to_string()),
        })
    );
}

#[test]
fn an_unknown_frame_is_ignored_rather_than_failing_the_connection() {
    assert_eq!(frame(r#"{"id":4,"type":"pong"}"#), Ok(ServerMessage::Ignored));
    assert!(frame("not json").is_err());
}

#[test]
fn a_result_without_an_id_is_refused() {
    assert_eq!(
        frame(r#"{"type":"result","success":true}"#),
        Err("a result arrived without an id".to_string())
    );
    assert_eq!(
        frame(r#"{"id":5,"type":"result"}"#),
        Ok(ServerMessage::Result {
            id: 5,
            outcome: Err("the request was refused".to_string()),
        })
    );
}

#[test]
fn the_commands_carry_the_shape_home_assistant_expects() {
    assert_eq!(
        auth("hunter2"),
        object(vec![("type", text("auth")), ("access_token", text("hunter2"))])
    );
    assert_eq!(
        subscribe_state_changed(1),
        object(vec![
            ("id", JsonValue::Integer(1)),
            ("type", text("subscribe_events")),
            ("event_type", text("state_changed")),
        ])
    );
    assert_eq!(
        get_states(2),
        object(vec![("id", JsonValue::Integer(2)), ("type", text("get_states"))])
    );
}

#[test]
fn a_service_call_targets_its_entity() {
    let mut call = ServiceCall::new("light", "turn_on");
    call.entity_id = Some("light.kitchen".to_string());
    call.service_data
        .push(("brightness_pct".to_string(), JsonValue::Integer(40)));

    assert_eq!(
        call.message(7),
        object(vec![
            ("id", JsonValue::Integer(7)),
            ("type", text("call_service")),
            ("domain", text("light")),
            ("service", text("turn_on")),
            (
                "service_data",
                object(vec![("brightness_pct", JsonValue::Integer(40))])
            ),
            ("target", object(vec![("entity_id", text("light.kitchen"))])),
        ])
    );
}

#[test]
fn a_service_call_without_a_target_omits_both_optional_fields() {
    assert_eq!(
        ServiceCall::new("script", "goodnight").message(8),
        object(vec![
            ("id", JsonValue::Integer(8)),
            ("type", text("call_service")),
            ("domain", text("script")),
            ("service", text("goodnight")),
        ])
    );
}

#[test]
fn only_state_objects_survive_a_get_states_result() {
    let result = JsonValue::Array(vec![
        object(vec![("entity_id", text("light.kitchen"))]),
        text("nonsense"),
        JsonValue::Null,
    ]);
    assert_eq!(states_of(&result).len(), 1);
    assert!(states_of(&JsonValue::Null).is_empty());
}

use launchpi::hass_session::{authentication_step, AuthStep, HassSession, SessionAction};

#[test]
fn the_handshake_sends_the_token_and_stops_on_a_verdict() {
    assert!(matches!(
        authentication_step(&ServerMessage::AuthRequired, "hunter2"),
        AuthStep::Send(frame) if frame == object(vec![("type", text("auth")), ("access_token", text("hunter2"))])
    ));
    assert!(matches!(
        authentication_step(&ServerMessage::AuthOk, "hunter2"),
        AuthStep::Authenticated
    ));
    assert!(matches!(
        authentication_step(&ServerMessage::AuthInvalid { message: "bad".to_string() }, "hunter2"),
        AuthStep::Rejected(reason) if reason == "bad"
    ));
    assert!(matches!(
        authentication_step(&ServerMessage::Ignored, "hunter2"),
        AuthStep::Wait
    ));
}

#[test]
fn answers_go_to_the_command_or_the_seed_that_asked() {
    let (mut session, frames) = HassSession::start();
    assert_eq!(frames[0], subscribe_state_changed(1));
    assert_eq!(frames[1], get_states(2));

    let (id, frame) = session.command(&ServiceCall::new("light", "toggle"));
    assert_eq!(id, 3);
    assert_eq!(frame, ServiceCall::new("light", "toggle").message(3));

    let answered = session.receive(ServerMessage::Result { id: 3, outcome: Ok(JsonValue::Null) });
    assert!(matches!(
        answered.as_slice(),
        [SessionAction::Respond { id: 3, outcome: Ok(JsonValue::Null) }]
    ));

    let seeded = session.receive(ServerMessage::Result {
        id: 2,
        outcome: Ok(JsonValue::Array(vec![
            object(vec![("entity_id", text("light.kitchen"))]),
            text("nonsense"),
        ])),
    });
    assert_eq!(seeded.len(), 1);
    assert!(matches!(&seeded[0], SessionAction::Publish(_)));

    // A second answer under a used id waits for nothing.
    assert!(session
        .receive(ServerMessage::Result { id: 2, outcome: Ok(JsonValue::Null) })
        .is_empty());
    let failed = session.receive(ServerMessage::Result { id: 9, outcome: Err("boom".to_string()) });
    assert!(matches!(failed.as_slice(), [SessionAction::Log(reason)] if reason == "boom"));

    assert_eq!(session.reseed(), get_states(4));
    assert!(session.has_fresh_id());
}
