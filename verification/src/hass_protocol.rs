//! The frames of Home Assistant's WebSocket API: what a frame from the
//! server means, and the commands the daemon sends.

use vstd::prelude::*;
use crate::json::{copy_json, copy_members, field, field_of, flag_of, get, get_flag, get_text, same_json, text_of};
use crate::panels::JsonValue;
use crate::text::{decimal, decimal_text, owned, str_eq};

verus! {

/// What one frame from Home Assistant means.
#[derive(Debug, PartialEq, Eq)]
pub enum ServerMessage {
    AuthRequired,
    AuthOk,
    AuthInvalid { message: String },
    /// The new state carried by a `state_changed` event.
    State(JsonValue),
    /// The answer to the command sent under `id`.
    Result { id: u64, outcome: Result<JsonValue, String> },
    Ignored,
}

/// A frame's `type`, or nothing when it has none.
pub open spec fn frame_type(frame: JsonValue) -> Seq<char> {
    match text_of(field(frame, "type"@)) {
        Some(t) => t,
        None => ""@,
    }
}

/// The `new_state` of an event frame's data.
pub open spec fn new_state_of(frame: JsonValue) -> Option<JsonValue> {
    field_of(field_of(field(frame, "event"@), "data"@), "new_state"@)
}

/// A frame's `id`, when it is a whole number that is not negative.
pub open spec fn frame_id(frame: JsonValue) -> Option<u64> {
    match field(frame, "id"@) {
        Some(JsonValue::Integer(n)) => if n >= 0 {
            Some(n as u64)
        } else {
            None
        },
        _ => None,
    }
}

/// Why a command failed: the error's message, or a stock reason, followed by
/// the error's code in brackets when it has one.
pub open spec fn result_error_spec(frame: JsonValue) -> Seq<char> {
    let error = field(frame, "error"@);
    let reason = match text_of(field_of(error, "message"@)) {
        Some(r) => r,
        None => "the request was refused"@,
    };
    match text_of(field_of(error, "code"@)) {
        Some(code) => reason + " ("@ + code + ")"@,
        None => reason,
    }
}

/// The message an `auth_invalid` frame gives, or a stock one.
pub open spec fn rejection_spec(frame: JsonValue) -> Seq<char> {
    match text_of(field(frame, "message"@)) {
        Some(m) => m,
        None => "the access token was rejected"@,
    }
}

/// Whether `outcome` is what a `result` frame reports: its `result`, or
/// null, when `success` is true; why it failed otherwise.
pub open spec fn outcome_of(frame: JsonValue, outcome: Result<JsonValue, String>) -> bool {
    if flag_of(field(frame, "success"@)) {
        outcome matches Ok(payload) && match field(frame, "result"@) {
            Some(result) => same_json(result, payload),
            None => payload == JsonValue::Null,
        }
    } else {
        outcome matches Err(reason) && reason@ == result_error_spec(frame)
    }
}

/// Whether `message` is what a frame means, for a frame that reads as one.
pub open spec fn means(frame: JsonValue, message: ServerMessage) -> bool {
    let t = frame_type(frame);
    if t == "auth_required"@ {
        message is AuthRequired
    } else if t == "auth_ok"@ {
        message is AuthOk
    } else if t == "auth_invalid"@ {
        message matches ServerMessage::AuthInvalid { message } && message@ == rejection_spec(frame)
    } else if t == "event"@ {
        if new_state_of(frame) matches Some(JsonValue::Object(_)) {
            message matches ServerMessage::State(state) && same_json(new_state_of(frame)->0, state)
        } else {
            message is Ignored
        }
    } else if t == "result"@ {
        message matches ServerMessage::Result { id, outcome } && frame_id(frame) == Some(id) && outcome_of(
            frame,
            outcome,
        )
    } else {
        message is Ignored
    }
}

fn result_error(frame: &JsonValue) -> (reason: String)
    ensures
        reason@ == result_error_spec(*frame),
{
    let (reason, code) = match get(frame, "error") {
        Some(error) => {
            let reason = match get_text(error, "message") {
                Some(text) => owned(text.as_str()),
                None => owned("the request was refused"),
            };
            (reason, get_text(error, "code"))
        },
        None => (owned("the request was refused"), None),
    };
    match code {
        Some(code) => {
            let mut text = reason;
            text.push_str(" (");
            text.push_str(code.as_str());
            text.push_str(")");
            text
        },
        None => reason,
    }
}

/// What a frame from Home Assistant means. A `result` frame without an id
/// is refused; a frame of any type not listed is ignored.
pub fn parse_server_message(frame: &JsonValue) -> (parsed: Result<ServerMessage, String>)
    ensures
        match parsed {
            Ok(message) => means(*frame, message),
            Err(reason) => frame_type(*frame) == "result"@ && frame_id(*frame) is None && reason@
                == "a result arrived without an id"@,
        },
        frame_type(*frame) != "result"@ || frame_id(*frame) is Some ==> parsed is Ok,
{
    let frame_type = match get_text(frame, "type") {
        Some(t) => t.as_str(),
        None => "",
    };
    proof {
        reveal_strlit("");
    }
    if str_eq(frame_type, "auth_required") {
        Ok(ServerMessage::AuthRequired)
    } else if str_eq(frame_type, "auth_ok") {
        Ok(ServerMessage::AuthOk)
    } else if str_eq(frame_type, "auth_invalid") {
        let message = match get_text(frame, "message") {
            Some(text) => owned(text.as_str()),
            None => owned("the access token was rejected"),
        };
        Ok(ServerMessage::AuthInvalid { message })
    } else if str_eq(frame_type, "event") {
        let new_state = match get(frame, "event") {
            Some(event) => match get(event, "data") {
                Some(data) => get(data, "new_state"),
                None => None,
            },
            None => None,
        };
        match new_state {
            Some(state) => match state {
                JsonValue::Object(_) => Ok(ServerMessage::State(copy_json(state))),
                _ => Ok(ServerMessage::Ignored),
            },
            None => Ok(ServerMessage::Ignored),
        }
    } else if str_eq(frame_type, "result") {
        let id = match get(frame, "id") {
            Some(JsonValue::Integer(n)) => if *n >= 0 {
                *n as u64
            } else {
                return Err(owned("a result arrived without an id"));
            },
            _ => return Err(owned("a result arrived without an id")),
        };
        let outcome = if get_flag(frame, "success") {
            match get(frame, "result") {
                Some(result) => Ok(copy_json(result)),
                None => Ok(JsonValue::Null),
            }
        } else {
            Err(result_error(frame))
        };
        Ok(ServerMessage::Result { id, outcome })
    } else {
        Ok(ServerMessage::Ignored)
    }
}

/// Whether `value` is the command id `id` as JSON: a whole number, written as
/// number text when it is too large for `Integer`.
pub open spec fn is_id(value: JsonValue, id: u64) -> bool {
    match value {
        JsonValue::Integer(n) => id <= i64::MAX && n == id as i64,
        JsonValue::Number(text) => id > i64::MAX && text@ == decimal(id as nat),
        _ => false,
    }
}

fn id_value(id: u64) -> (value: JsonValue)
    ensures
        is_id(value, id),
{
    if id <= i64::MAX as u64 {
        JsonValue::Integer(id as i64)
    } else {
        JsonValue::Number(decimal_text(id))
    }
}

/// A member whose value is text.
fn text_member(key: &str, text: &str) -> (entry: (String, JsonValue))
    ensures
        entry.0@ == key@,
        entry.1 matches JsonValue::Text(t) && t@ == text@,
{
    (owned(key), JsonValue::Text(owned(text)))
}

/// The frame that authenticates with `token`: `type` `auth` and the
/// `access_token`.
pub fn auth(token: &str) -> (frame: JsonValue)
    ensures
        frame matches JsonValue::Object(members) && members@.len() == 2 && members@[0].0@ == "type"@
            && (members@[0].1 matches JsonValue::Text(t) && t@ == "auth"@) && members@[1].0@ == "access_token"@
            && (members@[1].1 matches JsonValue::Text(t) && t@ == token@),
{
    let mut members: Vec<(String, JsonValue)> = Vec::new();
    members.push(text_member("type", "auth"));
    members.push(text_member("access_token", token));
    JsonValue::Object(members)
}

/// The frame that subscribes, under `id`, to every change of state:
/// `subscribe_events` for `state_changed`.
pub fn subscribe_state_changed(id: u64) -> (frame: JsonValue)
    ensures
        frame matches JsonValue::Object(members) && members@.len() == 3 && members@[0].0@ == "id"@
            && is_id(members@[0].1, id) && members@[1].0@ == "type"@ && (members@[1].1 matches JsonValue::Text(
            t,
        ) && t@ == "subscribe_events"@) && members@[2].0@ == "event_type"@ && (members@[2].1 matches JsonValue::Text(
            t,
        ) && t@ == "state_changed"@),
{
    let mut members: Vec<(String, JsonValue)> = Vec::new();
    members.push((owned("id"), id_value(id)));
    members.push(text_member("type", "subscribe_events"));
    members.push(text_member("event_type", "state_changed"));
    JsonValue::Object(members)
}

/// The frame that asks, under `id`, for every entity's state.
pub fn get_states(id: u64) -> (frame: JsonValue)
    ensures
        frame matches JsonValue::Object(members) && members@.len() == 2 && members@[0].0@ == "id"@
            && is_id(members@[0].1, id) && members@[1].0@ == "type"@ && (members@[1].1 matches JsonValue::Text(
            t,
        ) && t@ == "get_states"@),
{
    let mut members: Vec<(String, JsonValue)> = Vec::new();
    members.push((owned("id"), id_value(id)));
    members.push(text_member("type", "get_states"));
    JsonValue::Object(members)
}

/// The objects among the items of a `get_states` result, in order.
pub open spec fn state_objects(items: Seq<JsonValue>) -> Seq<JsonValue> {
    items.filter(|item: JsonValue| item is Object)
}

/// The states a `get_states` result carries: its items that are objects;
/// nothing when it is not an array.
pub fn states_of(result: &JsonValue) -> (states: Vec<JsonValue>)
    ensures
        states@.len() == (match *result {
            JsonValue::Array(items) => state_objects(items@).len(),
            _ => 0,
        }),
        result matches JsonValue::Array(items) ==> forall|i: int|
            0 <= i < states@.len() ==> same_json(state_objects(items@)[i], #[trigger] states@[i]),
{
    let mut states: Vec<JsonValue> = Vec::new();
    match result {
        JsonValue::Array(items) => {
            let mut i: usize = 0;
            while i < items.len()
                invariant
                    i <= items@.len(),
                    states@.len() == state_objects(items@.take(i as int)).len(),
                    forall|j: int|
                        0 <= j < states@.len() ==> same_json(state_objects(items@.take(i as int))[j], #[trigger] states@[j]),
                decreases items.len() - i,
            {
                let ghost before = items@.take(i as int);
                assert(items@.take(i + 1).drop_last() =~= before);
                assert(items@.take(i + 1).last() == items@[i as int]);
                proof {
                    reveal(Seq::filter);
                }
                match &items[i] {
                    JsonValue::Object(_) => {
                        states.push(copy_json(&items[i]));
                    },
                    _ => {},
                }
                i += 1;
            }
            assert(items@.take(items@.len() as int) =~= items@);
        },
        _ => {},
    }
    states
}

/// The frame that sends `call` under `id`: the id, the type
/// `call_service`, the domain and service, then the service data when there
/// is any, then the target entity when there is one.
pub open spec fn is_service_frame(call: ServiceCall, id: u64, frame: JsonValue) -> bool {
    frame matches JsonValue::Object(members) && {
        let data = call.service_data@.len() > 0;
        let extra = (if data { 1int } else { 0int }) + (if call.entity_id is Some { 1int } else { 0int });
        &&& members@.len() == 4 + extra
        &&& members@[0].0@ == "id"@ && is_id(members@[0].1, id)
        &&& members@[1].0@ == "type"@ && (members@[1].1 matches JsonValue::Text(t) && t@ == "call_service"@)
        &&& members@[2].0@ == "domain"@ && (members@[2].1 matches JsonValue::Text(t) && t@ == call.domain@)
        &&& members@[3].0@ == "service"@ && (members@[3].1 matches JsonValue::Text(t) && t@ == call.service@)
        &&& data ==> members@[4].0@ == "service_data"@ && same_json(
            JsonValue::Object(call.service_data),
            members@[4].1,
        )
        &&& call.entity_id matches Some(entity) ==> {
            let target = members@[members@.len() - 1];
            &&& target.0@ == "target"@
            &&& target.1 matches JsonValue::Object(inner) && inner@.len() == 1 && inner@[0].0@ == "entity_id"@
                && (inner@[0].1 matches JsonValue::Text(t) && t@ == entity@)
        }
    }
}

/// A call of a Home Assistant service, optionally aimed at one entity.
#[derive(Debug, PartialEq, Eq)]
pub struct ServiceCall {
    pub domain: String,
    pub service: String,
    pub entity_id: Option<String>,
    pub service_data: Vec<(String, JsonValue)>,
}

impl ServiceCall {
    /// A call of `domain`.`service` with no target and no data.
    pub fn new(domain: &str, service: &str) -> (call: ServiceCall)
        ensures
            call.domain@ == domain@,
            call.service@ == service@,
            call.entity_id is None,
            call.service_data@.len() == 0,
    {
        ServiceCall { domain: owned(domain), service: owned(service), entity_id: None, service_data: Vec::new() }
    }

    /// The frame that makes the call under `id`: `call_service` with the
    /// domain and service, then the service data when there is any, then the
    /// target entity when there is one.
    pub fn message(&self, id: u64) -> (frame: JsonValue)
        ensures
            is_service_frame(*self, id, frame),
    {
        let mut members: Vec<(String, JsonValue)> = Vec::new();
        members.push((owned("id"), id_value(id)));
        members.push(text_member("type", "call_service"));
        members.push(text_member("domain", self.domain.as_str()));
        members.push(text_member("service", self.service.as_str()));
        if self.service_data.len() > 0 {
            let copy = JsonValue::Object(copy_members(&self.service_data));
            members.push((owned("service_data"), copy));
        }
        match &self.entity_id {
            Some(entity) => {
                let mut inner: Vec<(String, JsonValue)> = Vec::new();
                inner.push(text_member("entity_id", entity.as_str()));
                members.push((owned("target"), JsonValue::Object(inner)));
            },
            None => {},
        }
        JsonValue::Object(members)
    }
}

} // verus!
