use std::collections::BTreeMap;

use launchpi::hass::{
    definitions, from_catalogue, manifest, parse_binding, parse_color, state_field, websocket_url, CatalogueEntry,
    CALL_SERVICE, LIGHT_SET_COLOR, LIGHT_TOGGLE, LIGHT_TURN_OFF, LIGHT_TURN_ON,
};
use launchpi::panels::{Action, ColorBinding, JsonValue};
use launchpi::preset::Preset;

#[test]
fn a_plain_address_becomes_the_websocket_endpoint() {
    assert_eq!(
        websocket_url("http://homeassistant.local:8123"),
        Ok("ws://homeassistant.local:8123/api/websocket".to_string())
    );
    assert_eq!(
        websocket_url("https://home.example.com/"),
        Ok("wss://home.example.com/api/websocket".to_string())
    );
}

#[test]
fn a_websocket_scheme_is_accepted_as_written() {
    assert_eq!(
        websocket_url("ws://10.0.0.4:8123"),
        Ok("ws://10.0.0.4:8123/api/websocket".to_string())
    );
    assert_eq!(
        websocket_url("wss://home.example.com"),
        Ok("wss://home.example.com/api/websocket".to_string())
    );
}

#[test]
fn a_pasted_endpoint_is_not_doubled() {
    assert_eq!(
        websocket_url("http://homeassistant.local:8123/api/websocket"),
        Ok("ws://homeassistant.local:8123/api/websocket".to_string())
    );
}

#[test]
fn an_address_without_a_scheme_says_what_is_missing() {
    let error = websocket_url("homeassistant.local:8123").expect_err("needs a scheme");
    assert!(error.contains("scheme"), "{error}");
}

#[test]
fn an_unusable_address_is_rejected() {
    assert!(websocket_url("").is_err());
    assert!(websocket_url("ftp://home.example.com").is_err());
    assert!(websocket_url("http://").is_err());
}

#[test]
fn websocket_errors_name_what_is_wrong() {
    assert_eq!(websocket_url("  /// "), Err("url is required".to_string()));
    assert_eq!(
        websocket_url("FTP://home"),
        Err("ftp:// is not a Home Assistant address; use http:// or https://".to_string())
    );
    assert_eq!(
        websocket_url("http:///api/websocket"),
        Err("http:///api/websocket has no host".to_string())
    );
    assert_eq!(
        websocket_url("  HTTPS://Home.Example.com:8123///  "),
        Ok("wss://Home.Example.com:8123/api/websocket".to_string())
    );
}

#[test]
fn every_declared_action_has_parameters_the_web_form_can_render() {
    for definition in manifest().actions {
        assert!(
            !definition.parameters.is_empty(),
            "{} has no parameters",
            definition.name
        );
    }
    assert!(manifest()
        .config_schema
        .iter()
        .any(|field| field.key == "token" && field.is_secret()));
}

#[test]
fn the_declared_actions_are_the_service_call_and_the_light_shortcuts() {
    let names: Vec<String> = definitions().into_iter().map(|action| action.name).collect();
    assert_eq!(
        names,
        [CALL_SERVICE, LIGHT_TOGGLE, LIGHT_TURN_ON, LIGHT_TURN_OFF, LIGHT_SET_COLOR]
    );
    let set_color = definitions().pop().expect("five actions");
    assert!(set_color.parameters[1].is_required);
    assert_eq!(set_color.parameters[1].key, "color");
}

fn catalogue(entries: &[(&str, Option<&str>)]) -> Vec<(String, CatalogueEntry)> {
    let sorted: BTreeMap<String, CatalogueEntry> = entries
        .iter()
        .map(|(entity_id, friendly_name)| {
            (
                (*entity_id).to_string(),
                CatalogueEntry {
                    friendly_name: friendly_name.map(str::to_string),
                    domain: entity_id.split('.').next().unwrap_or_default().to_string(),
                },
            )
        })
        .collect();
    sorted.into_iter().collect()
}

fn only(entity_id: &str, friendly_name: &str) -> Preset {
    from_catalogue(&catalogue(&[(entity_id, Some(friendly_name))]))
        .pop()
        .unwrap_or_else(|| panic!("{entity_id} is worth a key"))
}

fn member<'a>(value: &'a JsonValue, key: &str) -> Option<&'a JsonValue> {
    match value {
        JsonValue::Object(fields) => fields
            .iter()
            .find(|(name, _)| name == key)
            .map(|(_, value)| value),
        _ => None,
    }
}

fn text(value: Option<&JsonValue>) -> Option<&str> {
    match value {
        Some(JsonValue::Text(text)) => Some(text.as_str()),
        _ => None,
    }
}

fn pressed(preset: &Preset) -> (&str, &JsonValue) {
    let Action::InvokeIntegration {
        integration_id,
        action_name,
        parameters,
    } = &preset.control.action_bindings[0].actions[0]
    else {
        panic!("a preset presses its own instance");
    };
    assert_eq!(integration_id.0, "self");
    (action_name, parameters)
}

#[test]
fn an_entity_that_cannot_be_pressed_is_not_offered_a_key() {
    let offered = from_catalogue(&catalogue(&[
        ("sensor.outside_temp", Some("Outside")),
        ("binary_sensor.front_door", Some("Front Door")),
        ("update.esphome_kitchen", Some("Kitchen Update")),
        ("button.kitchen_identify", Some("Identify")),
        ("device_tracker.phone", Some("Phone")),
        ("light.kitchen", Some("Kitchen")),
    ]));

    let ids: Vec<_> = offered
        .iter()
        .map(|preset| preset.preset_id.as_str())
        .collect();
    assert_eq!(ids, ["light.kitchen"]);
}

#[test]
fn a_light_toggles_and_outlines_itself_in_its_own_colour() {
    let preset = only("light.kitchen", "Kitchen");
    let state = &preset.control.default_state;

    assert_eq!(
        state.text.as_deref(),
        Some("Kitchen\n$(self:light.kitchen.state)")
    );
    assert_eq!(
        state.border.as_ref().map(|border| &border.color),
        Some(&ColorBinding::Reference(
            "$(self:light.kitchen.color)".to_string()
        ))
    );

    let (action_name, parameters) = pressed(&preset);
    assert_eq!(action_name, LIGHT_TOGGLE);
    assert_eq!(text(member(parameters, "entity_id")), Some("light.kitchen"));
}

#[test]
fn only_a_light_is_outlined_in_a_colour_it_actually_reports() {
    for entity_id in ["switch.desk_lamp", "fan.purifier", "scene.movie"] {
        assert_eq!(
            only(entity_id, "Anything").control.default_state.border,
            None,
            "{entity_id} does not report a colour"
        );
    }
}

#[test]
fn a_domain_without_a_light_shortcut_is_pressed_through_call_service() {
    let preset = only("switch.desk_lamp", "Desk Lamp");
    let (action_name, parameters) = pressed(&preset);

    assert_eq!(action_name, CALL_SERVICE);
    assert_eq!(text(member(parameters, "domain")), Some("switch"));
    assert_eq!(text(member(parameters, "service")), Some("toggle"));
    assert_eq!(text(member(parameters, "entity_id")), Some("switch.desk_lamp"));
}

#[test]
fn a_scene_and_a_script_run_rather_than_reporting_a_state() {
    for (entity_id, service) in [("scene.movie", "turn_on"), ("script.arm_home", "turn_on")] {
        let preset = only(entity_id, "Named");
        assert_eq!(preset.control.default_state.text.as_deref(), Some("Named"));

        let (_, parameters) = pressed(&preset);
        assert_eq!(text(member(parameters, "service")), Some(service));
    }
}

#[test]
fn a_media_player_key_plays_and_pauses_and_shows_what_it_is_doing() {
    let preset = only("media_player.study", "Study");
    assert_eq!(
        preset.control.default_state.text.as_deref(),
        Some("Study\n$(self:media_player.study.state)")
    );

    let (_, parameters) = pressed(&preset);
    assert_eq!(text(member(parameters, "service")), Some("media_play_pause"));
}

#[test]
fn an_entity_with_no_friendly_name_is_labelled_with_its_id() {
    let preset = from_catalogue(&catalogue(&[("light.kitchen", None)]))
        .pop()
        .expect("a light is offered whether or not it is named");
    assert_eq!(preset.name, "light.kitchen");
    assert_eq!(
        preset.control.default_state.text.as_deref(),
        Some("light.kitchen\n$(self:light.kitchen.state)")
    );
}

#[test]
fn a_preset_is_identified_by_its_entity_so_a_republish_keeps_its_place() {
    let before = from_catalogue(&catalogue(&[
        ("light.kitchen", Some("Kitchen")),
        ("switch.desk_lamp", Some("Desk Lamp")),
    ]));
    let after = from_catalogue(&catalogue(&[
        ("light.hall", Some("Hall")),
        ("light.kitchen", Some("Kitchen")),
        ("switch.desk_lamp", Some("Desk Lamp")),
    ]));

    assert_eq!(
        before
            .iter()
            .map(|preset| preset.preset_id.as_str())
            .collect::<Vec<_>>(),
        ["light.kitchen", "switch.desk_lamp"]
    );
    assert_eq!(
        after
            .iter()
            .map(|preset| preset.preset_id.as_str())
            .collect::<Vec<_>>(),
        ["light.hall", "light.kitchen", "switch.desk_lamp"]
    );
}

#[test]
fn a_name_splits_into_an_entity_and_a_field() {
    let binding = parse_binding("light.kitchen.color").expect("parses");
    assert_eq!(binding.name, "light.kitchen.color");
    assert_eq!(binding.entity_id, "light.kitchen");
    assert_eq!(binding.field, "color");
}

#[test]
fn a_bare_entity_id_reads_its_state() {
    let binding = parse_binding("sensor.outside_temp").expect("an entity id is a value name");
    assert_eq!(binding.entity_id, "sensor.outside_temp");
    assert_eq!(binding.field, "state");
}

#[test]
fn a_field_keeps_every_segment_past_the_entity_id() {
    let binding =
        parse_binding("sensor.outside_temp.attributes.unit_of_measurement").expect("parses");
    assert_eq!(binding.entity_id, "sensor.outside_temp");
    assert_eq!(binding.field, "attributes.unit_of_measurement");
}

#[test]
fn a_name_that_is_not_an_entity_reference_is_ignored() {
    assert!(parse_binding("kitchen").is_none());
    assert!(parse_binding("light.").is_none());
    assert!(parse_binding(".kitchen").is_none());
    assert!(parse_binding("light.kitchen.").is_none());
    assert!(parse_binding("light..color").is_none());
}

fn json_text(value: &str) -> JsonValue {
    JsonValue::Text(value.to_string())
}

fn kitchen_light_state() -> JsonValue {
    JsonValue::Object(vec![
        ("entity_id".to_string(), json_text("light.kitchen")),
        ("state".to_string(), json_text("on")),
        (
            "attributes".to_string(),
            JsonValue::Object(vec![
                ("friendly_name".to_string(), json_text("Kitchen")),
                ("brightness".to_string(), JsonValue::Integer(128)),
                ("supported_color_modes".to_string(), JsonValue::Array(vec![json_text("hs")])),
                ("state".to_string(), json_text("shadowed")),
            ]),
        ),
        ("last_changed".to_string(), json_text("2026-07-25T10:00:00.000000+00:00")),
    ])
}

#[test]
fn a_state_field_reads_attributes_with_or_without_their_prefix() {
    let state = kitchen_light_state();
    assert_eq!(state_field(&state, "friendly_name"), Some(&json_text("Kitchen")));
    assert_eq!(state_field(&state, "attributes.supported_color_modes.0"), Some(&json_text("hs")));
    assert_eq!(state_field(&state, "brightness"), Some(&JsonValue::Integer(128)));
}

#[test]
fn a_state_field_falls_back_to_the_top_level_and_attributes_win() {
    let state = kitchen_light_state();
    assert_eq!(
        state_field(&state, "last_changed"),
        Some(&json_text("2026-07-25T10:00:00.000000+00:00"))
    );
    assert_eq!(state_field(&state, "state"), Some(&json_text("shadowed")));
}

#[test]
fn a_state_field_that_is_not_there_reads_nothing() {
    let state = kitchen_light_state();
    assert_eq!(state_field(&state, "nonsense"), None);
    assert_eq!(state_field(&state, "supported_color_modes.1"), None);
    assert_eq!(state_field(&state, "friendly_name."), None);
    let bare = JsonValue::Object(vec![("state".to_string(), json_text("on"))]);
    assert_eq!(state_field(&bare, "state"), None);
}

#[test]
fn a_light_colour_reads_as_hex_or_as_three_bytes() {
    let amber = launchpi::panels::RgbaColor { red: 232, green: 185, blue: 35, alpha: 255 };
    assert_eq!(parse_color("#e8b923"), Some(amber));
    assert_eq!(parse_color("232, 185, 35"), Some(amber));
    assert_eq!(parse_color(" +5 ,0,0"), Some(launchpi::panels::RgbaColor { red: 5, green: 0, blue: 0, alpha: 255 }));
}

#[test]
fn anything_else_is_not_a_light_colour() {
    assert_eq!(parse_color("1,2"), None);
    assert_eq!(parse_color("1,2,3,4"), None);
    assert_eq!(parse_color("300,0,0"), None);
    assert_eq!(parse_color("red"), None);
    assert_eq!(parse_color("1,,3"), None);
}
