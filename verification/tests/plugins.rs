use launchpi::catalogue::{
    display_name, is_known_plugin_type, plugin_types, status_after_start, status_before_start,
};
use launchpi::gestures::gesture_plan;
use launchpi::http::{body_text, extract_value};
use launchpi::identifiers::{ControlId, IntegrationId, PanelId};
use launchpi::instance::PluginInstanceStatus;
use launchpi::manifest::ConfigFieldKind;
use launchpi::panels::{
    Action, ActionBinding, ActionTrigger, Control, JsonValue, RenderedState, RgbaColor,
    SurfacePosition,
};
use launchpi::prometheus::{first_sample, presets, scraped_samples};

fn object(members: Vec<(&str, JsonValue)>) -> JsonValue {
    JsonValue::Object(
        members
            .into_iter()
            .map(|(key, value)| (key.to_string(), value))
            .collect(),
    )
}

fn text(value: &str) -> JsonValue {
    JsonValue::Text(value.to_string())
}

#[test]
fn registry_contains_prometheus() {
    let types = plugin_types();
    assert!(
        types.contains(&"prometheus"),
        "registry must contain prometheus; found: {:?}",
        types
    );
}

#[test]
fn an_instance_of_an_unknown_type_does_not_start() {
    assert!(is_known_plugin_type("hass"));
    assert!(!is_known_plugin_type("telnet"));
    assert_eq!(
        status_before_start(false, "hass"),
        Some(PluginInstanceStatus::Disabled)
    );
    assert_eq!(
        status_before_start(true, "telnet"),
        Some(PluginInstanceStatus::Error {
            reason: "telnet is not a plugin type this daemon knows".to_string()
        })
    );
    assert_eq!(status_before_start(true, "system"), None);
    assert_eq!(status_after_start(Ok(())), PluginInstanceStatus::Running);
    assert_eq!(
        status_after_start(Err("no session bus".to_string())),
        PluginInstanceStatus::Error {
            reason: "no session bus".to_string()
        }
    );
    assert_eq!(display_name(&None, "hass.home"), "hass.home");
    assert_eq!(display_name(&Some("Home".to_string()), "hass.home"), "Home");
}

#[test]
fn a_dotted_path_walks_objects_and_arrays() {
    let document = object(vec![
        (
            "current",
            object(vec![("temperature_2m", JsonValue::Number("21.4".to_string()))]),
        ),
        (
            "results",
            JsonValue::Array(vec![
                object(vec![("name", text("first"))]),
                object(vec![("name", text("second"))]),
            ]),
        ),
    ]);
    assert_eq!(
        extract_value(&document, "current.temperature_2m"),
        Some(&JsonValue::Number("21.4".to_string()))
    );
    assert_eq!(extract_value(&document, "results.1.name"), Some(&text("second")));
    assert_eq!(extract_value(&document, "current.missing"), None);
    assert_eq!(extract_value(&document, "current.temperature_2m.deeper"), None);
}

#[test]
fn an_empty_path_returns_the_whole_document() {
    let document = object(vec![("a", JsonValue::Integer(1))]);
    assert_eq!(extract_value(&document, ""), Some(&document));
    assert_eq!(extract_value(&document, ".a."), Some(&JsonValue::Integer(1)));
}

#[test]
fn a_long_body_is_cut_to_its_first_characters() {
    let long = "é".repeat(600);
    assert_eq!(body_text(&long).chars().count(), 512);
    assert_eq!(body_text("short"), "short");
}

fn series(name: Option<&str>, value: Option<&str>) -> JsonValue {
    let mut members = Vec::new();
    if let Some(name) = name {
        members.push(("metric", object(vec![("__name__", text(name))])));
    }
    if let Some(value) = value {
        members.push((
            "value",
            JsonValue::Array(vec![JsonValue::Integer(1_700_000_000), text(value)]),
        ));
    }
    object(members)
}

fn answer(items: Vec<JsonValue>) -> JsonValue {
    object(vec![("data", object(vec![("result", JsonValue::Array(items))]))])
}

#[test]
fn a_scrape_publishes_every_named_sample_and_a_summary() {
    let body = answer(vec![
        series(Some("up"), Some("1")),
        series(None, Some("3")),
        series(Some("load"), Some("0.5")),
        series(Some("broken"), None),
    ]);
    let (samples, summary) = scraped_samples(&body).expect("a result array");
    assert_eq!(
        samples,
        vec![
            ("up".to_string(), "1".to_string()),
            ("load".to_string(), "0.5".to_string())
        ]
    );
    assert_eq!(summary, "up:1,load:0.5");
    assert!(scraped_samples(&JsonValue::Null).is_none());
}

#[test]
fn the_summary_stops_growing_past_its_limit() {
    let long_name = "m".repeat(600);
    let body = answer(vec![
        series(Some(&long_name), Some("1")),
        series(Some("up"), Some("1")),
    ]);
    let (samples, summary) = scraped_samples(&body).expect("a result array");
    assert_eq!(samples.len(), 2);
    assert_eq!(summary, format!("{long_name}:1"));
}

#[test]
fn a_query_publishes_its_first_sample() {
    assert_eq!(
        first_sample(&answer(vec![series(Some("up"), Some("42"))])),
        Ok("42".to_string())
    );
    assert_eq!(
        first_sample(&JsonValue::Null),
        Err("No results returned from query".to_string())
    );
    assert_eq!(
        first_sample(&answer(Vec::new())),
        Err("No value in query result".to_string())
    );
    assert_eq!(
        first_sample(&answer(vec![series(Some("up"), None)])),
        Err("No value in query result".to_string())
    );
}

#[test]
fn the_manifests_describe_their_forms() {
    let prometheus = launchpi::prometheus::manifest();
    assert_eq!(prometheus.plugin_type, "prometheus");
    assert_eq!(prometheus.actions[0].name, "query");
    let http = launchpi::http::manifest();
    assert!(matches!(
        &http.actions[0].parameters[0].kind,
        ConfigFieldKind::Select { options } if options.len() == 5
    ));
    let mpris = launchpi::mpris::manifest();
    assert_eq!(mpris.actions.len(), 7);
    assert_eq!(mpris.variables[4].name, "art");
    for manifest in [prometheus, http, mpris] {
        for action in &manifest.actions {
            for field in &action.parameters {
                assert!(!field.key.is_empty());
            }
        }
    }
}

#[test]
fn the_usage_presets_show_their_queries() {
    let presets = presets();
    assert_eq!(presets.len(), 3);
    assert_eq!(presets[0].preset_id, "cpu_usage");
    assert_eq!(
        presets[1].control.default_state.text.as_deref(),
        Some("$(self:100 * (1 - node_memory_MemAvailable_bytes / node_memory_MemTotal_bytes))")
    );
    assert_eq!(presets[2].category, "Prometheus");
}

fn control_with(bindings: Vec<(ActionTrigger, Action)>) -> Control {
    Control {
        control_id: ControlId("key".to_string()),
        name: "Key".to_string(),
        position: SurfacePosition { column: 0, row: 0 },
        default_state: RenderedState::labelled(
            "Key",
            RgbaColor::opaque(255, 255, 255),
            RgbaColor::opaque(0, 0, 0),
            false,
        ),
        pressed_state: None,
        action_bindings: bindings
            .into_iter()
            .map(|(gesture, action)| ActionBinding {
                gesture,
                actions: vec![action],
            })
            .collect(),
    }
}

#[test]
fn a_press_runs_its_bindings_and_starts_the_holds_waiting() {
    let control = control_with(vec![
        (ActionTrigger::Press, Action::Wait { duration_ms: 1 }),
        (
            ActionTrigger::Hold { duration_ms: 800 },
            Action::ChangePanel {
                panel_id: PanelId("settings".to_string()),
            },
        ),
        (ActionTrigger::Release, Action::CloseSubpanel),
        (
            ActionTrigger::Press,
            Action::InvokeIntegration {
                integration_id: IntegrationId("system.clock".to_string()),
                action_name: "start_timer".to_string(),
                parameters: JsonValue::Null,
            },
        ),
    ]);
    let press = gesture_plan(&control, true);
    assert_eq!(press.run_now, vec![0, 3]);
    assert_eq!(press.schedule_holds, vec![(1, 800)]);
    assert!(!press.cancel_holds);

    let release = gesture_plan(&control, false);
    assert_eq!(release.run_now, vec![2]);
    assert!(release.schedule_holds.is_empty());
    assert!(release.cancel_holds);
}
