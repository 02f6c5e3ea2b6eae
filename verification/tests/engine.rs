use launchpi::engine::{invocation_failure, panel_switch_failure, InstanceTable, RunningInstance};
use launchpi::identifiers::IntegrationId;
use launchpi::instance::{InstanceIdentity, PluginInstanceStatus};
use launchpi::panels::JsonValue;

fn running(plugin_type: &str, name: &str, display_name: Option<&str>, is_running: bool) -> RunningInstance {
    RunningInstance {
        identity: InstanceIdentity { plugin_type: plugin_type.to_string(), name: name.to_string() },
        display_name: display_name.map(str::to_string),
        is_enabled: true,
        status: if is_running {
            PluginInstanceStatus::Running
        } else {
            PluginInstanceStatus::Error { reason: "boom".to_string() }
        },
        config: JsonValue::Object(vec![("url".to_string(), JsonValue::Text("http://x".to_string()))]),
        is_running,
    }
}

#[test]
fn instances_are_listed_in_order_of_id_with_their_display_names() {
    let mut table = InstanceTable::new();
    table.record(running("mpris", "default", None, true));
    table.record(running("hass", "home", Some("Home"), true));
    table.record(running("http", "weather", None, false));

    let shown = table.instances();
    let ids: Vec<&str> = shown.iter().map(|instance| instance.integration_id.0.as_str()).collect();
    assert_eq!(ids, vec!["hass.home", "http.weather", "mpris.default"]);
    assert_eq!(shown[0].display_name, "Home");
    assert_eq!(shown[1].display_name, "http.weather");
    assert_eq!(shown[1].plugin_type, "http");
    assert_eq!(shown[1].name, "weather");
    assert_eq!(shown[1].status, PluginInstanceStatus::Error { reason: "boom".to_string() });
    assert_eq!(
        shown[2].config,
        JsonValue::Object(vec![("url".to_string(), JsonValue::Text("http://x".to_string()))])
    );
}

#[test]
fn recording_an_instance_again_replaces_it() {
    let mut table = InstanceTable::new();
    table.record(running("hass", "home", None, false));
    table.record(running("hass", "home", Some("Renamed"), true));
    let shown = table.instances();
    assert_eq!(shown.len(), 1);
    assert_eq!(shown[0].display_name, "Renamed");
    assert_eq!(shown[0].status, PluginInstanceStatus::Running);
}

#[test]
fn only_a_running_instance_can_be_invoked() {
    let mut table = InstanceTable::new();
    table.record(running("hass", "home", None, true));
    table.record(running("http", "weather", None, false));
    assert_eq!(table.reachable(&IntegrationId("hass.home".to_string())), Ok(()));
    assert_eq!(
        table.reachable(&IntegrationId("http.weather".to_string())),
        Err("http.weather is not running".to_string())
    );
    assert_eq!(
        table.reachable(&IntegrationId("discord.main".to_string())),
        Err("discord.main is not running".to_string())
    );
}

#[test]
fn failed_actions_leave_readable_log_lines() {
    assert_eq!(
        invocation_failure(&IntegrationId("hass.home".to_string()), "toggle", "timed out"),
        "hass.home: toggle failed: timed out"
    );
    assert_eq!(
        panel_switch_failure("lights", "unknown panel"),
        "could not switch to panel lights: unknown panel"
    );
}
