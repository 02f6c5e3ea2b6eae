use launchpi::feedback::{FeedbackCache, FeedbackKey};
use launchpi::identifiers::IntegrationId;
use launchpi::ledger::RenderLedger;
use launchpi::panels::RgbaColor;
use launchpi::surfaces::{KeyRendering, ResolvedLayer};

fn canonical(members: &[(&str, &str)]) -> String {
    let mut object = serde_json::Map::new();
    for (key, value) in members {
        object.insert((*key).to_string(), serde_json::Value::String((*value).to_string()));
    }
    serde_json::to_string(&serde_json::Value::Object(object)).expect("serializable")
}

fn key(instance: &str, members: &[(&str, &str)]) -> FeedbackKey {
    FeedbackKey {
        integration_id: IntegrationId(instance.to_string()),
        feedback_name: "state_is".to_string(),
        parameters: canonical(members),
    }
}

#[test]
fn parameter_order_does_not_change_the_key() {
    let left = key("hass.home", &[("entity_id", "light.kitchen"), ("state", "on")]);
    let right = key("hass.home", &[("state", "on"), ("entity_id", "light.kitchen")]);
    assert_eq!(left, right);
}

#[test]
fn different_parameters_are_different_keys() {
    let kitchen = key("hass.home", &[("entity_id", "light.kitchen")]);
    let hallway = key("hass.home", &[("entity_id", "light.hallway")]);
    assert_ne!(kitchen, hallway);
}

#[test]
fn an_unevaluated_feedback_is_inactive_rather_than_unknown() {
    let cache = FeedbackCache::default();
    let key = key("hass.home", &[]);
    assert_eq!(cache.get(&key), None);
    assert!(!cache.is_active(&key));
}

#[test]
fn setting_an_unchanged_result_reports_no_change() {
    let mut cache = FeedbackCache::default();
    let key = key("hass.home", &[]);
    assert!(cache.set(key.clone(), true));
    assert!(!cache.set(key.clone(), true));
    assert!(cache.set(key.clone(), false));
    assert_eq!(cache.get(&key), Some(false));
}

#[test]
fn clearing_an_instance_forgets_only_its_own_results() {
    let mut cache = FeedbackCache::new();
    let kitchen = key("hass.home", &[("entity_id", "light.kitchen")]);
    let hallway = key("hass.home", &[("entity_id", "light.hallway")]);
    let other = key("hass.cabin", &[("entity_id", "light.kitchen")]);
    cache.set(kitchen.clone(), true);
    cache.set(hallway.clone(), false);
    cache.set(other.clone(), true);

    let mut cleared = cache.clear_instance(&IntegrationId("hass.home".to_string()));
    cleared.sort_by(|left, right| left.parameters.cmp(&right.parameters));
    assert_eq!(cleared, vec![hallway.clone(), kitchen.clone()]);
    assert_eq!(cache.get(&kitchen), None);
    assert_eq!(cache.get(&hallway), None);
    assert!(cache.is_active(&other));
}

fn rendering(key_index: u8, red: u8) -> KeyRendering {
    KeyRendering {
        key_index,
        layers: vec![
            ResolvedLayer::Fill {
                color: RgbaColor::opaque(red, 0, 0),
            },
            ResolvedLayer::Text {
                text: "Hello".to_string(),
                color: RgbaColor::opaque(255, 255, 255),
            },
        ],
        is_dimmed: false,
    }
}

#[test]
fn a_repaint_of_the_same_rendering_is_dropped() {
    let mut ledger = RenderLedger::default();
    assert!(ledger.record("studio", &rendering(0, 10)));
    assert!(!ledger.record("studio", &rendering(0, 10)));
    assert!(ledger.record("studio", &rendering(0, 11)));
    assert!(ledger.record("studio", &rendering(1, 11)));
    assert!(ledger.record("xl", &rendering(0, 11)));
}

#[test]
fn forgetting_a_surface_resends_only_its_keys() {
    let mut ledger = RenderLedger::new();
    ledger.record("studio", &rendering(0, 10));
    ledger.record("xl", &rendering(0, 10));
    ledger.forget("studio");
    assert!(ledger.record("studio", &rendering(0, 10)));
    assert!(!ledger.record("xl", &rendering(0, 10)));
    ledger.forget_all();
    assert!(ledger.record("xl", &rendering(0, 10)));
}

use launchpi::preset::Preset;
use launchpi::presets::PresetStore;
use launchpi::panels::{ControlTemplate, RenderedState};

fn recommendation(id: &str) -> Preset {
    Preset {
        preset_id: id.to_string(),
        category: "Lights".to_string(),
        name: id.to_string(),
        description: None,
        control: ControlTemplate {
            name: id.to_string(),
            default_state: RenderedState::default(),
            pressed_state: None,
            action_bindings: Vec::new(),
        },
    }
}

#[test]
fn republishing_the_same_recommendations_reports_no_change() {
    let mut store = PresetStore::default();
    let instance = IntegrationId("discord.home".to_string());

    assert!(store.set(instance.clone(), vec![recommendation("a")]));
    assert!(!store.set(instance.clone(), vec![recommendation("a")]));
    assert!(store.set(instance.clone(), vec![recommendation("b")]));
    assert!(
        store.set(instance.clone(), Vec::new()),
        "and withdrawal is a change"
    );
    assert!(!store.set(instance, Vec::new()));
}

#[test]
fn clearing_an_instance_withdraws_only_its_own() {
    let mut store = PresetStore::new();
    let discord = IntegrationId("discord.home".to_string());
    let hass = IntegrationId("hass.home".to_string());
    store.set(hass.clone(), vec![recommendation("a")]);
    store.set(discord.clone(), vec![recommendation("b")]);

    assert_eq!(
        store
            .snapshot()
            .into_iter()
            .map(|(id, _)| id.0)
            .collect::<Vec<_>>(),
        vec!["discord.home".to_string(), "hass.home".to_string()]
    );
    assert!(store.clear_instance(&discord));
    assert!(!store.clear_instance(&discord));
    assert_eq!(
        store
            .snapshot()
            .into_iter()
            .map(|(id, _)| id)
            .collect::<Vec<_>>(),
        vec![hass]
    );
}
