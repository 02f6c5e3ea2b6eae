use launchpi::identifiers::{ControlId, PanelId, SurfaceId};
use launchpi::panels::{PanelLayout, SubpanelPlacement, SurfaceLayout, SurfacePosition};
use launchpi::plugin::InputEvent;
use launchpi::registry::{default_device, default_panel, KeyOutcome, SurfaceRegistry};
use launchpi::surfaces::NetworkSurfaceStatus;

fn studio() -> SurfaceId {
    SurfaceId("stream-deck-studio-1".to_string())
}

fn dial_level(registry: &SurfaceRegistry, surface_id: &SurfaceId, dial_index: u8) -> Option<u8> {
    registry
        .inventory()
        .dial_states
        .into_iter()
        .find(|state| state.surface_id.0 == surface_id.0 && state.dial_index == dial_index)
        .map(|state| state.level)
}

#[test]
fn creates_a_studio_device_with_the_hello_panel_active() {
    let registry = SurfaceRegistry::from_configuration(Vec::new(), vec![default_panel()]);
    let device = registry.managed(&studio()).expect("default device should exist");

    assert_eq!(
        device.active_panel_id.as_ref().map(|id| id.0.as_str()),
        Some("studio-panel-1")
    );
    let panel = registry.panel("studio-panel-1").expect("the hello panel");
    assert_eq!(panel.controls[0].default_state.text.as_deref(), Some("Hello"));
}

#[test]
fn repairs_a_missing_studio_panel_and_keeps_dial_settings_available() {
    let mut incompatible = default_panel();
    incompatible.panel_id = PanelId("studio-panel-2".to_string());
    incompatible.layout = PanelLayout { columns: 8, rows: 4 };
    let device = default_device(&[], Some(incompatible.panel_id.clone()));
    let registry = SurfaceRegistry::from_configuration(vec![device], vec![incompatible]);
    let device = registry
        .managed(&studio())
        .expect("configured device should exist");

    assert_eq!(
        device.active_panel_id.as_ref().map(|id| id.0.as_str()),
        Some("studio-panel-1")
    );
    assert_eq!(registry.active_dial_rings(&device.surface_id).len(), 2);
}

#[test]
fn a_dial_turn_moves_one_ring_segment_per_detent_and_clamps() {
    let mut registry = SurfaceRegistry::from_configuration(Vec::new(), vec![default_panel()]);
    let surface_id = studio();
    // The default panel starts both dials at 100%, so a full ring.
    assert_eq!(registry.active_dial_rings(&surface_id)[0].2, 24);

    registry.record_dial_turn(&surface_id, 0, -4, 0);
    assert_eq!(registry.active_dial_rings(&surface_id)[0].2, 20);
    assert_eq!(dial_level(&registry, &surface_id, 0), Some(84));

    registry.record_dial_turn(&surface_id, 0, -60, 0);
    assert_eq!(registry.active_dial_rings(&surface_id)[0].2, 0);
    assert_eq!(dial_level(&registry, &surface_id, 0), Some(0));

    registry.record_dial_turn(&surface_id, 0, 1, 0);
    assert_eq!(dial_level(&registry, &surface_id, 0), Some(5));

    registry.record_dial_turn(&surface_id, 0, 99, 0);
    assert_eq!(dial_level(&registry, &surface_id, 0), Some(100));
    // The other dial keeps the panel's configured level.
    assert_eq!(dial_level(&registry, &surface_id, 1), None);
}

#[test]
fn reports_dial_presses_and_releases_once_per_edge() {
    let mut registry = SurfaceRegistry::from_configuration(Vec::new(), vec![default_panel()]);
    let surface_id = studio();

    assert!(registry.record_dial_press(&surface_id, 0, true, 0));
    assert!(!registry.record_dial_press(&surface_id, 0, true, 0));
    assert_eq!(registry.inventory().dial_presses.len(), 1);

    assert!(registry.record_dial_press(&surface_id, 0, false, 0));
    assert!(registry.inventory().dial_presses.is_empty());
}

#[test]
fn a_key_press_is_handed_to_the_action_engine() {
    let mut registry = SurfaceRegistry::from_configuration(Vec::new(), vec![default_panel()]);
    let surface_id = studio();

    match registry.record_key_state(&surface_id, 0, true, 0) {
        KeyOutcome::Dispatched(InputEvent::Key {
            key_index,
            is_pressed,
            ..
        }) => {
            assert_eq!(key_index, 0);
            assert!(is_pressed);
        }
        other => panic!("the press should be queued, got {other:?}"),
    }
}

#[test]
fn broadcasts_a_key_state_event_when_a_key_is_pressed() {
    let mut registry = SurfaceRegistry::from_configuration(Vec::new(), vec![default_panel()]);
    let surface_id = studio();

    let outcome = registry.record_key_state(&surface_id, 0, true, 0);

    let key_state = match outcome {
        KeyOutcome::Dispatched(InputEvent::Key {
            key_index,
            is_pressed,
            ..
        }) => Some((key_index, is_pressed)),
        _ => None,
    };
    assert_eq!(key_state, Some((0, true)));
}

#[test]
fn rejects_assigning_a_panel_with_an_incompatible_layout() {
    let panel = default_panel();
    let mut registry = SurfaceRegistry::from_configuration(Vec::new(), vec![default_panel()]);
    let mut incompatible = panel;
    incompatible.panel_id.0 = "incompatible".to_string();
    incompatible.layout.columns = 3;
    registry
        .upsert_panel(incompatible)
        .expect("panel should be valid");

    assert!(registry
        .assign_active_panel("stream-deck-studio-1", "incompatible", 0)
        .is_err());
}

#[test]
fn deleting_the_active_panel_falls_back_to_a_compatible_one() {
    let mut spare = default_panel();
    spare.panel_id = PanelId("studio-panel-2".to_string());
    let mut registry =
        SurfaceRegistry::from_configuration(Vec::new(), vec![default_panel(), spare]);

    registry
        .remove_panel("studio-panel-1")
        .expect("the active panel should be removable");

    let device = registry.managed(&studio()).expect("default device should exist");
    assert_eq!(
        device.active_panel_id.as_ref().map(|id| id.0.as_str()),
        Some("studio-panel-2")
    );
    assert!(registry.panel("studio-panel-1").is_none());
}

#[test]
fn deleting_the_last_compatible_panel_leaves_the_device_unassigned() {
    let mut registry = SurfaceRegistry::from_configuration(Vec::new(), vec![default_panel()]);

    registry
        .remove_panel("studio-panel-1")
        .expect("the active panel should be removable");

    let device = registry.managed(&studio()).expect("default device should exist");
    assert!(device.active_panel_id.is_none());
    assert!(registry.panels().is_empty());
    assert!(registry.remove_panel("studio-panel-1").is_none());
}

#[test]
fn auto_provisions_a_panel_for_an_unseen_child_layout() {
    let mut registry = SurfaceRegistry::from_configuration(Vec::new(), vec![default_panel()]);
    let layout = SurfaceLayout::Grid { columns: 5, rows: 3 };

    let panel_id = registry
        .ensure_default_panel_for_layout(&layout)
        .expect("a panel should be provisioned");
    let panel = registry.panel(&panel_id.0).expect("panel should exist");
    assert_eq!(panel.controls.len(), 15);
    assert_eq!((panel.layout.columns, panel.layout.rows), (5, 3));

    let reused = registry
        .ensure_default_panel_for_layout(&layout)
        .expect("existing panel should be reused");
    assert_eq!(reused.0, panel_id.0);
}

#[test]
fn topmost_subpanel_receives_input_and_closes_on_an_outside_press() {
    let root = default_panel();
    let mut subpanel = default_panel();
    subpanel.panel_id = PanelId("subpanel".to_string());
    subpanel.layout.columns = 1;
    subpanel.layout.rows = 1;
    subpanel.controls.truncate(1);
    subpanel.controls[0].control_id = ControlId("subpanel-control".to_string());
    let mut registry = SurfaceRegistry::from_configuration(Vec::new(), vec![root]);
    registry.upsert_panel(subpanel).expect("subpanel is valid");
    let surface_id = studio();

    registry
        .open_subpanel(
            &surface_id,
            "subpanel",
            SurfacePosition { column: 0, row: 0 },
            SubpanelPlacement::BottomStart,
            0,
            0,
        )
        .expect("subpanel opens");

    assert_eq!(
        registry
            .top_subpanel_control_at(&surface_id, 16)
            .map(|control| control.control_id.0),
        Some("subpanel-control".to_string())
    );
    assert!(registry.top_subpanel_control_at(&surface_id, 0).is_none());
    assert!(registry.close_subpanel(&surface_id));
}

#[test]
fn a_press_outside_a_subpanel_closes_it_and_swallows_the_release() {
    let mut subpanel = default_panel();
    subpanel.panel_id = PanelId("subpanel".to_string());
    subpanel.layout.columns = 1;
    subpanel.layout.rows = 1;
    let mut registry = SurfaceRegistry::from_configuration(Vec::new(), vec![default_panel()]);
    registry.upsert_panel(subpanel).expect("subpanel is valid");
    let surface_id = studio();
    registry
        .open_subpanel(
            &surface_id,
            "subpanel",
            SurfacePosition { column: 0, row: 0 },
            SubpanelPlacement::BottomStart,
            0,
            0,
        )
        .expect("subpanel opens");

    assert!(matches!(
        registry.record_key_state(&surface_id, 3, true, 0),
        KeyOutcome::ClosedSubpanel
    ));
    assert!(!registry.has_open_subpanel(&surface_id));
    assert!(matches!(
        registry.record_key_state(&surface_id, 3, true, 0),
        KeyOutcome::Unchanged
    ));
    assert!(matches!(
        registry.record_key_state(&surface_id, 3, false, 0),
        KeyOutcome::Swallowed
    ));
    assert!(registry.inventory().recent_key_events.is_empty());
}

#[test]
fn a_release_hands_on_the_control_the_press_reached() {
    let mut registry = SurfaceRegistry::from_configuration(Vec::new(), vec![default_panel()]);
    let surface_id = studio();
    registry.record_key_state(&surface_id, 0, true, 10);
    let released = registry.record_key_state(&surface_id, 0, false, 20);
    match released {
        KeyOutcome::Dispatched(InputEvent::Key { control, is_pressed, .. }) => {
            assert!(!is_pressed);
            assert_eq!(control.map(|control| control.control_id.0), Some("hello".to_string()));
        }
        other => panic!("the release should go through, got {other:?}"),
    }
    let inventory = registry.inventory();
    assert_eq!(inventory.recent_key_events.len(), 2);
    assert!(!inventory.recent_key_events[0].is_pressed);
    let messages: Vec<_> = inventory.logs.iter().map(|line| line.message.as_str()).collect();
    assert_eq!(messages, ["key 0 pressed", "key 0 released"]);
}

#[test]
fn only_the_last_fifty_key_events_are_remembered() {
    let mut registry = SurfaceRegistry::from_configuration(Vec::new(), vec![default_panel()]);
    let surface_id = studio();
    for round in 0..30 {
        registry.record_key_state(&surface_id, 1, true, round);
        registry.record_key_state(&surface_id, 1, false, round);
    }
    let inventory = registry.inventory();
    assert_eq!(inventory.recent_key_events.len(), 50);
    assert!(!inventory.recent_key_events[0].is_pressed);
}

#[test]
fn a_dial_turn_is_logged_with_its_signed_detents() {
    let mut registry = SurfaceRegistry::from_configuration(Vec::new(), vec![default_panel()]);
    let surface_id = studio();
    let moved = registry
        .record_dial_turn(&surface_id, 1, -2, 5)
        .expect("the ring moves");
    assert_eq!((moved.lit_segments, moved.level), (22, 92));
    assert!(registry.record_dial_turn(&surface_id, 1, 5, 6).is_some());
    assert!(registry.record_dial_turn(&surface_id, 1, 5, 7).is_none());
    assert!(registry.record_dial_turn(&surface_id, 2, 1, 8).is_none());
    let inventory = registry.inventory();
    let messages: Vec<_> = inventory.logs.iter().map(|line| line.message.as_str()).collect();
    assert_eq!(
        messages,
        ["dial 1 turned -2 to 92% (22/24)", "dial 1 turned +5 to 100% (24/24)"]
    );
}

#[test]
fn repeated_endpoints_keep_the_first_device_and_numbering_continues() {
    let mut first = default_device(&[], None);
    first.surface_id = SurfaceId("stream-deck-studio-7".to_string());
    let mut second = default_device(&[], None);
    second.surface_id = SurfaceId("stream-deck-studio-9".to_string());
    let mut registry = SurfaceRegistry::from_configuration(vec![first, second], vec![default_panel()]);
    assert_eq!(registry.managed_surfaces().len(), 1);
    assert!(registry.managed(&SurfaceId("stream-deck-studio-7".to_string())).is_some());
    assert_eq!(registry.create_surface_id().0, "stream-deck-studio-8");
    assert_eq!(registry.create_panel_id().0, "studio-panel-2");
}

#[test]
fn a_status_change_is_logged_once() {
    let mut registry = SurfaceRegistry::from_configuration(Vec::new(), vec![default_panel()]);
    let surface_id = studio();
    assert!(registry.update_status(
        &surface_id,
        NetworkSurfaceStatus::Unavailable,
        Some("refused".to_string()),
        1
    ));
    assert!(!registry.update_status(
        &surface_id,
        NetworkSurfaceStatus::Unavailable,
        Some("refused".to_string()),
        2
    ));
    let inventory = registry.inventory();
    let messages: Vec<_> = inventory.logs.iter().map(|line| line.message.as_str()).collect();
    assert_eq!(messages, ["unavailable: refused"]);
    let device = registry.set_enabled("stream-deck-studio-1", false).expect("the device");
    assert_eq!(device.status, NetworkSurfaceStatus::Disabled);
    assert!(device.last_error.is_none());
}

#[test]
fn a_panel_with_overlapping_controls_is_refused() {
    let mut registry = SurfaceRegistry::from_configuration(Vec::new(), vec![default_panel()]);
    let mut panel = default_panel();
    panel.panel_id = PanelId("copy".to_string());
    let mut second = default_panel().controls.remove(0);
    second.control_id = ControlId("second".to_string());
    panel.controls.push(second);
    assert_eq!(
        registry.upsert_panel(panel).unwrap_err(),
        "panel controls cannot share a position"
    );
    let mut blank = default_panel();
    blank.name = "  ".to_string();
    assert_eq!(
        registry.upsert_panel(blank).unwrap_err(),
        "panel name and layout dimensions are required"
    );
}

#[test]
fn an_open_subpanel_dims_the_keys_it_does_not_cover() {
    let mut subpanel = default_panel();
    subpanel.panel_id = PanelId("subpanel".to_string());
    subpanel.layout.columns = 1;
    subpanel.layout.rows = 1;
    subpanel.controls[0].control_id = ControlId("subpanel-control".to_string());
    let mut registry = SurfaceRegistry::from_configuration(Vec::new(), vec![default_panel()]);
    registry.upsert_panel(subpanel).expect("subpanel is valid");
    let surface_id = studio();

    let plain = registry.presentation(&surface_id).expect("a grid device");
    assert_eq!((plain.columns, plain.rows), (16, 2));
    assert_eq!(plain.controls.len(), 1);
    assert!(!plain.controls[0].is_dimmed);

    registry
        .open_subpanel(
            &surface_id,
            "subpanel",
            SurfacePosition { column: 0, row: 0 },
            SubpanelPlacement::BottomStart,
            0,
            0,
        )
        .expect("subpanel opens");
    let covered = registry.presentation(&surface_id).expect("a grid device");
    let keys: Vec<_> = covered
        .controls
        .iter()
        .map(|shown| (shown.key_index, shown.control.control_id.0.as_str(), shown.is_dimmed))
        .collect();
    assert_eq!(keys, [(0, "hello", true), (16, "subpanel-control", false)]);
    assert_eq!(covered.controls[1].control.position, SurfacePosition { column: 0, row: 1 });
}

#[test]
fn a_device_reports_its_models_dials_without_them_reaching_the_stored_device() {
    let registry = SurfaceRegistry::from_configuration(Vec::new(), vec![default_panel()]);
    let inventory = registry.inventory();
    let view = inventory.devices.first().expect("the default device");

    assert_eq!(view.device.surface_id.0, "stream-deck-studio-1");
    assert_eq!(view.device.model, "Stream Deck Studio");
    assert_eq!(view.dials[0].column, -1);
    assert_eq!(view.dials[1].column, 16);
    assert_eq!(view.dials[1].row_span, 2);
    assert!(inventory.plugin_instances.is_empty());
}

#[test]
fn a_device_whose_model_has_no_dials_reports_none() {
    let mut device = default_device(&[], None);
    device.model = "Stream Deck XL".to_string();
    let registry = SurfaceRegistry::from_configuration(vec![device], vec![default_panel()]);

    assert!(registry.inventory().devices[0].dials.is_empty());
}
