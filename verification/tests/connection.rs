use launchpi::connection::probed_identity;
use launchpi::identifiers::SurfaceId;
use launchpi::panels::SurfaceLayout;
use launchpi::registry::{default_device, default_panel, KeyOutcome, SurfaceRegistry};
use launchpi::streamdeck::ELGATO_VENDOR_ID;
use launchpi::surfaces::NetworkSurfaceStatus;

fn dock_registry() -> (SurfaceRegistry, SurfaceId) {
    let mut dock = default_device(&[], None);
    dock.surface_id = SurfaceId("dock".to_string());
    dock.name = "Desk dock".to_string();
    dock.host = "10.0.0.9".to_string();
    dock.model = "Stream Deck Network Dock".to_string();
    dock.layout = SurfaceLayout::Freeform;
    let registry = SurfaceRegistry::from_configuration(vec![dock], vec![default_panel()]);
    (registry, SurfaceId("dock".to_string()))
}

fn child_report(product_id: u16, port: u16, serial: &[u8]) -> Vec<u8> {
    let mut packet = vec![0_u8; 512];
    packet[0] = 0x03;
    packet[1] = 0x1c;
    packet[4] = 0x02;
    packet[26..28].copy_from_slice(&ELGATO_VENDOR_ID.to_le_bytes());
    packet[28..30].copy_from_slice(&product_id.to_le_bytes());
    packet[94..94 + serial.len()].copy_from_slice(serial);
    packet[126..128].copy_from_slice(&port.to_le_bytes());
    packet
}

#[test]
fn a_reply_gives_a_device_its_model_and_grid() {
    assert_eq!(
        probed_identity(false, 0x006c),
        ("Stream Deck XL".to_string(), SurfaceLayout::Grid { columns: 8, rows: 4 })
    );
    assert_eq!(
        probed_identity(true, 0x006c),
        ("Stream Deck Network Dock".to_string(), SurfaceLayout::Freeform)
    );

    let mut registry = SurfaceRegistry::from_configuration(Vec::new(), vec![default_panel()]);
    let studio = SurfaceId("stream-deck-studio-1".to_string());
    assert!(registry.apply_probed_identity(&studio, false, 0x0084));
    let device = registry.managed(&studio).expect("the default device");
    assert_eq!(device.model, "Stream Deck Plus");
    assert_eq!(device.layout, SurfaceLayout::Grid { columns: 4, rows: 2 });
    assert!(!registry.apply_probed_identity(&studio, false, 0x0084));
    assert!(!registry.apply_probed_identity(&SurfaceId("absent".to_string()), true, 0));
}

#[test]
fn a_deck_plugged_into_a_dock_is_managed_as_its_child() {
    let (mut registry, dock_id) = dock_registry();
    let child = registry
        .register_dock_child(&dock_id, &child_report(0x006c, 5344, b"CHILD-1"))
        .expect("a new child");
    assert_eq!(child.name, "Desk dock child");
    assert_eq!(child.host, "10.0.0.9");
    assert_eq!(child.port, 5344);
    assert_eq!(child.serial_number.as_deref(), Some("CHILD-1"));
    assert_eq!(child.model, "Stream Deck XL");
    assert_eq!(child.layout, SurfaceLayout::Grid { columns: 8, rows: 4 });
    assert_eq!(child.parent_surface_id.as_ref().map(|id| id.0.as_str()), Some("dock"));
    assert_eq!(child.status, NetworkSurfaceStatus::Connecting);
    let panel_id = child.active_panel_id.clone().expect("a panel for the grid");
    let panel = registry.panel(&panel_id.0).expect("the provisioned panel");
    assert_eq!((panel.layout.columns, panel.layout.rows), (8, 4));
    assert!(registry.managed(&child.surface_id).is_some());

    // The same deck reported again is already managed.
    assert!(registry
        .register_dock_child(&dock_id, &child_report(0x006c, 5344, b"CHILD-1"))
        .is_none());

    // Port zero means the deck was unplugged.
    assert!(registry
        .register_dock_child(&dock_id, &child_report(0, 0, b""))
        .is_none());
    assert!(registry.managed(&child.surface_id).is_none());
    assert!(registry.managed(&dock_id).is_some());
}

#[test]
fn a_report_from_anything_but_a_managed_dock_changes_nothing() {
    let mut registry = SurfaceRegistry::from_configuration(Vec::new(), vec![default_panel()]);
    let studio = SurfaceId("stream-deck-studio-1".to_string());
    assert!(registry
        .register_dock_child(&studio, &child_report(0x006c, 5344, b""))
        .is_none());
    let (mut docked, dock_id) = dock_registry();
    assert!(docked.register_dock_child(&dock_id, &[0_u8; 64]).is_none());
}

#[test]
fn a_key_report_records_every_key_once() {
    let mut registry = SurfaceRegistry::from_configuration(Vec::new(), vec![default_panel()]);
    let studio = SurfaceId("stream-deck-studio-1".to_string());
    let mut states = vec![false; 32];
    states[2] = true;
    let outcomes = registry.record_key_report(&studio, &states, 0);
    assert_eq!(outcomes.len(), 32);
    assert!(matches!(outcomes[2], KeyOutcome::Dispatched(_)));
    let again = registry.record_key_report(&studio, &states, 1);
    assert!(again.iter().all(|outcome| matches!(outcome, KeyOutcome::Unchanged)));
}
