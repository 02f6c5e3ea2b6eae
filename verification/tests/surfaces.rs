use launchpi::identifiers::{AssetId, ControlId};
use launchpi::panels::{
    Control, RenderedState, RgbaColor, SubpanelPlacement, SurfacePosition,
};
use launchpi::surfaces::{
    key_index_for, percent_from_segments, segments_from_percent, studio_capabilities,
    subpanel_origin, KeyRendering, ResolvedLayer, SurfaceKind,
};

#[test]
fn reported_dial_levels_survive_a_round_trip_to_segments() {
    for lit_segments in 0..=24 {
        let level = percent_from_segments(lit_segments);
        assert_eq!(segments_from_percent(level), lit_segments);
    }
}

#[test]
fn one_lit_segment_reads_as_five_percent() {
    assert_eq!(percent_from_segments(1), 5);
    assert_eq!(percent_from_segments(24), 100);
    assert_eq!(percent_from_segments(200), 100);
    assert_eq!(segments_from_percent(100), 24);
    assert_eq!(segments_from_percent(250), 24);
    assert_eq!(segments_from_percent(4), 0);
}

#[test]
fn clamps_an_oversized_subpanel_to_the_surface_origin() {
    assert_eq!(
        subpanel_origin(
            SurfacePosition { column: 3, row: 1 },
            8,
            4,
            4,
            2,
            SubpanelPlacement::BottomEnd,
            0,
            0,
        ),
        (0, 0)
    );
}

#[test]
fn applies_offsets_after_placement() {
    assert_eq!(
        subpanel_origin(
            SurfacePosition { column: 1, row: 0 },
            2,
            1,
            8,
            4,
            SubpanelPlacement::BottomStart,
            2,
            1,
        ),
        (3, 2)
    );
}

#[test]
fn a_centred_subpanel_sits_around_its_anchor() {
    assert_eq!(
        subpanel_origin(
            SurfacePosition { column: 8, row: 1 },
            4,
            1,
            16,
            2,
            SubpanelPlacement::TopCenter,
            0,
            0,
        ),
        (6, 0)
    );
    assert_eq!(
        subpanel_origin(
            SurfacePosition { column: 15, row: 0 },
            4,
            2,
            16,
            2,
            SubpanelPlacement::EndCenter,
            0,
            0,
        ),
        (12, 0)
    );
}

fn control_at(column: u16, row: u16) -> Control {
    Control {
        control_id: ControlId("key".to_string()),
        name: "Key".to_string(),
        position: SurfacePosition { column, row },
        default_state: RenderedState::default(),
        pressed_state: None,
        action_bindings: Vec::new(),
    }
}

#[test]
fn a_key_index_counts_row_by_row() {
    assert_eq!(key_index_for(&control_at(3, 1), 16), Some(19));
    assert_eq!(key_index_for(&control_at(0, 0), 16), Some(0));
    assert_eq!(key_index_for(&control_at(15, 15), 16), Some(255));
    assert_eq!(key_index_for(&control_at(0, 16), 16), None);
}

#[test]
fn the_palette_colour_is_the_bottom_most_fill() {
    let rendering = KeyRendering {
        key_index: 0,
        layers: vec![
            ResolvedLayer::Image {
                image: AssetId("mdi:clock".to_string()),
            },
            ResolvedLayer::Fill {
                color: RgbaColor::opaque(1, 2, 3),
            },
            ResolvedLayer::Fill {
                color: RgbaColor::opaque(4, 5, 6),
            },
        ],
        is_dimmed: false,
    };
    assert_eq!(rendering.palette_color(), Some(RgbaColor::opaque(1, 2, 3)));
    let bare = KeyRendering {
        key_index: 1,
        layers: vec![ResolvedLayer::Text {
            text: "Hi".to_string(),
            color: RgbaColor::opaque(9, 9, 9),
        }],
        is_dimmed: true,
    };
    assert_eq!(bare.palette_color(), None);
}

#[test]
fn a_studio_shows_colour_images_and_text_without_haptics() {
    let capabilities = studio_capabilities();
    assert!(capabilities.supports_color);
    assert!(capabilities.supports_images);
    assert!(capabilities.supports_text);
    assert!(capabilities.supports_brightness);
    assert!(!capabilities.supports_haptics);
    assert_eq!(SurfaceKind::Studio.model_name(), "Stream Deck Studio");
    assert_eq!(SurfaceKind::NetworkDock.model_name(), "Stream Deck Network Dock");
    assert!(SurfaceKind::NetworkDock.is_network_dock());
    assert!(!SurfaceKind::default().is_network_dock());
}
