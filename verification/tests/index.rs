use launchpi::identifiers::{AssetId, ControlId, IntegrationId, PanelId, SurfaceId};
use launchpi::index::{DependencyIndex, RenderTarget};
use launchpi::panels::{
    Anchor9, Bar, Border, ColorBinding, Edge, Control, OverlayImage, Panel, PanelLayout, RenderedState,
    RgbaColor, SurfaceCapabilities, SurfacePosition, ValueBinding,
};
use launchpi::template::VariableRef;

fn control(column: u16, row: u16, text: Option<&str>) -> Control {
    Control {
        control_id: ControlId(format!("control-{column}-{row}")),
        name: "Key".to_string(),
        position: SurfacePosition { column, row },
        default_state: RenderedState {
            text: text.map(str::to_string),
            ..RenderedState::default()
        },
        pressed_state: None,
        action_bindings: Vec::new(),
    }
}

fn panel(controls: Vec<Control>) -> Panel {
    Panel {
        panel_id: PanelId("panel".to_string()),
        name: "Panel".to_string(),
        layout: PanelLayout { columns: 4, rows: 2 },
        capabilities: SurfaceCapabilities::default(),
        controls,
        dial_colors: Vec::new(),
        dial_ring_levels: Vec::new(),
    }
}

fn surface() -> SurfaceId {
    SurfaceId("studio".to_string())
}

fn names(index: &DependencyIndex, integration_id: &str) -> Vec<String> {
    let mut names: Vec<_> = index
        .subscriptions_for(&IntegrationId(integration_id.to_string()))
        .iter()
        .map(|subscription| subscription.name.clone())
        .collect();
    names.sort();
    names
}

#[test]
fn index_a_variable_maps_to_exactly_the_keys_that_reference_it() {
    let index = DependencyIndex::build(&[(
        surface(),
        panel(vec![
            control(0, 0, Some("$(http.local:value)")),
            control(1, 0, Some("static")),
            control(2, 1, Some("also $(http.local:value)")),
        ]),
    )]);

    let mut targets = index.targets_for_variable(&VariableRef::new("http.local", "value"));
    targets.sort_by_key(|target| target.key_index);
    assert_eq!(
        targets,
        vec![
            RenderTarget {
                surface_id: surface(),
                key_index: 0
            },
            RenderTarget {
                surface_id: surface(),
                key_index: 6
            },
        ]
    );
}

#[test]
fn a_border_and_an_overlay_register_targets_and_subscriptions() {
    let mut keyed = control(0, 0, None);
    keyed.default_state.border = Some(Border {
        color: ColorBinding::Reference("$(discord.home:status_color)".to_string()),
        width: 5,
    });
    keyed.default_state.overlay_image = Some(OverlayImage {
        image: AssetId("$(discord.home:status_icon)".to_string()),
        anchor: Anchor9::BottomEnd,
        scale_percent: 32,
        tint: Some(ColorBinding::Reference("$(discord.home:tint)".to_string())),
    });
    let index = DependencyIndex::build(&[(surface(), panel(vec![keyed]))]);

    assert_eq!(
        index
            .targets_for_variable(&VariableRef::new("discord.home", "status_color"))
            .len(),
        1,
        "a border colour must mark its key dirty when the colour changes"
    );
    assert_eq!(
        index
            .targets_for_variable(&VariableRef::new("discord.home", "status_icon"))
            .len(),
        1,
        "a badge must mark its key dirty when the badge changes"
    );
    assert_eq!(
        names(&index, "discord.home"),
        vec!["status_color", "status_icon", "tint"]
    );
}

#[test]
fn a_colour_binding_registers_a_target_and_a_subscription() {
    let mut keyed = control(0, 0, Some("Kitchen"));
    keyed.default_state.background_color = Some(ColorBinding::Reference(
        "$(hass.home:light.kitchen.color)".to_string(),
    ));
    keyed.default_state.foreground_color = Some(ColorBinding::Reference(
        "$(hass.home:light.kitchen.text_color)".to_string(),
    ));
    let index = DependencyIndex::build(&[(surface(), panel(vec![keyed]))]);

    assert_eq!(
        index
            .targets_for_variable(&VariableRef::new("hass.home", "light.kitchen.color"))
            .len(),
        1
    );
    assert_eq!(
        index
            .targets_for_variable(&VariableRef::new("hass.home", "light.kitchen.text_color"))
            .len(),
        1
    );
    assert_eq!(
        names(&index, "hass.home"),
        vec!["light.kitchen.color", "light.kitchen.text_color"]
    );
}

#[test]
fn a_literal_colour_subscribes_to_nothing() {
    let mut keyed = control(0, 0, None);
    keyed.default_state.background_color = Some(RgbaColor::opaque(1, 2, 3).into());
    let index = DependencyIndex::build(&[(surface(), panel(vec![keyed]))]);

    assert!(index.watched_integrations().is_empty());
}

#[test]
fn index_an_unreferenced_variable_maps_to_nothing() {
    let index = DependencyIndex::build(&[(surface(), panel(vec![control(0, 0, Some("plain"))]))]);
    assert!(index
        .targets_for_variable(&VariableRef::new("http.local", "value"))
        .is_empty());
}

#[test]
fn index_an_image_reference_is_tracked_like_a_text_reference() {
    let mut keyed = control(0, 0, None);
    keyed.default_state.image = Some(AssetId("$(mpris.default:art)".to_string()));
    let index = DependencyIndex::build(&[(surface(), panel(vec![keyed]))]);
    assert_eq!(
        index
            .targets_for_variable(&VariableRef::new("mpris.default", "art"))
            .len(),
        1
    );
}

#[test]
fn index_an_empty_workspace_watches_nothing() {
    let index = DependencyIndex::build(&[]);
    assert!(index.watched_integrations().is_empty());
}

#[test]
fn a_pressed_state_binding_is_watched_too_and_listed_once() {
    let mut keyed = control(1, 1, Some("$(http.local:value)"));
    keyed.pressed_state = Some(RenderedState {
        text: Some("$(http.local:value) $(http.local:other)".to_string()),
        ..RenderedState::default()
    });
    let index = DependencyIndex::build(&[
        (surface(), panel(vec![keyed, control(3, 1, Some("$(http.local:value)"))])),
        (
            SurfaceId("dock-child".to_string()),
            panel(vec![control(0, 0, Some("$(hass.home:sun.state)"))]),
        ),
    ]);

    assert_eq!(names(&index, "http.local"), vec!["other", "value"]);
    let mut watched: Vec<String> = index
        .watched_integrations()
        .into_iter()
        .map(|id| id.0)
        .collect();
    watched.sort();
    assert_eq!(watched, vec!["hass.home", "http.local"]);

    let mut every: Vec<(String, u8)> = index
        .every_target()
        .into_iter()
        .map(|target| (target.surface_id.0, target.key_index))
        .collect();
    every.sort();
    assert_eq!(
        every,
        vec![
            ("dock-child".to_string(), 0),
            ("studio".to_string(), 5),
            ("studio".to_string(), 7)
        ]
    );
}

#[test]
fn a_control_off_the_key_range_is_not_indexed() {
    let index = DependencyIndex::build(&[(
        surface(),
        panel(vec![control(0, 300, Some("$(http.local:value)"))]),
    )]);
    assert!(index.every_target().is_empty());
    assert!(index.watched_integrations().is_empty());
}

#[test]
fn a_bar_registers_its_value_and_maximum() {
    let mut keyed = control(0, 0, None);
    keyed.default_state.bar = Some(Bar {
        value: ValueBinding::Reference("$(mpris.local:position)".to_string()),
        maximum: ValueBinding::Reference("$(mpris.local:length)".to_string()),
        color: ColorBinding::Reference("$(mpris.local:accent)".to_string()),
        edge: Edge::Bottom,
        thickness: 5,
    });
    keyed.default_state.image_tint = Some(ColorBinding::Reference("$(mpris.local:tint)".to_string()));
    let index = DependencyIndex::build(&[(surface(), panel(vec![keyed]))]);
    assert_eq!(
        names(&index, "mpris.local"),
        vec!["accent", "length", "position", "tint"]
    );
}
