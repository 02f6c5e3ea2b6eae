use launchpi::identifiers::{AssetId, ControlId};
use launchpi::panels::{Anchor9, Border, ColorBinding, Control, OverlayImage, RenderedState, RgbaColor, SurfacePosition};
use launchpi::resolve::{resolve, resolve_color, resolve_states, ResolvedBorder};
use launchpi::template::VariableRef;

fn control(default_state: RenderedState) -> Control {
    Control {
        control_id: ControlId("key".to_string()),
        name: "Key".to_string(),
        position: SurfacePosition { column: 0, row: 0 },
        default_state,
        pressed_state: None,
        action_bindings: Vec::new(),
    }
}

/// A value store holding `values`, each as the text a template shows for it.
fn store(values: Vec<(&'static str, &'static str, &'static str)>) -> impl Fn(&VariableRef) -> Option<String> {
    move |reference: &VariableRef| {
        values
            .iter()
            .find(|(id, name, _)| reference.integration_id.0 == *id && reference.name == *name)
            .map(|(_, _, text)| text.to_string())
    }
}

#[test]
fn text_is_interpolated_from_the_value_store() {
    let lookup = store(vec![("mpris.default", "title", "Blue Monday")]);
    let resolved = resolve(
        &control(RenderedState {
            text: Some("$(mpris.default:title)".to_string()),
            ..RenderedState::default()
        }),
        false,
        &lookup,
    );
    assert_eq!(resolved.text, Some("Blue Monday".to_string()));
}

#[test]
fn a_literal_colour_passes_through() {
    let lookup = store(vec![]);
    let color = RgbaColor::opaque(10, 20, 30);
    let resolved = resolve(
        &control(RenderedState {
            background_color: Some(ColorBinding::Literal(color)),
            ..RenderedState::default()
        }),
        false,
        &lookup,
    );
    assert_eq!(resolved.background_color, Some(color));
}

#[test]
fn a_colour_reference_resolves_to_what_the_plugin_published() {
    let lookup = store(vec![("hass.home", "light.kitchen.color", "#e8b923")]);
    let resolved = resolve(
        &control(RenderedState {
            background_color: Some(ColorBinding::Reference(
                "$(hass.home:light.kitchen.color)".to_string(),
            )),
            ..RenderedState::default()
        }),
        false,
        &lookup,
    );
    assert_eq!(resolved.background_color, Some(RgbaColor::opaque(232, 185, 35)));
}

#[test]
fn a_plugin_publishing_a_hex_string_works_just_as_well() {
    let lookup = store(vec![("hass.home", "light.kitchen.color", "#00ff7f")]);
    let resolved = resolve(
        &control(RenderedState {
            background_color: Some(ColorBinding::Reference(
                "$(hass.home:light.kitchen.color)".to_string(),
            )),
            ..RenderedState::default()
        }),
        false,
        &lookup,
    );
    assert_eq!(resolved.background_color, Some(RgbaColor::opaque(0, 255, 127)));
}

#[test]
fn an_unresolved_colour_reference_leaves_the_key_unstyled() {
    let lookup = store(vec![]);
    let resolved = resolve(
        &control(RenderedState {
            background_color: Some(ColorBinding::Reference("$(hass.home:missing)".to_string())),
            ..RenderedState::default()
        }),
        false,
        &lookup,
    );
    assert_eq!(resolved.background_color, None);
}

#[test]
fn an_image_reference_resolves_to_the_published_asset() {
    let lookup = store(vec![("mpris.default", "art", "hash:abc123")]);
    let resolved = resolve(
        &control(RenderedState {
            image: Some(AssetId("$(mpris.default:art)".to_string())),
            ..RenderedState::default()
        }),
        false,
        &lookup,
    );
    assert_eq!(resolved.image.map(|image| image.0), Some("hash:abc123".to_string()));
}

#[test]
fn a_border_colour_resolves_from_what_the_plugin_published() {
    let lookup = store(vec![("discord.home", "channel_members_0_status_color", "#ed4245")]);
    let resolved = resolve(
        &control(RenderedState {
            border: Some(Border {
                color: ColorBinding::Reference(
                    "$(discord.home:channel_members_0_status_color)".to_string(),
                ),
                width: 6,
            }),
            ..RenderedState::default()
        }),
        false,
        &lookup,
    );
    assert_eq!(
        resolved.border,
        Some(ResolvedBorder {
            color: RgbaColor::opaque(237, 66, 69),
            width: 6,
        })
    );
}

/// How a plugin says "nothing to report": publish an empty colour and the outline disappears.
#[test]
fn an_empty_border_colour_leaves_the_key_unbordered() {
    let lookup = store(vec![("discord.home", "channel_members_0_status_color", "")]);
    let resolved = resolve(
        &control(RenderedState {
            border: Some(Border {
                color: ColorBinding::Reference(
                    "$(discord.home:channel_members_0_status_color)".to_string(),
                ),
                width: 6,
            }),
            ..RenderedState::default()
        }),
        false,
        &lookup,
    );
    assert_eq!(resolved.border, None);
}

#[test]
fn a_zero_width_border_is_not_drawn() {
    let lookup = store(vec![]);
    let resolved = resolve(
        &control(RenderedState {
            border: Some(Border {
                color: ColorBinding::Literal(RgbaColor::opaque(1, 2, 3)),
                width: 0,
            }),
            ..RenderedState::default()
        }),
        false,
        &lookup,
    );
    assert_eq!(resolved.border, None);
}

#[test]
fn an_overlay_image_reference_resolves_to_the_published_asset() {
    let lookup = store(vec![("discord.home", "channel_members_0_status_icon", "hash:badge")]);
    let resolved = resolve(
        &control(RenderedState {
            overlay_image: Some(OverlayImage {
                image: AssetId("$(discord.home:channel_members_0_status_icon)".to_string()),
                anchor: Anchor9::BottomEnd,
                scale_percent: 32,
                tint: None,
            }),
            ..RenderedState::default()
        }),
        false,
        &lookup,
    );
    assert_eq!(
        resolved.overlay_image.map(|overlay| overlay.image.0),
        Some("hash:badge".to_string())
    );
}

#[test]
fn an_overlay_that_resolves_to_nothing_draws_no_badge() {
    let lookup = store(vec![]);
    let resolved = resolve(
        &control(RenderedState {
            overlay_image: Some(OverlayImage {
                image: AssetId("$(discord.home:missing)".to_string()),
                anchor: Anchor9::BottomEnd,
                scale_percent: 32,
                tint: None,
            }),
            ..RenderedState::default()
        }),
        false,
        &lookup,
    );
    assert!(resolved.overlay_image.is_none());
}

#[test]
fn the_pressed_state_falls_back_to_the_default_state() {
    let lookup = store(vec![]);
    let subject = control(RenderedState {
        text: Some("Play".to_string()),
        ..RenderedState::default()
    });
    assert_eq!(resolve(&subject, true, &lookup).text, Some("Play".to_string()));
}

#[test]
fn a_pressed_state_is_shown_while_pressed() {
    let lookup = store(vec![]);
    let pressed = RenderedState {
        text: Some("Stop".to_string()),
        ..RenderedState::default()
    };
    let default = RenderedState {
        text: Some("Play".to_string()),
        ..RenderedState::default()
    };
    assert_eq!(resolve_states(&default, Some(&pressed), true, &lookup).text, Some("Stop".to_string()));
    assert_eq!(resolve_states(&default, Some(&pressed), false, &lookup).text, Some("Play".to_string()));
}

#[test]
fn hex_colours_need_six_or_eight_digits_after_a_hash() {
    assert_eq!(RgbaColor::from_hex("#0a0B0c"), Some(RgbaColor::opaque(10, 11, 12)));
    assert_eq!(
        RgbaColor::from_hex("#01020380"),
        Some(RgbaColor { red: 1, green: 2, blue: 3, alpha: 128 })
    );
    assert_eq!(RgbaColor::from_hex("0a0b0c"), None);
    assert_eq!(RgbaColor::from_hex("#0a0b0"), None);
    assert_eq!(RgbaColor::from_hex("#0a0b0g"), None);
    assert_eq!(RgbaColor::from_hex(""), None);
    let lookup = store(vec![]);
    assert_eq!(resolve_color(None, &lookup), None);
}
