use launchpi::identifiers::{AssetId, IntegrationId};
use launchpi::panels::{
    Action, ActionBinding, ActionTrigger, Anchor9, Bar, Border, ColorBinding, ControlTemplate,
    Edge, JsonValue, OverlayImage, RenderedState, RgbaColor, ValueBinding,
};
use launchpi::preset::{substitute_self, Preset, SELF_INTEGRATION_ID};

fn preset() -> Preset {
    Preset {
        preset_id: "member-0".to_string(),
        category: "Members".to_string(),
        name: "First member".to_string(),
        description: None,
        control: ControlTemplate {
            name: "First member".to_string(),
            default_state: RenderedState {
                text: Some("$(self:channel_members_0)".to_string()),
                image: Some(AssetId("$(self:channel_members_0_image)".to_string())),
                overlay_image: Some(OverlayImage {
                    image: AssetId("$(self:channel_members_0_status_icon)".to_string()),
                    anchor: Anchor9::BottomEnd,
                    scale_percent: 32,
                    tint: None,
                }),
                foreground_color: Some(ColorBinding::Reference("$(self:text)".to_string())),
                background_color: Some(ColorBinding::Reference("$(self:fill)".to_string())),
                border: Some(Border {
                    color: ColorBinding::Reference(
                        "$(self:channel_members_0_status_color)".to_string(),
                    ),
                    width: 5,
                }),
                image_tint: Some(ColorBinding::Reference("$(self:tint)".to_string())),
                bar: Some(Bar {
                    value: ValueBinding::Reference("$(self:position)".to_string()),
                    maximum: ValueBinding::Literal(100),
                    color: RgbaColor::opaque(255, 255, 255).into(),
                    edge: Edge::Bottom,
                    thickness: 5,
                }),
                is_pressed: false,
            },
            pressed_state: None,
            action_bindings: vec![ActionBinding {
                gesture: ActionTrigger::Press,
                actions: vec![Action::InvokeIntegration {
                    integration_id: IntegrationId(SELF_INTEGRATION_ID.to_string()),
                    action_name: "mute_member".to_string(),
                    parameters: JsonValue::Object(vec![
                        (
                            "user_id".to_string(),
                            JsonValue::Text("$(self:channel_members_0_id)".to_string()),
                        ),
                        ("mute".to_string(), JsonValue::Bool(true)),
                    ]),
                }],
            }],
        },
    }
}

#[test]
fn self_becomes_the_publishing_instance_in_every_bindable_field() {
    let mut subject = preset();
    substitute_self(&mut subject, &IntegrationId("discord.home".to_string()));

    let state = &subject.control.default_state;
    assert_eq!(
        state.text.as_deref(),
        Some("$(discord.home:channel_members_0)")
    );
    assert_eq!(
        state.image,
        Some(AssetId("$(discord.home:channel_members_0_image)".to_string()))
    );
    assert_eq!(
        state.overlay_image.as_ref().map(|overlay| overlay.image.0.as_str()),
        Some("$(discord.home:channel_members_0_status_icon)")
    );
    assert_eq!(
        state.foreground_color,
        Some(ColorBinding::Reference("$(discord.home:text)".to_string()))
    );
    assert_eq!(
        state.background_color,
        Some(ColorBinding::Reference("$(discord.home:fill)".to_string()))
    );
    assert_eq!(
        state.image_tint,
        Some(ColorBinding::Reference("$(discord.home:tint)".to_string()))
    );
    let bar = state.bar.as_ref().expect("the bar is kept");
    assert_eq!(
        bar.value,
        ValueBinding::Reference("$(discord.home:position)".to_string())
    );
    assert_eq!(bar.maximum, ValueBinding::Literal(100));
    assert_eq!(bar.edge, Edge::Bottom);
    assert_eq!(
        state.border.as_ref().map(|border| &border.color),
        Some(&ColorBinding::Reference(
            "$(discord.home:channel_members_0_status_color)".to_string()
        ))
    );

    let Action::InvokeIntegration {
        integration_id,
        parameters,
        ..
    } = &subject.control.action_bindings[0].actions[0]
    else {
        panic!("the binding is an integration call");
    };
    assert_eq!(integration_id.0, "discord.home");
    assert_eq!(
        parameters,
        &JsonValue::Object(vec![
            (
                "user_id".to_string(),
                JsonValue::Text("$(discord.home:channel_members_0_id)".to_string()),
            ),
            ("mute".to_string(), JsonValue::Bool(true)),
        ]),
        "a sigil nested in action parameters must be rewritten too"
    );
}

#[test]
fn a_preset_that_already_names_an_instance_is_left_alone() {
    let mut subject = preset();
    subject.control.default_state = RenderedState {
        text: Some("$(hass.home:light.kitchen.state)".to_string()),
        ..RenderedState::default()
    };
    subject.control.action_bindings[0].actions[0] = Action::InvokeIntegration {
        integration_id: IntegrationId("hass.home".to_string()),
        action_name: "light.toggle".to_string(),
        parameters: JsonValue::Null,
    };
    substitute_self(&mut subject, &IntegrationId("discord.home".to_string()));

    assert_eq!(
        subject.control.default_state.text.as_deref(),
        Some("$(hass.home:light.kitchen.state)")
    );
    let Action::InvokeIntegration { integration_id, .. } =
        &subject.control.action_bindings[0].actions[0]
    else {
        panic!("the binding is an integration call");
    };
    assert_eq!(integration_id.0, "hass.home");
}
