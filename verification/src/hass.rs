//! The Home Assistant integration's own rules: where its websocket lives, how
//! a value name splits into an entity and a field, the actions it declares and
//! the keys it recommends for the entities an installation reports.

use vstd::prelude::*;
use crate::manifest::{
    field_is, ActionDefinition, ConfigField, ConfigFieldKind, PluginManifest, VariableDefinition,
    VariableKind,
};
use crate::identifiers::IntegrationId;
use crate::panels::{
    json_text, member, Action, ActionBinding, ActionTrigger, Border, ColorBinding,
    ControlTemplate, JsonValue, RenderedState, RgbaColor,
};
use crate::preset::Preset;
use crate::template::find_in;
use crate::order::lex_lt;
use crate::http::path_step;
use crate::json::field;
use crate::text::starts_with;
use crate::text::{
    ascii_lowercase, ascii_lowercase_of, chars_between, chars_of, ends_with, ends_with_in,
    find_sub, find_sub_from, owned, result_view, same_chars, str_eq, string_from, string_of, trim_bounds,
    trim_end_bound, trim_end_char, trim_ws,
};

verus! {

/// The websocket scheme an address scheme stands for, if it is one a Home
/// Assistant installation is reached by.
pub open spec fn websocket_scheme(scheme: Seq<char>) -> Option<Seq<char>> {
    if scheme == "http"@ || scheme == "ws"@ {
        Some("ws"@)
    } else if scheme == "https"@ || scheme == "wss"@ {
        Some("wss"@)
    } else {
        None
    }
}

/// The websocket endpoint for the address a user reads off their browser, or
/// what is wrong with the address.
///
/// Surrounding whitespace and trailing slashes are dropped; the scheme is
/// whatever precedes the first `://`, in either case and in either
/// notation; and an `/api/websocket` already on the end is not doubled.
pub open spec fn websocket_url_spec(url: Seq<char>) -> Result<Seq<char>, Seq<char>> {
    let trimmed = trim_end_char(trim_ws(url), '/');
    let separator = find_sub_from(trimmed, "://"@, 0);
    if trimmed.len() == 0 {
        Err("url is required"@)
    } else if separator == trimmed.len() {
        Err(trimmed + " needs a scheme, such as http://homeassistant.local:8123"@)
    } else {
        let scheme = ascii_lowercase(trimmed.take(separator));
        let rest = trim_end_char(trimmed.skip(separator + "://"@.len()), '/');
        let host = if ends_with(rest, "/api/websocket"@) {
            rest.take(rest.len() - "/api/websocket"@.len())
        } else {
            rest
        };
        match websocket_scheme(scheme) {
            None => Err(scheme + ":// is not a Home Assistant address; use http:// or https://"@),
            Some(websocket) => if host.len() == 0 {
                Err(trimmed + " has no host"@)
            } else {
                Ok(websocket + "://"@ + host + "/api/websocket"@)
            },
        }
    }
}

/// Turns the address a user reads off their browser into the websocket
/// endpoint. Both schemes are accepted in either notation because a user
/// pastes whichever their installation shows them, and a pasted
/// `/api/websocket` does not end up doubled.
pub fn websocket_url(url: &str) -> (endpoint: Result<String, String>)
    ensures
        result_view(endpoint) == websocket_url_spec(url@),
{
    let chars = chars_of(url);
    let (start, end) = trim_bounds(&chars, 0, chars.len());
    let end = trim_end_bound(&chars, start, end, '/');
    proof {
        assert(chars@.subrange(0, chars@.len() as int) =~= chars@);
    }
    let trimmed = chars_between(&chars, start, end);
    let ghost t = trimmed@;
    assert(t == trim_end_char(trim_ws(url@), '/'));
    if trimmed.len() == 0 {
        return Err(owned("url is required"));
    }
    let separator_pattern = chars_of("://");
    let separator = find_sub(&trimmed, &separator_pattern);
    if separator == trimmed.len() {
        let mut message = string_from(&trimmed);
        message.push_str(" needs a scheme, such as http://homeassistant.local:8123");
        return Err(message);
    }
    assert(separator + separator_pattern@.len() <= t.len()) by {
        lemma_found_sub_fits(t, "://"@, 0);
    }
    let lowered = ascii_lowercase_of(&trimmed, 0, separator);
    assert(trimmed@.subrange(0, separator as int) =~= t.take(separator as int));
    let scheme: &str = if same_chars(&lowered, &chars_of("http")) || same_chars(
        &lowered,
        &chars_of("ws"),
    ) {
        "ws"
    } else if same_chars(&lowered, &chars_of("https")) || same_chars(&lowered, &chars_of("wss")) {
        "wss"
    } else {
        let mut message = string_from(&lowered);
        message.push_str(":// is not a Home Assistant address; use http:// or https://");
        return Err(message);
    };
    let rest_start = separator + separator_pattern.len();
    let rest_end = trim_end_bound(&trimmed, rest_start, trimmed.len(), '/');
    assert(t.subrange(rest_start as int, t.len() as int) =~= t.skip(rest_start as int));
    let suffix = chars_of("/api/websocket");
    let host_end = if ends_with_in(&trimmed, rest_start, rest_end, &suffix) {
        rest_end - suffix.len()
    } else {
        rest_end
    };
    let ghost rest = t.subrange(rest_start as int, rest_end as int);
    assert(rest.take(host_end - rest_start) =~= t.subrange(rest_start as int, host_end as int));
    if host_end == rest_start {
        let mut message = string_from(&trimmed);
        message.push_str(" has no host");
        return Err(message);
    }
    let host = string_of(&trimmed, rest_start, host_end);
    let mut endpoint = owned(scheme);
    endpoint.push_str("://");
    endpoint.push_str(host.as_str());
    endpoint.push_str("/api/websocket");
    Ok(endpoint)
}

/// Where `find_sub_from` stops short of the end, the pattern fits there.
proof fn lemma_found_sub_fits(t: Seq<char>, pattern: Seq<char>, from: int)
    requires
        0 <= from,
        find_sub_from(t, pattern, from) < t.len(),
    ensures
        find_sub_from(t, pattern, from) + pattern.len() <= t.len(),
    decreases t.len() - from,
{
    if from < t.len() && !crate::text::occurs_at(t, pattern, from) {
        lemma_found_sub_fits(t, pattern, from + 1);
    }
}

/// One subscribed value name, split into the entity it reads and the part of
/// that entity's state it publishes.
#[derive(Debug)]
pub struct ValueBinding {
    pub name: String,
    pub entity_id: String,
    pub field: String,
}

/// `light.kitchen.color` read as the entity `light.kitchen` and the field
/// `color`. An entity id is exactly two segments, so everything after the
/// second dot is the field, and a bare entity id reads its `state`. `None`
/// for a name with an empty domain, object id or field.
pub open spec fn parse_binding_spec(name: Seq<char>) -> Option<(Seq<char>, Seq<char>)> {
    let dot = crate::template::find_from(name, '.', 0);
    if dot >= name.len() || dot == 0 {
        None
    } else {
        let rest = name.skip(dot + 1);
        let second = crate::template::find_from(rest, '.', 0);
        let object_id = if second < rest.len() {
            rest.take(second)
        } else {
            rest
        };
        let field = if second < rest.len() {
            rest.skip(second + 1)
        } else {
            "state"@
        };
        if object_id.len() == 0 || field.len() == 0 {
            None
        } else {
            Some((name.take(dot) + seq!['.'] + object_id, field))
        }
    }
}

/// Reads `light.kitchen.color` as "the colour of `light.kitchen`".
pub fn parse_binding(name: &str) -> (binding: Option<ValueBinding>)
    ensures
        match binding {
            Some(b) => b.name@ == name@ && parse_binding_spec(name@) == Some((b.entity_id@, b.field@)),
            None => parse_binding_spec(name@) is None,
        },
{
    let chars = chars_of(name);
    let len = chars.len();
    proof {
        assert(chars@.subrange(0, len as int) =~= chars@);
    }
    let dot = find_in(&chars, '.', 0, len);
    if dot >= len || dot == 0 {
        return None;
    }
    proof {
        crate::template::lemma_find_from_bounds(name@, '.', 0);
    }
    let second = find_in(&chars, '.', dot + 1, len);
    let ghost rest = name@.skip(dot + 1);
    assert(chars@.subrange(dot + 1, len as int) =~= rest);
    let (object_end, field_start) = if second < len {
        (second, second + 1)
    } else {
        (len, len)
    };
    if object_end == dot + 1 {
        return None;
    }
    let field = if second < len {
        if field_start == len {
            return None;
        }
        string_of(&chars, field_start, len)
    } else {
        owned("state")
    };
    proof {
        if second < len {
            assert(rest.skip(second - dot) =~= chars@.subrange(field_start as int, len as int));
        }
        assert(rest.take(object_end - dot - 1) =~= chars@.subrange(dot + 1, object_end as int));
    }
    let mut entity_id = string_of(&chars, 0, dot + 1);
    let object_id = string_of(&chars, dot + 1, object_end);
    entity_id.push_str(object_id.as_str());
    proof {
        assert(chars@.subrange(0, dot + 1) =~= name@.take(dot as int) + seq!['.']);
        let s = crate::template::find_from(rest, '.', 0);
        assert(s == second - dot - 1);
        if second < len {
            assert(rest.take(s) =~= object_id@);
            assert(rest.skip(s + 1) =~= field@);
        } else {
            assert(rest =~= object_id@);
        }
    }
    proof {
        let s = crate::template::find_from(rest, '.', 0);
        reveal_strlit("state");
        let object_spec = if s < rest.len() { rest.take(s) } else { rest };
        assert(entity_id@ =~= name@.take(dot as int) + seq!['.'] + object_spec);
    }
    Some(ValueBinding { name: owned(name), entity_id, field })
}


/// The action that calls any service.
pub const CALL_SERVICE: &'static str = "call_service";

/// Toggles a light.
pub const LIGHT_TOGGLE: &'static str = "light.toggle";

/// Turns a light on, optionally at a colour and brightness.
pub const LIGHT_TURN_ON: &'static str = "light.turn_on";

/// Turns a light off.
pub const LIGHT_TURN_OFF: &'static str = "light.turn_off";

/// Sets a light's colour.
pub const LIGHT_SET_COLOR: &'static str = "light.set_color";

/// The required `entity_id` field every light action takes.
pub open spec fn is_entity_field(field: ConfigField) -> bool {
    field_is(field, "entity_id"@, "Entity"@, true, Some("light.kitchen"@), None) && field.kind
        is Text
}

/// The optional `brightness_pct` number field.
pub open spec fn is_brightness_field(field: ConfigField) -> bool {
    field_is(field, "brightness_pct"@, "Brightness (%)"@, false, None, None) && field.kind is Number
}

/// The `color` text field, required or not and with the given help.
pub open spec fn is_color_field(field: ConfigField, required: bool, help: Option<Seq<char>>) -> bool {
    field_is(field, "color"@, "Colour"@, required, Some("#e8b923"@), help) && field.kind is Text
}

/// The five actions the integration declares, in order, with their forms.
pub open spec fn declared_actions(actions: Seq<ActionDefinition>) -> bool {
    &&& actions.len() == 5
    &&& actions[0].name@ == CALL_SERVICE@
    &&& actions[0].label@ == "Call a service"@
    &&& actions[0].description matches Some(d) && d@
        == "Calls any Home Assistant service. Every field resolves $(...) references."@
    &&& actions[0].parameters@.len() == 4
    &&& field_is(actions[0].parameters@[0], "domain"@, "Domain"@, true, Some("light"@), None)
    &&& actions[0].parameters@[0].kind is Text
    &&& field_is(actions[0].parameters@[1], "service"@, "Service"@, true, Some("turn_on"@), None)
    &&& actions[0].parameters@[1].kind is Text
    &&& field_is(actions[0].parameters@[2], "entity_id"@, "Entity"@, false, Some("light.kitchen"@), None)
    &&& actions[0].parameters@[2].kind is Text
    &&& field_is(
        actions[0].parameters@[3],
        "service_data"@,
        "Service data"@,
        false,
        Some("{ \"brightness_pct\": 40 }"@),
        Some("JSON object sent as the service data."@),
    )
    &&& actions[0].parameters@[3].kind is Text
    &&& actions[1].name@ == LIGHT_TOGGLE@
    &&& actions[1].label@ == "Toggle a light"@
    &&& actions[1].description is None
    &&& actions[1].parameters@.len() == 1
    &&& is_entity_field(actions[1].parameters@[0])
    &&& actions[2].name@ == LIGHT_TURN_ON@
    &&& actions[2].label@ == "Turn a light on"@
    &&& actions[2].description is None
    &&& actions[2].parameters@.len() == 3
    &&& is_entity_field(actions[2].parameters@[0])
    &&& is_brightness_field(actions[2].parameters@[1])
    &&& is_color_field(actions[2].parameters@[2], false, Some("Optional. #rrggbb or r,g,b."@))
    &&& actions[3].name@ == LIGHT_TURN_OFF@
    &&& actions[3].label@ == "Turn a light off"@
    &&& actions[3].description is None
    &&& actions[3].parameters@.len() == 1
    &&& is_entity_field(actions[3].parameters@[0])
    &&& actions[4].name@ == LIGHT_SET_COLOR@
    &&& actions[4].label@ == "Set a light's colour"@
    &&& actions[4].description is None
    &&& actions[4].parameters@.len() == 3
    &&& is_entity_field(actions[4].parameters@[0])
    &&& is_color_field(actions[4].parameters@[1], true, None)
    &&& is_brightness_field(actions[4].parameters@[2])
}

/// The actions the integration declares. The convenience actions exist so a
/// binding reads as what it does; they all end up as a service call.
pub fn definitions() -> (actions: Vec<ActionDefinition>)
    ensures
        declared_actions(actions@),
{
    let call_service = ActionDefinition::new(CALL_SERVICE).label("Call a service").description(
        "Calls any Home Assistant service. Every field resolves $(...) references.",
    ).parameters(
        vec![
            ConfigField::text("domain").label("Domain").placeholder("light").required(),
            ConfigField::text("service").label("Service").placeholder("turn_on").required(),
            ConfigField::text("entity_id").label("Entity").placeholder("light.kitchen"),
            ConfigField::text("service_data").label("Service data").placeholder(
                "{ \"brightness_pct\": 40 }",
            ).help("JSON object sent as the service data."),
        ],
    );
    let toggle = ActionDefinition::new(LIGHT_TOGGLE).label("Toggle a light").parameters(
        vec![entity_field()],
    );
    let turn_on = ActionDefinition::new(LIGHT_TURN_ON).label("Turn a light on").parameters(
        vec![entity_field(), brightness_field(), color_field().help("Optional. #rrggbb or r,g,b.")],
    );
    let turn_off = ActionDefinition::new(LIGHT_TURN_OFF).label("Turn a light off").parameters(
        vec![entity_field()],
    );
    let set_color = ActionDefinition::new(LIGHT_SET_COLOR).label("Set a light's colour").parameters(
        vec![entity_field(), color_field().required(), brightness_field()],
    );
    vec![call_service, toggle, turn_on, turn_off, set_color]
}

fn entity_field() -> (field: ConfigField)
    ensures
        is_entity_field(field),
{
    ConfigField::text("entity_id").label("Entity").placeholder("light.kitchen").required()
}

fn brightness_field() -> (field: ConfigField)
    ensures
        is_brightness_field(field),
{
    ConfigField::number("brightness_pct").label("Brightness (%)")
}

fn color_field() -> (field: ConfigField)
    ensures
        is_color_field(field, false, None),
{
    ConfigField::text("color").label("Colour").placeholder("#e8b923")
}

/// A published value with the given name, kind and description.
pub open spec fn variable_is(
    variable: VariableDefinition,
    name: Seq<char>,
    kind: VariableKind,
    description: Seq<char>,
) -> bool {
    &&& variable.name@ == name
    &&& variable.label@ == name
    &&& variable.kind == kind
    &&& variable.description matches Some(d) && d@ == description
}

/// Every value name is `<entity_id>.<field>`, so what a panel can read is
/// described by field rather than enumerated.
pub open spec fn published_variables(variables: Seq<VariableDefinition>) -> bool {
    &&& variables.len() == 6
    &&& variable_is(
        variables[0],
        "<entity_id>.state"@,
        VariableKind::Text,
        "The entity's state, such as on, off or 21.4."@,
    )
    &&& variable_is(
        variables[1],
        "<entity_id>.on"@,
        VariableKind::Boolean,
        "Whether the entity's state is on."@,
    )
    &&& variable_is(
        variables[2],
        "<entity_id>.color"@,
        VariableKind::Text,
        "The entity's colour, for background_color and foreground_color. White when an entity without a colour is on, black otherwise."@,
    )
    &&& variable_is(
        variables[3],
        "<entity_id>.brightness"@,
        VariableKind::Number,
        "Brightness from 0 to 255."@,
    )
    &&& variable_is(
        variables[4],
        "<entity_id>.brightness_pct"@,
        VariableKind::Number,
        "Brightness from 0 to 100."@,
    )
    &&& variable_is(
        variables[5],
        "<entity_id>.<attribute>"@,
        VariableKind::Text,
        "Any other attribute, such as light.kitchen.friendly_name."@,
    )
}

fn variables() -> (variables: Vec<VariableDefinition>)
    ensures
        published_variables(variables@),
{
    vec![
        VariableDefinition::new("<entity_id>.state", VariableKind::Text).description(
            "The entity's state, such as on, off or 21.4.",
        ),
        VariableDefinition::new("<entity_id>.on", VariableKind::Boolean).description(
            "Whether the entity's state is on.",
        ),
        VariableDefinition::new("<entity_id>.color", VariableKind::Text).description(
            "The entity's colour, for background_color and foreground_color. White when an entity without a colour is on, black otherwise.",
        ),
        VariableDefinition::new("<entity_id>.brightness", VariableKind::Number).description(
            "Brightness from 0 to 255.",
        ),
        VariableDefinition::new("<entity_id>.brightness_pct", VariableKind::Number).description(
            "Brightness from 0 to 100.",
        ),
        VariableDefinition::new("<entity_id>.<attribute>", VariableKind::Text).description(
            "Any other attribute, such as light.kitchen.friendly_name.",
        ),
    ]
}

/// The integration's manifest. Every action it declares has parameters the
/// web form can render, and its access token is a secret field.
pub fn manifest() -> (manifest: PluginManifest)
    ensures
        manifest.plugin_type@ == "hass"@,
        manifest.display_name@ == "Home Assistant"@,
        manifest.description@ == "Entities and services from a Home Assistant installation."@,
        manifest.config_schema@.len() == 2,
        field_is(
            manifest.config_schema@[0],
            "url"@,
            "URL"@,
            true,
            Some("http://homeassistant.local:8123"@),
            Some("The address you open Home Assistant at."@),
        ),
        manifest.config_schema@[0].kind is Text,
        field_is(
            manifest.config_schema@[1],
            "token"@,
            "Access token"@,
            true,
            None,
            Some("A long-lived access token from your Home Assistant profile."@),
        ),
        manifest.config_schema@[1].kind is Secret,
        declared_actions(manifest.actions@),
        published_variables(manifest.variables@),
        forall|i: int|
            0 <= i < manifest.actions@.len() ==> (#[trigger] manifest.actions@[i]).parameters@.len()
                > 0,
{
    PluginManifest {
        plugin_type: "hass",
        display_name: "Home Assistant",
        description: "Entities and services from a Home Assistant installation.",
        config_schema: vec![
            ConfigField::text("url").label("URL").placeholder(
                "http://homeassistant.local:8123",
            ).required().help("The address you open Home Assistant at."),
            ConfigField::secret("token").label("Access token").required().help(
                "A long-lived access token from your Home Assistant profile.",
            ),
        ],
        actions: definitions(),
        variables: variables(),
    }
}


/// What is known of one entity an installation reports.
#[derive(Clone, Debug)]
pub struct CatalogueEntry {
    pub friendly_name: Option<String>,
    pub domain: String,
}

/// What one press of a key for a domain does, and whether reading the
/// entity's state back says anything a person wants on the key.
struct Recommended {
    category: &'static str,
    service: &'static str,
    reports_state: bool,
}

/// The picker category, the service a press calls and whether the state is
/// worth printing, for the domains a single press can act on. A sensor is
/// left out deliberately: it has nothing to press.
pub open spec fn recommended_spec(domain: Seq<char>) -> Option<(Seq<char>, Seq<char>, bool)> {
    if domain == "light"@ {
        Some(("Lights"@, "toggle"@, true))
    } else if domain == "switch"@ {
        Some(("Switches"@, "toggle"@, true))
    } else if domain == "fan"@ {
        Some(("Fans"@, "toggle"@, true))
    } else if domain == "input_boolean"@ {
        Some(("Toggles"@, "toggle"@, true))
    } else if domain == "cover"@ {
        Some(("Covers"@, "toggle"@, true))
    } else if domain == "automation"@ {
        Some(("Automations"@, "toggle"@, true))
    } else if domain == "media_player"@ {
        Some(("Media players"@, "media_play_pause"@, true))
    } else if domain == "scene"@ {
        Some(("Scenes"@, "turn_on"@, false))
    } else if domain == "script"@ {
        Some(("Scripts"@, "turn_on"@, false))
    } else if domain == "input_button"@ {
        Some(("Buttons"@, "press"@, false))
    } else {
        None
    }
}

fn recommended(domain: &str) -> (shape: Option<Recommended>)
    ensures
        match shape {
            Some(r) => recommended_spec(domain@) == Some((r.category@, r.service@, r.reports_state)),
            None => recommended_spec(domain@) is None,
        },
{
    let (category, service, reports_state): (&'static str, &'static str, bool) = if str_eq(
        domain,
        "light",
    ) {
        ("Lights", "toggle", true)
    } else if str_eq(domain, "switch") {
        ("Switches", "toggle", true)
    } else if str_eq(domain, "fan") {
        ("Fans", "toggle", true)
    } else if str_eq(domain, "input_boolean") {
        ("Toggles", "toggle", true)
    } else if str_eq(domain, "cover") {
        ("Covers", "toggle", true)
    } else if str_eq(domain, "automation") {
        ("Automations", "toggle", true)
    } else if str_eq(domain, "media_player") {
        ("Media players", "media_play_pause", true)
    } else if str_eq(domain, "scene") {
        ("Scenes", "turn_on", false)
    } else if str_eq(domain, "script") {
        ("Scripts", "turn_on", false)
    } else if str_eq(domain, "input_button") {
        ("Buttons", "press", false)
    } else {
        return None;
    };
    Some(Recommended { category, service, reports_state })
}

/// What a key for an entity is called: its friendly name, or its id when it
/// has none.
pub open spec fn shown_name(entity_id: Seq<char>, entry: CatalogueEntry) -> Seq<char> {
    match entry.friendly_name {
        Some(name) => name@,
        None => entity_id,
    }
}

/// The label of a key: the name, and under it the entity's state where that
/// is worth reading.
pub open spec fn key_text(entity_id: Seq<char>, name: Seq<char>, reports_state: bool) -> Seq<char> {
    if reports_state {
        name + "\n$(self:"@ + entity_id + ".state)"@
    } else {
        name
    }
}

/// A light is outlined in its own reported colour; nothing else is outlined.
pub open spec fn outline_is(border: Option<Border>, domain: Seq<char>, entity_id: Seq<char>) -> bool {
    if domain == "light"@ {
        &&& border matches Some(b)
        &&& b.width == 5
        &&& (b.color matches ColorBinding::Reference(r) && r@ == "$(self:"@ + entity_id + ".color)"@)
    } else {
        border is None
    }
}

/// A JSON object whose members are, in order, the given keys with the given
/// text values.
pub open spec fn text_members_are(value: JsonValue, members: Seq<(Seq<char>, Seq<char>)>) -> bool {
    &&& value matches JsonValue::Object(fields)
    &&& fields@.len() == members.len()
    &&& forall|i: int|
        0 <= i < members.len() ==> (#[trigger] fields@[i]).0@ == members[i].0 && (fields@[i].1 matches JsonValue::Text(t) && t@ == members[i].1)
}

/// A press of the publishing instance: a light toggles through its shortcut,
/// anything else calls its domain's service on the entity.
pub open spec fn press_is(action: Action, entity_id: Seq<char>, domain: Seq<char>, service: Seq<char>) -> bool {
    action matches Action::InvokeIntegration { integration_id, action_name, parameters }
        && integration_id@ == "self"@ && if domain == "light"@ {
        action_name@ == LIGHT_TOGGLE@ && text_members_are(parameters, seq![("entity_id"@, entity_id)])
    } else {
        action_name@ == CALL_SERVICE@ && text_members_are(
            parameters,
            seq![("domain"@, domain), ("service"@, service), ("entity_id"@, entity_id)],
        )
    }
}

/// The key recommended for a pressable entity.
pub open spec fn is_recommended_preset(preset: Preset, entity_id: Seq<char>, entry: CatalogueEntry) -> bool {
    let domain = entry.domain@;
    let shape = recommended_spec(domain)->0;
    let name = shown_name(entity_id, entry);
    let state = preset.control.default_state;
    &&& preset.preset_id@ == entity_id
    &&& preset.category@ == shape.0
    &&& preset.name@ == name
    &&& preset.description matches Some(d) && d@ == entity_id
    &&& preset.control.name@ == name
    &&& state.text matches Some(t) && t@ == key_text(entity_id, name, shape.2)
    &&& state.image is None
    &&& state.overlay_image is None
    &&& state.image_tint is None
    &&& state.bar is None
    &&& state.foreground_color == Some(
        ColorBinding::Literal(RgbaColor { red: 255, green: 255, blue: 255, alpha: 255 }),
    )
    &&& state.background_color == Some(
        ColorBinding::Literal(RgbaColor { red: 30, green: 41, blue: 59, alpha: 255 }),
    )
    &&& outline_is(state.border, domain, entity_id)
    &&& !state.is_pressed
    &&& preset.control.pressed_state is None
    &&& preset.control.action_bindings@.len() == 1
    &&& preset.control.action_bindings@[0].gesture == ActionTrigger::Press
    &&& preset.control.action_bindings@[0].actions@.len() == 1
    &&& press_is(preset.control.action_bindings@[0].actions@[0], entity_id, domain, shape.1)
}

/// The indices below `n` of the entries worth a key, in order.
pub open spec fn offered_upto(catalogue: Seq<(String, CatalogueEntry)>, n: int) -> Seq<int>
    decreases n,
{
    if n <= 0 {
        seq![]
    } else if recommended_spec(catalogue[n - 1].1.domain@) is Some {
        offered_upto(catalogue, n - 1).push(n - 1)
    } else {
        offered_upto(catalogue, n - 1)
    }
}

/// The indices of the entries worth a key, in the catalogue's order.
pub open spec fn offered(catalogue: Seq<(String, CatalogueEntry)>) -> Seq<int> {
    offered_upto(catalogue, catalogue.len() as int)
}

/// Entity ids strictly ascending: each id once, in the catalogue's sorted order.
pub open spec fn ids_ascending(catalogue: Seq<(String, CatalogueEntry)>) -> bool {
    forall|i: int, j: int|
        0 <= i < j < catalogue.len() ==> lex_lt(#[trigger] catalogue[i].0@, #[trigger] catalogue[j].0@)
}

/// The offered indices below `n` lie below `n` and strictly ascend.
proof fn lemma_offered_ascending(catalogue: Seq<(String, CatalogueEntry)>, n: int)
    requires
        n <= catalogue.len(),
    ensures
        forall|k: int| 0 <= k < offered_upto(catalogue, n).len()
            ==> 0 <= #[trigger] offered_upto(catalogue, n)[k] < n,
        forall|k: int, l: int| 0 <= k < l < offered_upto(catalogue, n).len()
            ==> #[trigger] offered_upto(catalogue, n)[k] < #[trigger] offered_upto(catalogue, n)[l],
    decreases n,
{
    if n > 0 {
        lemma_offered_ascending(catalogue, n - 1);
        let before = offered_upto(catalogue, n - 1);
        let now = offered_upto(catalogue, n);
        if recommended_spec(catalogue[n - 1].1.domain@) is Some {
            assert(now == before.push(n - 1));
            assert forall|k: int| 0 <= k < now.len() implies 0 <= #[trigger] now[k] < n by {
                if k < before.len() {
                    assert(now[k] == before[k]);
                }
            }
            assert forall|k: int, l: int| 0 <= k < l < now.len() implies #[trigger] now[k] < #[trigger] now[l] by {
                assert(now[k] == before[k]);
                if l < before.len() {
                    assert(now[l] == before[l]);
                }
            }
        } else {
            assert(now == before);
        }
    }
}

/// One ready-made key per entity worth pressing, in the catalogue's own order
/// so that republishing after a rename does not shuffle the picker around
/// whatever the cursor is over. The catalogue is given as (entity id, entry)
/// pairs; a catalogue kept sorted by entity id, one entry per id, gives its
/// keys in that order.
pub fn from_catalogue(catalogue: &[(String, CatalogueEntry)]) -> (presets: Vec<Preset>)
    ensures
        presets@.len() == offered(catalogue@).len(),
        forall|i: int|
            0 <= i < presets@.len() ==> is_recommended_preset(
                #[trigger] presets@[i],
                catalogue@[offered(catalogue@)[i]].0@,
                catalogue@[offered(catalogue@)[i]].1,
            ),
        ids_ascending(catalogue@) ==> forall|i: int, j: int|
            0 <= i < j < presets@.len() ==> lex_lt(
                #[trigger] presets@[i].preset_id@,
                #[trigger] presets@[j].preset_id@,
            ),
{
    let mut presets: Vec<Preset> = Vec::new();
    let mut i: usize = 0;
    while i < catalogue.len()
        invariant
            i <= catalogue@.len(),
            presets@.len() == offered_upto(catalogue@, i as int).len(),
            forall|j: int|
                0 <= j < presets@.len() ==> is_recommended_preset(
                    #[trigger] presets@[j],
                    catalogue@[offered_upto(catalogue@, i as int)[j]].0@,
                    catalogue@[offered_upto(catalogue@, i as int)[j]].1,
                ),
        decreases catalogue.len() - i,
    {
        let entry = &catalogue[i];
        match recommended(entry.1.domain.as_str()) {
            Some(shape) => {
                let made = preset(entry.0.as_str(), &entry.1, &shape);
                presets.push(made);
            },
            None => {},
        }
        i += 1;
    }
    proof {
        lemma_offered_ascending(catalogue@, catalogue@.len() as int);
        if ids_ascending(catalogue@) {
            assert forall|a: int, b: int| 0 <= a < b < presets@.len() implies lex_lt(
                #[trigger] presets@[a].preset_id@,
                #[trigger] presets@[b].preset_id@,
            ) by {
                let ka = offered(catalogue@)[a];
                let kb = offered(catalogue@)[b];
                assert(ka < kb);
                assert(lex_lt(catalogue@[ka].0@, catalogue@[kb].0@));
            }
        }
    }
    presets
}

fn preset(entity_id: &str, entry: &CatalogueEntry, shape: &Recommended) -> (made: Preset)
    requires
        recommended_spec(entry.domain@) == Some((shape.category@, shape.service@, shape.reports_state)),
    ensures
        is_recommended_preset(made, entity_id@, *entry),
{
    let name = match &entry.friendly_name {
        Some(friendly) => friendly.clone(),
        None => owned(entity_id),
    };
    let mut text = name.clone();
    if shape.reports_state {
        text.push_str("\n$(self:");
        text.push_str(entity_id);
        text.push_str(".state)");
    }
    let default_state = RenderedState {
        text: Some(text),
        image: None,
        image_tint: None,
        overlay_image: None,
        foreground_color: Some(ColorBinding::Literal(RgbaColor::opaque(255, 255, 255))),
        background_color: Some(ColorBinding::Literal(RgbaColor::opaque(30, 41, 59))),
        border: outline(entry.domain.as_str(), entity_id),
        bar: None,
        is_pressed: false,
    };
    let press = press(entity_id, entry.domain.as_str(), shape.service);
    Preset {
        preset_id: owned(entity_id),
        category: owned(shape.category),
        name: name.clone(),
        description: Some(owned(entity_id)),
        control: ControlTemplate {
            name,
            default_state,
            pressed_state: None,
            action_bindings: vec![ActionBinding { gesture: ActionTrigger::Press, actions: vec![press] }],
        },
    }
}

/// A light is the only domain that reports a colour of its own. It goes on the
/// outline rather than the face, so the label stays legible whatever the
/// light's colour.
fn outline(domain: &str, entity_id: &str) -> (border: Option<Border>)
    ensures
        outline_is(border, domain@, entity_id@),
{
    if str_eq(domain, "light") {
        let mut reference = owned("$(self:");
        reference.push_str(entity_id);
        reference.push_str(".color)");
        Some(Border { color: ColorBinding::Reference(reference), width: 5 })
    } else {
        None
    }
}

fn press(entity_id: &str, domain: &str, service: &str) -> (action: Action)
    ensures
        press_is(action, entity_id@, domain@, service@),
{
    let (action_name, parameters) = if str_eq(domain, "light") {
        (LIGHT_TOGGLE, JsonValue::Object(vec![member("entity_id", json_text(entity_id))]))
    } else {
        (
            CALL_SERVICE,
            JsonValue::Object(
                vec![
                    member("domain", json_text(domain)),
                    member("service", json_text(service)),
                    member("entity_id", json_text(entity_id)),
                ],
            ),
        )
    };
    Action::InvokeIntegration {
        integration_id: IntegrationId(owned("self")),
        action_name: owned(action_name),
        parameters,
    }
}

} // verus!

verus! {

/// Walking the rest of a dotted path from `current`, the segment read so far
/// being `segment`: every dot ends a segment and every segment is a step, so
/// an empty one names nothing in an array and the member named `""` in an
/// object.
pub open spec fn field_walk(current: Option<JsonValue>, segment: Seq<char>, rest: Seq<char>) -> Option<JsonValue>
    decreases rest.len(),
{
    if rest.len() == 0 {
        path_step(current, segment)
    } else if rest[0] == '.' {
        field_walk(path_step(current, segment), Seq::empty(), rest.drop_first())
    } else {
        field_walk(current, segment.push(rest[0]), rest.drop_first())
    }
}

/// The path a field reads once a leading `attributes.` is taken off.
pub open spec fn attribute_path(path: Seq<char>) -> Seq<char> {
    if starts_with(path, "attributes."@) {
        path.skip(11)
    } else {
        path
    }
}

/// What a path reads of one entity state. The attributes win over the top
/// level, so `friendly_name` reads the way Home Assistant writes it while
/// `last_changed` still resolves; a state without attributes reads nothing.
pub open spec fn state_lookup(state: JsonValue, path: Seq<char>) -> Option<JsonValue> {
    let path = attribute_path(path);
    match field(state, "attributes"@) {
        None => None,
        Some(attributes) => match field_walk(Some(attributes), Seq::empty(), path) {
            Some(found) => Some(found),
            None => field_walk(Some(state), Seq::empty(), path),
        },
    }
}

fn walk_fields<'a>(document: &'a JsonValue, chars: &Vec<char>, start: usize) -> (found: Option<&'a JsonValue>)
    requires
        start <= chars@.len(),
    ensures
        match found {
            Some(v) => field_walk(Some(*document), Seq::empty(), chars@.skip(start as int)) == Some(*v),
            None => field_walk(Some(*document), Seq::empty(), chars@.skip(start as int)) is None,
        },
{
    let ghost path = chars@.skip(start as int);
    let mut current: Option<&JsonValue> = Some(document);
    let mut segment: Vec<char> = Vec::new();
    let mut i: usize = start;
    while i < chars.len()
        invariant
            start <= i <= chars@.len(),
            path == chars@.skip(start as int),
            field_walk(Some(*document), Seq::empty(), path) == field_walk(
                match current {
                    Some(v) => Some(*v),
                    None => None,
                },
                segment@,
                chars@.skip(i as int),
            ),
        decreases chars.len() - i,
    {
        let ghost rest = chars@.skip(i as int);
        assert(rest[0] == chars@[i as int]);
        assert(rest.drop_first() =~= chars@.skip(i + 1));
        if chars[i] == '.' {
            current = match current {
                Some(v) => crate::http::step(v, &segment),
                None => None,
            };
            segment = Vec::new();
        } else {
            segment.push(chars[i]);
        }
        i += 1;
    }
    assert(chars@.skip(i as int).len() == 0);
    match current {
        Some(v) => crate::http::step(v, &segment),
        None => None,
    }
}

/// What a path reads of one entity state: the attributes first, then the
/// top level, after a leading `attributes.` is taken off the path.
pub fn state_field<'a>(state: &'a JsonValue, path: &str) -> (found: Option<&'a JsonValue>)
    ensures
        match found {
            Some(v) => state_lookup(*state, path@) == Some(*v),
            None => state_lookup(*state, path@) is None,
        },
{
    let chars = chars_of(path);
    let start: usize = if crate::text::str_starts_with(path, "attributes.") {
        11
    } else {
        0
    };
    proof {
        reveal_strlit("attributes.");
        assert(chars@.skip(0) =~= chars@);
    }
    let attributes = match crate::json::get(state, "attributes") {
        Some(attributes) => attributes,
        None => return None,
    };
    match walk_fields(attributes, &chars, start) {
        Some(found) => Some(found),
        None => walk_fields(state, &chars, start),
    }
}

} // verus!

verus! {

/// A colour component written as a decimal byte, whitespace around it
/// allowed.
pub open spec fn component_byte(part: Seq<char>) -> Option<u8> {
    match crate::numbers::parse_bounded_spec(trim_ws(part), 10, 255) {
        Some(v) => Some(v as u8),
        None => None,
    }
}

/// The colour `r, g, b` spells: exactly three comma-separated decimal bytes.
pub open spec fn comma_color(text: Seq<char>) -> Option<RgbaColor> {
    let i = crate::template::find_from(text, ',', 0);
    let j = crate::template::find_from(text, ',', i + 1);
    let k = crate::template::find_from(text, ',', j + 1);
    if i < text.len() && j < text.len() && k == text.len() {
        match (
            component_byte(text.subrange(0, i)),
            component_byte(text.subrange(i + 1, j)),
            component_byte(text.subrange(j + 1, text.len() as int)),
        ) {
            (Some(red), Some(green), Some(blue)) => Some(RgbaColor { red, green, blue, alpha: 255 }),
            _ => None,
        }
    } else {
        None
    }
}

/// The colour a light action is given: `#rrggbb`, `#rrggbbaa`, or `r, g, b`.
pub open spec fn action_color(text: Seq<char>) -> Option<RgbaColor> {
    match crate::resolve::hex_color(text) {
        Some(color) => Some(color),
        None => comma_color(text),
    }
}

fn component_at(chars: &Vec<char>, start: usize, end: usize) -> (byte: Option<u8>)
    requires
        start <= end <= chars@.len(),
    ensures
        byte == component_byte(chars@.subrange(start as int, end as int)),
{
    let (from, to) = crate::text::trim_bounds(chars, start, end);
    let part = string_of(chars, from, to);
    match crate::numbers::parse_radix(part.as_str(), 10, 255) {
        Some(v) => Some(v as u8),
        None => None,
    }
}

/// Reads the colour a light action is given: `#rrggbb`, `#rrggbbaa`, or
/// three comma-separated decimal bytes such as `232, 185, 35`.
pub fn parse_color(text: &str) -> (color: Option<RgbaColor>)
    ensures
        color == action_color(text@),
{
    match RgbaColor::from_hex(text) {
        Some(color) => return Some(color),
        None => {},
    }
    let chars = chars_of(text);
    let n = chars.len();
    proof {
        assert(chars@.subrange(0, n as int) =~= chars@);
    }
    let i = crate::template::find_in(&chars, ',', 0, n);
    if i == n {
        return None;
    }
    let j = crate::template::find_in(&chars, ',', i + 1, n);
    if j == n {
        return None;
    }
    let k = crate::template::find_in(&chars, ',', j + 1, n);
    if k != n {
        return None;
    }
    let red = component_at(&chars, 0, i);
    let green = component_at(&chars, i + 1, j);
    let blue = component_at(&chars, j + 1, n);
    match (red, green, blue) {
        (Some(red), Some(green), Some(blue)) => Some(RgbaColor::opaque(red, green, blue)),
        _ => None,
    }
}

} // verus!
