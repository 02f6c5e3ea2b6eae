//! What the daemon and the web UI know about a plugin type without an instance
//! of it existing. One `ConfigField` shape describes instance configuration,
//! action parameters and feedback parameters alike.

use vstd::prelude::*;
use crate::text::owned;

verus! {

/// A plugin type's description, its configuration form, its actions and the
/// values it publishes.
#[derive(Debug)]
pub struct PluginManifest {
    pub plugin_type: &'static str,
    pub display_name: &'static str,
    pub description: &'static str,
    pub config_schema: Vec<ConfigField>,
    pub actions: Vec<ActionDefinition>,
    pub variables: Vec<VariableDefinition>,
}

/// One field of a form.
#[derive(Debug)]
pub struct ConfigField {
    pub key: String,
    pub label: String,
    pub kind: ConfigFieldKind,
    pub is_required: bool,
    pub placeholder: Option<String>,
    pub help: Option<String>,
}

/// What a field holds and how it is edited.
#[derive(Debug)]
pub enum ConfigFieldKind {
    Text,
    Number,
    Boolean,
    /// Never echoed back to the browser, and rewritten on export.
    Secret,
    Select { options: Vec<SelectOption> },
    /// Options the running instance supplies. Free text stays valid, so a raw
    /// id still works when the instance is offline.
    Lookup { source: String },
}

/// One choice of a select field.
#[derive(Debug)]
pub struct SelectOption {
    pub value: String,
    pub label: String,
}

/// A field named `key` of kind `kind`, labelled with its key, optional, with
/// no placeholder and no help.
pub open spec fn fresh_field(field: ConfigField, key: Seq<char>, kind: ConfigFieldKind) -> bool {
    &&& field.key@ == key
    &&& field.label@ == key
    &&& field.kind == kind
    &&& !field.is_required
    &&& field.placeholder is None
    &&& field.help is None
}

/// A field with the given key, label and required flag, and with the given
/// placeholder and help text where there is one.
pub open spec fn field_is(
    field: ConfigField,
    key: Seq<char>,
    label: Seq<char>,
    required: bool,
    placeholder: Option<Seq<char>>,
    help: Option<Seq<char>>,
) -> bool {
    &&& field.key@ == key
    &&& field.label@ == label
    &&& field.is_required == required
    &&& match placeholder {
        Some(p) => field.placeholder matches Some(q) && q@ == p,
        None => field.placeholder is None,
    }
    &&& match help {
        Some(h) => field.help matches Some(g) && g@ == h,
        None => field.help is None,
    }
}

impl ConfigField {
    fn new(key: &str, kind: ConfigFieldKind) -> (field: ConfigField)
        ensures
            fresh_field(field, key@, kind),
    {
        ConfigField {
            key: owned(key),
            label: owned(key),
            kind,
            is_required: false,
            placeholder: None,
            help: None,
        }
    }

    pub fn text(key: &str) -> (field: ConfigField)
        ensures
            fresh_field(field, key@, ConfigFieldKind::Text),
    {
        Self::new(key, ConfigFieldKind::Text)
    }

    pub fn number(key: &str) -> (field: ConfigField)
        ensures
            fresh_field(field, key@, ConfigFieldKind::Number),
    {
        Self::new(key, ConfigFieldKind::Number)
    }

    pub fn boolean(key: &str) -> (field: ConfigField)
        ensures
            fresh_field(field, key@, ConfigFieldKind::Boolean),
    {
        Self::new(key, ConfigFieldKind::Boolean)
    }

    pub fn secret(key: &str) -> (field: ConfigField)
        ensures
            fresh_field(field, key@, ConfigFieldKind::Secret),
    {
        Self::new(key, ConfigFieldKind::Secret)
    }

    /// A field whose options the running instance answers from `source`.
    pub fn lookup(key: &str, source: &str) -> (field: ConfigField)
        ensures
            field.key@ == key@,
            field.label@ == key@,
            field.kind matches ConfigFieldKind::Lookup { source: s } && s@ == source@,
            !field.is_required,
            field.placeholder is None,
            field.help is None,
    {
        Self::new(key, ConfigFieldKind::Lookup { source: owned(source) })
    }

    /// A field choosing among fixed options, each labelled with its value.
    pub fn select(key: &str, options: &[&str]) -> (field: ConfigField)
        ensures
            field.key@ == key@,
            field.label@ == key@,
            field.kind matches ConfigFieldKind::Select { options: choices } && choices@.len()
                == options@.len() && forall|i: int|
                0 <= i < options@.len() ==> (#[trigger] choices@[i]).value@ == options@[i]@
                    && choices@[i].label@ == options@[i]@,
            !field.is_required,
            field.placeholder is None,
            field.help is None,
    {
        let mut choices: Vec<SelectOption> = Vec::new();
        let mut i: usize = 0;
        while i < options.len()
            invariant
                i <= options@.len(),
                choices@.len() == i,
                forall|j: int|
                    0 <= j < i ==> (#[trigger] choices@[j]).value@ == options@[j]@
                        && choices@[j].label@ == options@[j]@,
            decreases options.len() - i,
        {
            choices.push(SelectOption { value: owned(options[i]), label: owned(options[i]) });
            i += 1;
        }
        Self::new(key, ConfigFieldKind::Select { options: choices })
    }

    pub fn label(self, label: &str) -> (field: ConfigField)
        ensures
            field == (ConfigField { label: field.label, ..self }),
            field.label@ == label@,
    {
        ConfigField { label: owned(label), ..self }
    }

    pub fn required(self) -> (field: ConfigField)
        ensures
            field == (ConfigField { is_required: true, ..self }),
    {
        ConfigField { is_required: true, ..self }
    }

    pub fn placeholder(self, placeholder: &str) -> (field: ConfigField)
        ensures
            field == (ConfigField { placeholder: field.placeholder, ..self }),
            field.placeholder matches Some(p) && p@ == placeholder@,
    {
        ConfigField { placeholder: Some(owned(placeholder)), ..self }
    }

    pub fn help(self, help: &str) -> (field: ConfigField)
        ensures
            field == (ConfigField { help: field.help, ..self }),
            field.help matches Some(h) && h@ == help@,
    {
        ConfigField { help: Some(owned(help)), ..self }
    }

    /// Whether the field holds a credential.
    pub fn is_secret(&self) -> (secret: bool)
        ensures
            secret == (self.kind is Secret),
    {
        match self.kind {
            ConfigFieldKind::Secret => true,
            _ => false,
        }
    }
}

/// One action a plugin instance can be asked to run.
#[derive(Debug)]
pub struct ActionDefinition {
    pub name: String,
    pub label: String,
    pub description: Option<String>,
    pub parameters: Vec<ConfigField>,
}

impl ActionDefinition {
    /// An action labelled with its name, with no description and no
    /// parameters.
    pub fn new(name: &str) -> (action: ActionDefinition)
        ensures
            action.name@ == name@,
            action.label@ == name@,
            action.description is None,
            action.parameters@.len() == 0,
    {
        ActionDefinition {
            name: owned(name),
            label: owned(name),
            description: None,
            parameters: Vec::new(),
        }
    }

    pub fn label(self, label: &str) -> (action: ActionDefinition)
        ensures
            action == (ActionDefinition { label: action.label, ..self }),
            action.label@ == label@,
    {
        ActionDefinition { label: owned(label), ..self }
    }

    pub fn description(self, description: &str) -> (action: ActionDefinition)
        ensures
            action == (ActionDefinition { description: action.description, ..self }),
            action.description matches Some(d) && d@ == description@,
    {
        ActionDefinition { description: Some(owned(description)), ..self }
    }

    pub fn parameters(self, parameters: Vec<ConfigField>) -> (action: ActionDefinition)
        ensures
            action == (ActionDefinition { parameters, ..self }),
    {
        ActionDefinition { parameters, ..self }
    }
}

/// One value a plugin instance publishes.
#[derive(Debug)]
pub struct VariableDefinition {
    pub name: String,
    pub label: String,
    pub description: Option<String>,
    pub kind: VariableKind,
}

/// The kind of a published value.
#[derive(Clone, Copy, Debug, PartialEq, Eq, Structural)]
pub enum VariableKind {
    Text,
    Number,
    Boolean,
    Image,
}

impl VariableDefinition {
    /// A value labelled with its name and with no description.
    pub fn new(name: &str, kind: VariableKind) -> (variable: VariableDefinition)
        ensures
            variable.name@ == name@,
            variable.label@ == name@,
            variable.description is None,
            variable.kind == kind,
    {
        VariableDefinition { name: owned(name), label: owned(name), description: None, kind }
    }

    pub fn label(self, label: &str) -> (variable: VariableDefinition)
        ensures
            variable == (VariableDefinition { label: variable.label, ..self }),
            variable.label@ == label@,
    {
        VariableDefinition { label: owned(label), ..self }
    }

    pub fn description(self, description: &str) -> (variable: VariableDefinition)
        ensures
            variable == (VariableDefinition { description: variable.description, ..self }),
            variable.description matches Some(d) && d@ == description@,
    {
        VariableDefinition { description: Some(owned(description)), ..self }
    }
}

} // verus!
