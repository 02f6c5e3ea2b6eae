//! What the daemon and a running plugin instance exchange: errors, the values
//! a panel watches, lookup choices, and the signals the engine reacts to.

use vstd::prelude::*;
use crate::identifiers::{IntegrationId, SurfaceId};
use crate::panels::Control;
use crate::surfaces::SurfaceLogLevel;
use crate::template::VariableRef;
use crate::text::owned;

verus! {

/// Why an instance refused a request.
#[derive(Clone, Debug, PartialEq, Eq)]
pub enum PluginError {
    Configuration(String),
    UnknownAction(String),
    Upstream(String),
    NotImplemented,
}

/// The sentence an error reads as.
pub open spec fn error_message(error: PluginError) -> Seq<char> {
    match error {
        PluginError::Configuration(reason) => "configuration is invalid: "@ + reason@,
        PluginError::UnknownAction(name) => "unknown action "@ + name@,
        PluginError::Upstream(reason) => reason@,
        PluginError::NotImplemented => "not implemented yet"@,
    }
}

impl PluginError {
    /// The sentence the error reads as.
    pub fn message(&self) -> (text: String)
        ensures
            text@ == error_message(*self),
    {
        match self {
            PluginError::Configuration(reason) => {
                let mut text = owned("configuration is invalid: ");
                text.push_str(reason.as_str());
                text
            },
            PluginError::UnknownAction(name) => {
                let mut text = owned("unknown action ");
                text.push_str(name.as_str());
                text
            },
            PluginError::Upstream(reason) => reason.clone(),
            PluginError::NotImplemented => owned("not implemented yet"),
        }
    }
}

/// A value name something on screen is watching. Free-form: the daemon never
/// parses it, the instance that publishes it does.
#[derive(Debug)]
pub struct Subscription {
    pub name: String,
}

impl Clone for Subscription {
    fn clone(&self) -> (copy: Self)
        ensures
            copy == *self,
    {
        Subscription { name: self.name.clone() }
    }
}

/// One choice for a lookup field. `group` is what the form sorts and labels
/// by, in the plugin's own vocabulary.
#[derive(Clone, Debug)]
pub struct LookupOption {
    pub value: String,
    pub label: String,
    pub group: Option<String>,
}

impl LookupOption {
    /// A choice with no group.
    pub fn new(value: String, label: String) -> (option: LookupOption)
        ensures
            option.value == value,
            option.label == label,
            option.group is None,
    {
        LookupOption { value, label, group: None }
    }

    /// The same choice, filed under `group`.
    pub fn group(self, group: &str) -> (option: LookupOption)
        ensures
            option.value == self.value,
            option.label == self.label,
            option.group matches Some(g) && g@ == group@,
    {
        LookupOption { group: Some(owned(group)), ..self }
    }
}

/// A gesture that reached the daemon, with the control it reached: the one
/// under the key when pressed, and the one the press reached when released.
#[derive(Debug)]
pub enum InputEvent {
    Key { surface_id: SurfaceId, key_index: u8, is_pressed: bool, control: Option<Control> },
}

/// What the engine reacts to.
#[derive(Clone, Debug)]
pub enum EngineSignal {
    VariableChanged(VariableRef),
    FeedbacksInvalidated(IntegrationId),
    InstanceLog { integration_id: IntegrationId, level: SurfaceLogLevel, message: String },
    InventoryChanged,
}

} // verus!
