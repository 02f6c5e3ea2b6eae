//! The plugin types compiled into the daemon, and what becomes of an
//! instance the engine is asked to start.

use vstd::prelude::*;
use crate::instance::PluginInstanceStatus;
use crate::text::{owned, str_eq};

verus! {

/// The plugin types this daemon knows, in the order they are offered.
pub open spec fn known_types() -> Seq<Seq<char>> {
    seq!["http"@, "mpris"@, "hass"@, "discord"@, "system"@, "prometheus"@]
}

/// Every plugin type compiled into this daemon.
pub fn plugin_types() -> (types: Vec<&'static str>)
    ensures
        types@.len() == known_types().len(),
        forall|i: int| 0 <= i < types@.len() ==> #[trigger] types@[i]@ == known_types()[i],
{
    let types = vec!["http", "mpris", "hass", "discord", "system", "prometheus"];
    assert(types@.len() == 6);
    types
}

/// Whether the daemon knows how to run instances of `plugin_type`.
pub fn is_known_plugin_type(plugin_type: &str) -> (known: bool)
    ensures
        known == known_types().contains(plugin_type@),
{
    let types = plugin_types();
    let mut i: usize = 0;
    while i < types.len()
        invariant
            i <= types@.len(),
            types@.len() == known_types().len(),
            forall|k: int| 0 <= k < types@.len() ==> #[trigger] types@[k]@ == known_types()[k],
            forall|k: int| 0 <= k < i ==> known_types()[k] != plugin_type@,
        decreases types.len() - i,
    {
        if str_eq(types[i], plugin_type) {
            assert(known_types()[i as int] == plugin_type@);
            return true;
        }
        i += 1;
    }
    proof {
        if known_types().contains(plugin_type@) {
            let k = choose|k: int| 0 <= k < known_types().len() && known_types()[k] == plugin_type@;
            assert(known_types()[k] != plugin_type@);
        }
    }
    false
}

/// The reason an instance of an unknown plugin type does not start.
pub open spec fn unknown_type_reason(plugin_type: Seq<char>) -> Seq<char> {
    plugin_type + " is not a plugin type this daemon knows"@
}

/// Where an instance stands before the engine starts it: a disabled instance
/// stays disabled, an instance of a type the daemon does not know is in
/// error; nothing when it is to be started.
pub fn status_before_start(is_enabled: bool, plugin_type: &str) -> (status: Option<PluginInstanceStatus>)
    ensures
        !is_enabled ==> status == Some(PluginInstanceStatus::Disabled),
        is_enabled && !known_types().contains(plugin_type@) ==> (status matches Some(
            PluginInstanceStatus::Error { reason },
        ) && reason@ == unknown_type_reason(plugin_type@)),
        is_enabled && known_types().contains(plugin_type@) ==> status is None,
{
    if !is_enabled {
        return Some(PluginInstanceStatus::Disabled);
    }
    if !is_known_plugin_type(plugin_type) {
        let mut reason = owned(plugin_type);
        reason.push_str(" is not a plugin type this daemon knows");
        return Some(PluginInstanceStatus::Error { reason });
    }
    None
}

/// Where an instance stands once its plugin has tried to start: running,
/// or in error for the reason it gave.
pub fn status_after_start(outcome: Result<(), String>) -> (status: PluginInstanceStatus)
    ensures
        match outcome {
            Ok(()) => status == PluginInstanceStatus::Running,
            Err(reason) => status matches PluginInstanceStatus::Error { reason: r } && r@ == reason@,
        },
{
    match outcome {
        Ok(()) => PluginInstanceStatus::Running,
        Err(reason) => PluginInstanceStatus::Error { reason },
    }
}

/// The name an instance is shown under: the one its document gives, or its
/// integration id.
pub fn display_name(document_name: &Option<String>, integration_id: &str) -> (name: String)
    ensures
        name@ == match document_name {
            Some(given) => given@,
            None => integration_id@,
        },
{
    match document_name {
        Some(given) => owned(given.as_str()),
        None => owned(integration_id),
    }
}

} // verus!
