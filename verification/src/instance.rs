//! Plugin instance identities. An instance lives in `plugins/<type>.<name>.toml`;
//! the file name is the identity, so there is no index file to keep in sync.

use vstd::prelude::*;
use crate::identifiers::IntegrationId;
use crate::panels::JsonValue;
use crate::template::find_from;
use crate::text::{chars_of, string_of};

verus! {

/// The version written into a new instance document.
pub const INSTANCE_DOCUMENT_VERSION: u8 = 1;

/// An instance document that does not say whether it is enabled is enabled.
pub fn enabled_by_default() -> (enabled: bool)
    ensures
        enabled,
{
    true
}

/// The identity carried by a plugin instance file name.
#[derive(Debug, Eq)]
pub struct InstanceIdentity {
    pub plugin_type: String,
    pub name: String,
}

impl PartialEq for InstanceIdentity {
    fn eq(&self, other: &Self) -> (same: bool) {
        self.plugin_type == other.plugin_type && self.name == other.name
    }
}

impl vstd::std_specs::cmp::PartialEqSpecImpl for InstanceIdentity {
    open spec fn obeys_eq_spec() -> bool {
        true
    }

    open spec fn eq_spec(&self, other: &InstanceIdentity) -> bool {
        self.plugin_type@ == other.plugin_type@ && self.name@ == other.name@
    }
}

/// `<type>.<name>`.
pub open spec fn dotted(plugin_type: Seq<char>, name: Seq<char>) -> Seq<char> {
    plugin_type + seq!['.'] + name
}

impl InstanceIdentity {
    /// The id the rest of the daemon knows the instance by: `<type>.<name>`.
    pub fn integration_id(&self) -> (id: IntegrationId)
        ensures
            id@ == dotted(self.plugin_type@, self.name@),
    {
        let mut text = String::new();
        text.push_str(self.plugin_type.as_str());
        text.push('.');
        text.push_str(self.name.as_str());
        IntegrationId(text)
    }

    /// The instance's file: `<type>.<name>.toml`.
    pub fn file_name(&self) -> (file_name: String)
        ensures
            file_name@ == dotted(self.plugin_type@, self.name@) + ".toml"@,
    {
        let mut text = String::new();
        text.push_str(self.plugin_type.as_str());
        text.push('.');
        text.push_str(self.name.as_str());
        text.push_str(".toml");
        text
    }
}

/// A character an identifier may start with: a lower-case ASCII letter or a
/// digit.
pub open spec fn is_identifier_start(c: char) -> bool {
    ('a' <= c && c <= 'z') || ('0' <= c && c <= '9')
}

/// A character an identifier may hold: a lower-case ASCII letter, a digit or a
/// dash.
pub open spec fn is_identifier_char(c: char) -> bool {
    is_identifier_start(c) || c == '-'
}

/// A plugin type or instance name: lower-case letters, digits and dashes, not
/// starting with a dash, and not empty.
pub open spec fn is_identifier_spec(value: Seq<char>) -> bool {
    &&& value.len() > 0
    &&& is_identifier_start(value[0])
    &&& forall|i: int| 0 <= i < value.len() ==> is_identifier_char(#[trigger] value[i])
}

/// Why a stem is not an instance name, or the two halves it names.
pub open spec fn parse_stem_spec(stem: Seq<char>) -> Result<(Seq<char>, Seq<char>), Seq<char>> {
    let dot = find_from(stem, '.', 0);
    if dot >= stem.len() {
        Err(stem + " is not a plugin instance name; expected <type>.<name>"@)
    } else if !is_identifier_spec(stem.take(dot)) {
        Err(stem.take(dot) + " is not a valid plugin type"@)
    } else if !is_identifier_spec(stem.skip(dot + 1)) {
        Err(stem.skip(dot + 1)
            + " is not a valid instance name; use lower-case letters, digits and dashes"@)
    } else {
        Ok((stem.take(dot), stem.skip(dot + 1)))
    }
}

fn is_identifier_start_exec(c: char) -> (ok: bool)
    ensures
        ok == is_identifier_start(c),
{
    ('a' <= c && c <= 'z') || ('0' <= c && c <= '9')
}

/// Whether `chars[start..end]` is an identifier.
fn is_identifier(chars: &Vec<char>, start: usize, end: usize) -> (ok: bool)
    requires
        start <= end <= chars.len(),
    ensures
        ok == is_identifier_spec(chars@.subrange(start as int, end as int)),
{
    let ghost value = chars@.subrange(start as int, end as int);
    if start == end {
        return false;
    }
    if !is_identifier_start_exec(chars[start]) {
        assert(value[0] == chars@[start as int]);
        return false;
    }
    let mut i = start;
    while i < end
        invariant
            start <= i <= end <= chars.len(),
            value == chars@.subrange(start as int, end as int),
            forall|j: int| start <= j < i ==> is_identifier_char(chars@[j]),
        decreases end - i,
    {
        let c = chars[i];
        if !(is_identifier_start_exec(c) || c == '-') {
            assert(value[i - start] == chars@[i as int]);
            return false;
        }
        i += 1;
    }
    assert forall|j: int| 0 <= j < value.len() implies is_identifier_char(#[trigger] value[j]) by {
        assert(value[j] == chars@[start + j]);
    }
    assert(value[0] == chars@[start as int]);
    true
}

/// Parses `<type>.<name>` out of a plugin file stem. The first dot separates
/// the two, so a second dot lands in the name and is rejected there.
pub fn parse_instance_stem(stem: &str) -> (parsed: Result<InstanceIdentity, String>)
    ensures
        match parse_stem_spec(stem@) {
            Ok((plugin_type, name)) => parsed is Ok && parsed->Ok_0.plugin_type@ == plugin_type
                && parsed->Ok_0.name@ == name,
            Err(message) => parsed is Err && parsed->Err_0@ == message,
        },
{
    let chars = chars_of(stem);
    let n = chars.len();
    let mut dot: usize = 0;
    while dot < n && chars[dot] != '.'
        invariant
            dot <= n == chars.len(),
            forall|m: int| 0 <= m < dot ==> chars@[m] != '.',
        decreases n - dot,
    {
        dot += 1;
    }
    proof {
        lemma_first_hit(chars@, '.', dot as int);
        assert(chars@.take(dot as int) =~= chars@.subrange(0, dot as int));
        if dot < n {
            assert(chars@.skip(dot + 1) =~= chars@.subrange(dot + 1, n as int));
        }
    }
    if dot == n {
        let mut message = String::new();
        message.push_str(stem);
        message.push_str(" is not a plugin instance name; expected <type>.<name>");
        return Err(message);
    }
    if !is_identifier(&chars, 0, dot) {
        let mut message = string_of(&chars, 0, dot);
        message.push_str(" is not a valid plugin type");
        return Err(message);
    }
    if !is_identifier(&chars, dot + 1, n) {
        let mut message = string_of(&chars, dot + 1, n);
        message.push_str(" is not a valid instance name; use lower-case letters, digits and dashes");
        return Err(message);
    }
    Ok(InstanceIdentity { plugin_type: string_of(&chars, 0, dot), name: string_of(&chars, dot + 1, n) })
}

/// A scan that met no `target` before `k` and stops on a hit or at the end has
/// found the first hit.
pub proof fn lemma_first_hit(t: Seq<char>, target: char, k: int)
    requires
        0 <= k <= t.len(),
        forall|m: int| 0 <= m < k ==> t[m] != target,
        k == t.len() || t[k] == target,
    ensures
        find_from(t, target, 0) == k,
{
    lemma_first_hit_from(t, target, 0, k);
}

proof fn lemma_first_hit_from(t: Seq<char>, target: char, from: int, k: int)
    requires
        0 <= from <= k <= t.len(),
        forall|m: int| from <= m < k ==> t[m] != target,
        k == t.len() || t[k] == target,
    ensures
        find_from(t, target, from) == k,
    decreases k - from,
{
    if from < k {
        lemma_first_hit_from(t, target, from + 1, k);
    }
}

/// Every instance identity whose halves are identifiers is read back from
/// its own id: parsing `<type>.<name>` gives back the type and the name.
pub proof fn lemma_identity_round_trip(plugin_type: Seq<char>, name: Seq<char>)
    requires
        is_identifier_spec(plugin_type),
        is_identifier_spec(name),
    ensures
        parse_stem_spec(dotted(plugin_type, name)) == Ok::<(Seq<char>, Seq<char>), Seq<char>>(
            (plugin_type, name),
        ),
{
    let stem = dotted(plugin_type, name);
    let dot = plugin_type.len() as int;
    assert forall|m: int| 0 <= m < dot implies stem[m] != '.' by {
        assert(stem[m] == plugin_type[m]);
        assert(is_identifier_char(plugin_type[m]));
    }
    assert(stem[dot] == '.');
    lemma_first_hit(stem, '.', dot);
    assert(stem.take(dot) =~= plugin_type);
    assert(stem.skip(dot + 1) =~= name);
}

/// A stem names an instance exactly when it is two identifiers joined by a
/// dot, and then it names those two: a stem without a dot, with an empty or
/// malformed half, or with a second dot is refused.
pub proof fn lemma_valid_stems(stem: Seq<char>)
    ensures
        (parse_stem_spec(stem) is Ok) == (exists|plugin_type: Seq<char>, name: Seq<char>|
            is_identifier_spec(plugin_type) && is_identifier_spec(name) && stem == #[trigger] dotted(
                plugin_type,
                name,
            )),
        parse_stem_spec(stem) matches Ok((plugin_type, name)) ==> is_identifier_spec(plugin_type)
            && is_identifier_spec(name) && stem == dotted(plugin_type, name),
{
    crate::template::lemma_find_from_bounds(stem, '.', 0);
    let dot = find_from(stem, '.', 0);
    if parse_stem_spec(stem) is Ok {
        assert(stem == dotted(stem.take(dot), stem.skip(dot + 1)));
    }
    if exists|plugin_type: Seq<char>, name: Seq<char>|
        is_identifier_spec(plugin_type) && is_identifier_spec(name) && stem == #[trigger] dotted(plugin_type, name) {
        let (plugin_type, name) = choose|plugin_type: Seq<char>, name: Seq<char>|
            is_identifier_spec(plugin_type) && is_identifier_spec(name) && stem == #[trigger] dotted(plugin_type, name);
        lemma_identity_round_trip(plugin_type, name);
    }
}

/// A plugin instance as the web page lists it.
#[derive(Debug)]
pub struct PluginInstance {
    pub integration_id: IntegrationId,
    pub plugin_type: String,
    pub name: String,
    pub display_name: String,
    pub is_enabled: bool,
    pub status: PluginInstanceStatus,
    /// The configuration with every declared secret removed.
    pub config: JsonValue,
}

/// Where a plugin instance stands.
#[derive(Debug, Eq)]
pub enum PluginInstanceStatus {
    Starting,
    Running,
    Error { reason: String },
    Disabled,
}

impl PartialEq for PluginInstanceStatus {
    fn eq(&self, other: &Self) -> (same: bool) {
        match (self, other) {
            (PluginInstanceStatus::Starting, PluginInstanceStatus::Starting) => true,
            (PluginInstanceStatus::Running, PluginInstanceStatus::Running) => true,
            (PluginInstanceStatus::Disabled, PluginInstanceStatus::Disabled) => true,
            (
                PluginInstanceStatus::Error { reason: left },
                PluginInstanceStatus::Error { reason: right },
            ) => *left == *right,
            _ => false,
        }
    }
}

impl vstd::std_specs::cmp::PartialEqSpecImpl for PluginInstanceStatus {
    open spec fn obeys_eq_spec() -> bool {
        true
    }

    open spec fn eq_spec(&self, other: &PluginInstanceStatus) -> bool {
        match (self, other) {
            (PluginInstanceStatus::Starting, PluginInstanceStatus::Starting) => true,
            (PluginInstanceStatus::Running, PluginInstanceStatus::Running) => true,
            (PluginInstanceStatus::Disabled, PluginInstanceStatus::Disabled) => true,
            (
                PluginInstanceStatus::Error { reason: left },
                PluginInstanceStatus::Error { reason: right },
            ) => left@ == right@,
            _ => false,
        }
    }
}

} // verus!

verus! {

/// What looking at a secret field of an instance's configuration found: no
/// such field, a value that is not a secret reference (with the reason), a
/// reference that could not be resolved (with the reason), or the secret.
pub enum SecretLookup {
    Absent,
    Invalid(String),
    Unresolved(String),
    Resolved(String),
}

/// A secret field resolved once, at start: nothing when the field is absent,
/// the secret when its reference resolves, and otherwise an error naming the
/// field, so a missing environment variable or an unreadable file fails here
/// rather than leaving an empty credential to be used later.
pub fn secret(key: &str, lookup: SecretLookup) -> (found: Result<Option<String>, String>)
    ensures
        match lookup {
            SecretLookup::Absent => found == Ok::<Option<String>, String>(None),
            SecretLookup::Invalid(error) => found matches Err(reason) && reason@ == key@
                + " is not a valid secret reference: "@ + error@,
            SecretLookup::Unresolved(why) => found matches Err(reason) && reason@ == key@ + ": "@ + why@,
            SecretLookup::Resolved(value) => found matches Ok(Some(v)) && v@ == value@,
        },
{
    match lookup {
        SecretLookup::Absent => Ok(None),
        SecretLookup::Invalid(error) => {
            let mut reason = crate::text::owned(key);
            reason.push_str(" is not a valid secret reference: ");
            reason.push_str(error.as_str());
            Err(reason)
        },
        SecretLookup::Unresolved(why) => {
            let mut reason = crate::text::owned(key);
            reason.push_str(": ");
            reason.push_str(why.as_str());
            Err(reason)
        },
        SecretLookup::Resolved(value) => Ok(Some(value)),
    }
}

/// A secret field that must be there: as `secret`, with an absent field an
/// error `<key> is required`.
pub fn required_secret(key: &str, lookup: SecretLookup) -> (found: Result<String, String>)
    ensures
        match lookup {
            SecretLookup::Absent => found matches Err(reason) && reason@ == key@ + " is required"@,
            SecretLookup::Invalid(error) => found matches Err(reason) && reason@ == key@
                + " is not a valid secret reference: "@ + error@,
            SecretLookup::Unresolved(why) => found matches Err(reason) && reason@ == key@ + ": "@ + why@,
            SecretLookup::Resolved(value) => found matches Ok(v) && v@ == value@,
        },
{
    match secret(key, lookup) {
        Ok(Some(value)) => Ok(value),
        Ok(None) => {
            let mut reason = crate::text::owned(key);
            reason.push_str(" is required");
            Err(reason)
        },
        Err(reason) => Err(reason),
    }
}

} // verus!
