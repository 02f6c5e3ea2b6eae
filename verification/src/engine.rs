//! The engine's table of plugin instances: what it knows of each instance it
//! loaded, how each is shown to the browser, which one an action can reach,
//! and what a failed action leaves in the device's log.

use vstd::prelude::*;
use crate::catalogue::display_name;
use crate::identifiers::IntegrationId;
use crate::instance::{dotted, InstanceIdentity, PluginInstance, PluginInstanceStatus};
use crate::json::{copy_json, same_json};
use crate::order::{lemma_lex_asymmetric, lemma_lex_total, lemma_lex_transitive, lex_less, lex_lt};
use crate::panels::JsonValue;
use crate::text::{chars_of, owned};

verus! {

/// One instance as the engine holds it: its identity, what its document
/// says, where it stands, and whether a plugin is running for it.
pub struct RunningInstance {
    pub identity: InstanceIdentity,
    /// The name the document gives, if any.
    pub display_name: Option<String>,
    pub is_enabled: bool,
    pub status: PluginInstanceStatus,
    /// The configuration with every declared secret removed.
    pub config: JsonValue,
    /// Whether a plugin was started for the instance and can be invoked.
    pub is_running: bool,
}

/// The id of the instance a record holds.
pub open spec fn record_id(record: RunningInstance) -> Seq<char> {
    dotted(record.identity.plugin_type@, record.identity.name@)
}

/// Two statuses that say the same.
pub open spec fn same_status(a: PluginInstanceStatus, b: PluginInstanceStatus) -> bool {
    match (a, b) {
        (PluginInstanceStatus::Starting, PluginInstanceStatus::Starting) => true,
        (PluginInstanceStatus::Running, PluginInstanceStatus::Running) => true,
        (PluginInstanceStatus::Disabled, PluginInstanceStatus::Disabled) => true,
        (PluginInstanceStatus::Error { reason: left }, PluginInstanceStatus::Error { reason: right }) => left@
            == right@,
        _ => false,
    }
}

fn copy_status(status: &PluginInstanceStatus) -> (copy: PluginInstanceStatus)
    ensures
        same_status(*status, copy),
{
    match status {
        PluginInstanceStatus::Starting => PluginInstanceStatus::Starting,
        PluginInstanceStatus::Running => PluginInstanceStatus::Running,
        PluginInstanceStatus::Disabled => PluginInstanceStatus::Disabled,
        PluginInstanceStatus::Error { reason } => PluginInstanceStatus::Error { reason: owned(reason.as_str()) },
    }
}

/// How the browser is shown an instance: its id, type and name, the name
/// its document gives or else its id, whether it is enabled, where it
/// stands, and its configuration.
pub open spec fn describes(shown: PluginInstance, record: RunningInstance) -> bool {
    &&& shown.integration_id@ == record_id(record)
    &&& shown.plugin_type@ == record.identity.plugin_type@
    &&& shown.name@ == record.identity.name@
    &&& shown.display_name@ == match record.display_name {
        Some(given) => given@,
        None => record_id(record),
    }
    &&& shown.is_enabled == record.is_enabled
    &&& same_status(record.status, shown.status)
    &&& same_json(record.config, shown.config)
}

/// What the browser is shown of one instance.
pub fn describe(record: &RunningInstance) -> (shown: PluginInstance)
    ensures
        describes(shown, *record),
{
    let integration_id = record.identity.integration_id();
    let shown_name = display_name(&record.display_name, integration_id.0.as_str());
    PluginInstance {
        integration_id,
        plugin_type: owned(record.identity.plugin_type.as_str()),
        name: owned(record.identity.name.as_str()),
        display_name: shown_name,
        is_enabled: record.is_enabled,
        status: copy_status(&record.status),
        config: copy_json(&record.config),
    }
}

/// Whether `shown` describes one of `records`.
pub open spec fn describes_one_of(shown: PluginInstance, records: Seq<RunningInstance>) -> bool {
    exists|j: int| 0 <= j < records.len() && describes(shown, #[trigger] records[j])
}

/// Whether one of `shown` describes `record`.
pub open spec fn described_in(shown: Seq<PluginInstance>, record: RunningInstance) -> bool {
    exists|a: int| 0 <= a < shown.len() && describes(#[trigger] shown[a], record)
}

/// Every instance id held once.
pub open spec fn ids_distinct(records: Seq<RunningInstance>) -> bool {
    forall|i: int, j: int|
        0 <= i < records.len() && 0 <= j < records.len() && i != j ==> record_id(#[trigger] records[i])
            != record_id(#[trigger] records[j])
}

/// The first record held for `id`.
pub open spec fn record_at(records: Seq<RunningInstance>, id: Seq<char>) -> Option<int>
    decreases records.len(),
{
    if records.len() == 0 {
        None
    } else {
        match record_at(records.drop_last(), id) {
            Some(i) => Some(i),
            None => if record_id(records.last()) == id {
                Some(records.len() - 1)
            } else {
                None
            },
        }
    }
}

proof fn lemma_record_at(records: Seq<RunningInstance>, id: Seq<char>)
    ensures
        record_at(records, id) matches Some(i) ==> 0 <= i < records.len() && record_id(records[i]) == id,
        record_at(records, id) is None <==> forall|j: int|
            0 <= j < records.len() ==> record_id(#[trigger] records[j]) != id,
    decreases records.len(),
{
    if records.len() > 0 {
        let prefix = records.drop_last();
        lemma_record_at(prefix, id);
        assert forall|j: int| 0 <= j < prefix.len() implies #[trigger] prefix[j] == records[j] by {}
        if record_at(prefix, id) is None && record_id(records.last()) != id {
            assert forall|j: int| 0 <= j < records.len() implies record_id(#[trigger] records[j]) != id by {
                if j < prefix.len() {
                    assert(prefix[j] == records[j]);
                }
            }
        }
        match record_at(prefix, id) {
            Some(i) => {
                assert(prefix[i] == records[i]);
            },
            None => {},
        }
    }
}

/// Whether some position below `n` came from record `m`.
spec fn hits(from: Seq<int>, m: int, n: int) -> bool {
    exists|a: int| 0 <= a < n && #[trigger] from[a] == m
}

/// Where an instance goes among ones in order of id: after every one whose id
/// sorts before its own.
fn insertion_point(shown: &Vec<PluginInstance>, id: &Vec<char>) -> (position: usize)
    ensures
        position <= shown@.len(),
        forall|q: int| 0 <= q < position ==> lex_lt((#[trigger] shown@[q]).integration_id@, id@),
        position < shown@.len() ==> !lex_lt(shown@[position as int].integration_id@, id@),
{
    let mut position: usize = 0;
    while position < shown.len()
        invariant
            position <= shown@.len(),
            forall|q: int| 0 <= q < position ==> lex_lt((#[trigger] shown@[q]).integration_id@, id@),
        decreases shown.len() - position,
    {
        let held = chars_of(shown[position].integration_id.0.as_str());
        if !lex_less(&held, id) {
            return position;
        }
        position += 1;
    }
    position
}

/// The instances the engine loaded, one record per instance id.
pub struct InstanceTable {
    records: Vec<RunningInstance>,
}

impl View for InstanceTable {
    type V = Seq<RunningInstance>;

    /// The records in the order they were first recorded.
    closed spec fn view(&self) -> Seq<RunningInstance> {
        self.records@
    }
}

impl InstanceTable {
    pub closed spec fn wf(&self) -> bool {
        ids_distinct(self.records@)
    }

    /// A table with no instance in it.
    pub fn new() -> (table: Self)
        ensures
            table.wf(),
            table@.len() == 0,
    {
        InstanceTable { records: Vec::new() }
    }

    /// The position of the record for `id`.
    fn position(&self, id: &str) -> (found: Option<usize>)
        ensures
            found matches Some(i) ==> i < self@.len() && record_id(self@[i as int]) == id@,
            found is None ==> forall|j: int| 0 <= j < self@.len() ==> record_id(#[trigger] self@[j]) != id@,
    {
        let mut i: usize = 0;
        while i < self.records.len()
            invariant
                i <= self.records@.len(),
                forall|j: int| 0 <= j < i ==> record_id(#[trigger] self.records@[j]) != id@,
            decreases self.records.len() - i,
        {
            let held = self.records[i].identity.integration_id();
            if crate::text::str_eq(held.0.as_str(), id) {
                return Some(i);
            }
            i += 1;
        }
        None
    }

    /// Records an instance: it takes the place of the record with the same
    /// id, or joins the table after every other.
    pub fn record(&mut self, instance: RunningInstance)
        requires
            old(self).wf(),
        ensures
            final(self).wf(),
            record_at(old(self)@, record_id(instance)) matches Some(i) ==> final(self)@ == old(self)@.update(
                i,
                instance,
            ),
            record_at(old(self)@, record_id(instance)) is None ==> final(self)@ == old(self)@.push(instance),
    {
        let ghost before = self.records@;
        let id = instance.identity.integration_id();
        proof {
            lemma_record_at(before, id@);
        }
        match self.position(id.0.as_str()) {
            Some(i) => {
                proof {
                    let at = record_at(before, id@)->0;
                    if at != i {
                        assert(record_id(before[at]) == record_id(before[i as int]));
                        assert(false);
                    }
                }
                self.records.set(i, instance);
                proof {
                    assert forall|a: int, b: int|
                        0 <= a < self.records@.len() && 0 <= b < self.records@.len() && a != b implies record_id(
                        #[trigger] self.records@[a],
                    ) != record_id(#[trigger] self.records@[b]) by {
                        if a != i && b != i {
                            assert(self.records@[a] == before[a] && self.records@[b] == before[b]);
                        } else if a == i {
                            assert(self.records@[b] == before[b]);
                            assert(record_id(before[i as int]) == id@);
                        } else {
                            assert(self.records@[a] == before[a]);
                            assert(record_id(before[i as int]) == id@);
                        }
                    }
                }
            },
            None => {
                self.records.push(instance);
                proof {
                    assert forall|a: int, b: int|
                        0 <= a < self.records@.len() && 0 <= b < self.records@.len() && a != b implies record_id(
                        #[trigger] self.records@[a],
                    ) != record_id(#[trigger] self.records@[b]) by {
                        if a < before.len() && b < before.len() {
                            assert(self.records@[a] == before[a] && self.records@[b] == before[b]);
                        } else if a < before.len() {
                            assert(self.records@[a] == before[a]);
                        } else {
                            assert(self.records@[b] == before[b]);
                        }
                    }
                }
            },
        }
    }

    /// Whether an action can reach instance `id`: nothing wrong when a
    /// plugin is running for it, else `<id> is not running`.
    pub fn reachable(&self, integration_id: &IntegrationId) -> (reached: Result<(), String>)
        requires
            self.wf(),
        ensures
            match reached {
                Ok(()) => record_at(self@, integration_id@) matches Some(i) && self@[i].is_running,
                Err(reason) => !(record_at(self@, integration_id@) matches Some(i) && self@[i].is_running)
                    && reason@ == integration_id@ + " is not running"@,
            },
    {
        proof {
            lemma_record_at(self.records@, integration_id@);
        }
        match self.position(integration_id.0.as_str()) {
            Some(i) => {
                proof {
                    let at = record_at(self.records@, integration_id@)->0;
                    if at != i {
                        assert(record_id(self.records@[at]) == record_id(self.records@[i as int]));
                        assert(false);
                    }
                }
                if self.records[i].is_running {
                    return Ok(());
                }
            },
            None => {},
        }
        let mut reason = owned(integration_id.0.as_str());
        reason.push_str(" is not running");
        Err(reason)
    }

    /// Every instance as the browser is shown it, in order of id.
    pub fn instances(&self) -> (shown: Vec<PluginInstance>)
        requires
            self.wf(),
        ensures
            shown@.len() == self@.len(),
            forall|a: int, b: int|
                0 <= a < b < shown@.len() ==> lex_lt(
                    (#[trigger] shown@[a]).integration_id@,
                    (#[trigger] shown@[b]).integration_id@,
                ),
            forall|a: int| 0 <= a < shown@.len() ==> describes_one_of(#[trigger] shown@[a], self@),
            forall|j: int| 0 <= j < self@.len() ==> described_in(shown@, #[trigger] self@[j]),
    {
        let ghost records = self.records@;
        let mut shown: Vec<PluginInstance> = Vec::new();
        let ghost mut from: Seq<int> = Seq::empty();
        let mut k: usize = 0;
        while k < self.records.len()
            invariant
                self.records@ == records,
                ids_distinct(records),
                k <= records.len(),
                shown@.len() == k,
                from.len() == k,
                forall|a: int, b: int|
                    0 <= a < b < shown@.len() ==> lex_lt(
                        (#[trigger] shown@[a]).integration_id@,
                        (#[trigger] shown@[b]).integration_id@,
                    ),
                forall|a: int|
                    0 <= a < k ==> 0 <= #[trigger] from[a] < k && describes(shown@[a], records[from[a]]),
                forall|m: int| 0 <= m < k ==> #[trigger] hits(from, m, k as int),
            decreases records.len() - k,
        {
            let next = describe(&self.records[k]);
            let id = chars_of(next.integration_id.0.as_str());
            let ghost key = next.integration_id@;
            let p = insertion_point(&shown, &id);
            let ghost before = shown@;
            let ghost before_from = from;
            proof {
                if p < before.len() {
                    let held = before[p as int].integration_id@;
                    let m = before_from[p as int];
                    assert(held == record_id(records[m]));
                    assert(key == record_id(records[k as int]));
                    assert(held != key);
                    assert(held.take(0) =~= key.take(0));
                    lemma_lex_total(held, key, 0);
                }
            }
            shown.insert(p, next);
            proof {
                from = before_from.insert(p as int, k as int);
                let pi = p as int;
                assert(shown@ == before.insert(pi, next));
                assert forall|a: int, b: int|
                    0 <= a < b < shown@.len() implies lex_lt(
                    (#[trigger] shown@[a]).integration_id@,
                    (#[trigger] shown@[b]).integration_id@,
                ) by {
                    if b < pi {
                        assert(shown@[a] == before[a] && shown@[b] == before[b]);
                    } else if b == pi {
                        assert(shown@[a] == before[a]);
                    } else if a == pi {
                        assert(shown@[b] == before[b - 1]);
                        if b - 1 > pi {
                            assert(lex_lt(before[pi].integration_id@, before[b - 1].integration_id@));
                            lemma_lex_transitive(key, before[pi].integration_id@, before[b - 1].integration_id@, 0);
                        }
                    } else if a < pi {
                        assert(shown@[a] == before[a] && shown@[b] == before[b - 1]);
                        if b - 1 >= pi {
                            if b - 1 > pi {
                                assert(lex_lt(before[a].integration_id@, before[b - 1].integration_id@));
                            }
                        }
                    } else {
                        assert(shown@[a] == before[a - 1] && shown@[b] == before[b - 1]);
                    }
                }
                assert forall|a: int| 0 <= a < k + 1 implies 0 <= #[trigger] from[a] < k + 1 && describes(
                    shown@[a],
                    records[from[a]],
                ) by {
                    if a < pi {
                        assert(from[a] == before_from[a] && shown@[a] == before[a]);
                    } else if a > pi {
                        assert(from[a] == before_from[a - 1] && shown@[a] == before[a - 1]);
                    }
                }
                assert forall|m: int| 0 <= m < k + 1 implies #[trigger] hits(from, m, k + 1) by {
                    if m == k {
                        assert(from[pi] == m);
                    } else {
                        assert(hits(before_from, m, k as int));
                        let a0 = choose|a0: int| 0 <= a0 < k && #[trigger] before_from[a0] == m;
                        if a0 < pi {
                            assert(from[a0] == m);
                        } else {
                            assert(from[a0 + 1] == m);
                        }
                    }
                }
            }
            k += 1;
        }
        proof {
            assert(self@ == records);
            assert forall|a: int| 0 <= a < shown@.len() implies describes_one_of(#[trigger] shown@[a], self@) by {
                let j = from[a];
                assert(0 <= j < self@.len() && describes(shown@[a], self@[j]));
            }
            assert forall|j: int| 0 <= j < self@.len() implies described_in(shown@, #[trigger] self@[j]) by {
                assert(hits(from, j, k as int));
                let a = choose|a: int| 0 <= a < k && #[trigger] from[a] == j;
                assert(0 <= a < shown@.len() && describes(shown@[a], self@[j]));
            }
        }
        shown
    }
}

/// The log line a failed invocation leaves: `<id>: <action> failed: <error>`.
pub fn invocation_failure(integration_id: &IntegrationId, action_name: &str, error: &str) -> (message: String)
    ensures
        message@ == integration_id@ + ": "@ + action_name@ + " failed: "@ + error@,
{
    let mut message = owned(integration_id.0.as_str());
    message.push_str(": ");
    message.push_str(action_name);
    message.push_str(" failed: ");
    message.push_str(error);
    message
}

/// The log line a refused panel switch leaves: `could not switch to panel
/// <id>: <reason>`.
pub fn panel_switch_failure(panel_id: &str, reason: &str) -> (message: String)
    ensures
        message@ == "could not switch to panel "@ + panel_id@ + ": "@ + reason@,
{
    let mut message = owned("could not switch to panel ");
    message.push_str(panel_id);
    message.push_str(": ");
    message.push_str(reason);
    message
}

} // verus!
