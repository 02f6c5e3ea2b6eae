//! The inventory of everything the daemon knows of its devices, as the web
//! page shows it: devices and panels in order of name, the keys and dials
//! being held, and every log line in order.

use vstd::prelude::*;
use crate::order::{lemma_lex_asymmetric, lemma_lex_transitive, lex_less, lex_lt};
use crate::panels::Panel;
use crate::surfaces::{
    DiscoveredNetworkSurface, ManagedNetworkSurface, SurfaceDialPress, SurfaceDialState, SurfaceKeyEvent,
    SurfaceLogEntry,
};
use crate::text::{chars_of, str_eq};
use crate::instance::PluginInstance;

verus! {

/// Something listed by name.
pub trait Named {
    /// The name it is listed by.
    spec fn name_spec(&self) -> Seq<char>;

    /// The name it is listed by.
    fn name(&self) -> (name: &str)
        ensures
            name@ == self.name_spec(),
    ;
}

impl Named for DiscoveredNetworkSurface {
    open spec fn name_spec(&self) -> Seq<char> {
        self.name@
    }

    fn name(&self) -> (name: &str) {
        self.name.as_str()
    }
}

impl Named for ManagedNetworkSurface {
    open spec fn name_spec(&self) -> Seq<char> {
        self.name@
    }

    fn name(&self) -> (name: &str) {
        self.name.as_str()
    }
}

impl Named for Panel {
    open spec fn name_spec(&self) -> Seq<char> {
        self.name@
    }

    fn name(&self) -> (name: &str) {
        self.name.as_str()
    }
}

/// Whether items are in order of name: none sorts before one ahead of it.
pub open spec fn by_name<T: Named>(items: Seq<&T>) -> bool {
    forall|i: int, j: int| 0 <= i < j < items.len() ==> !lex_lt((#[trigger] items[j]).name_spec(), (#[trigger] items[i]).name_spec())
}

/// Whether log lines are in order of sequence number.
pub open spec fn by_sequence(entries: Seq<&SurfaceLogEntry>) -> bool {
    forall|i: int, j: int| 0 <= i < j < entries.len() ==> (#[trigger] entries[i]).sequence <= (#[trigger] entries[j]).sequence
}

/// Where an item goes among ordered ones: after every one it does not sort
/// before.
fn name_slot<T: Named>(ordered: &Vec<&T>, item: &T) -> (position: usize)
    ensures
        position <= ordered@.len(),
        forall|q: int| 0 <= q < position ==> !lex_lt(item.name_spec(), (#[trigger] ordered@[q]).name_spec()),
        position < ordered@.len() ==> lex_lt(item.name_spec(), ordered@[position as int].name_spec()),
{
    let name = chars_of(item.name());
    let mut position: usize = 0;
    while position < ordered.len()
        invariant
            position <= ordered@.len(),
            name@ == item.name_spec(),
            forall|q: int| 0 <= q < position ==> !lex_lt(item.name_spec(), (#[trigger] ordered@[q]).name_spec()),
        decreases ordered.len() - position,
    {
        let other = chars_of(ordered[position].name());
        if lex_less(&name, &other) {
            return position;
        }
        position += 1;
    }
    position
}

/// Items in order of name; items with the same name keep their order.
pub fn sorted_by_name<T: Named>(items: Vec<&T>) -> (ordered: Vec<&T>)
    ensures
        derefs(ordered@).to_multiset() == derefs(items@).to_multiset(),
        by_name(ordered@),
{
    let ghost original = items@;
    let mut rest = items;
    let mut ordered: Vec<&T> = Vec::new();
    let mut taken: usize = 0;
    let count = rest.len();
    assert(derefs(ordered@) =~= derefs(original.take(0)));
    assert(rest@ =~= original.skip(0));
    while rest.len() > 0
        invariant
            original.len() == count,
            taken + rest@.len() == count,
            rest@ == original.skip(taken as int),
            derefs(ordered@).to_multiset() == derefs(original.take(taken as int)).to_multiset(),
            by_name(ordered@),
        decreases rest.len(),
    {
        let ghost before_rest = rest@;
        let item = rest.remove(0);
        proof {
            assert(before_rest[0] == original[taken as int]);
            assert(derefs(original.take(taken + 1)) =~= derefs(original.take(taken as int)).push(*item));
            assert(rest@ =~= original.skip(taken + 1));
            vstd::seq_lib::to_multiset_build(derefs(original.take(taken as int)), *item);
        }
        let position = name_slot(&ordered, item);
        let ghost before = ordered@;
        ordered.insert(position, item);
        proof {
            assert(derefs(ordered@) =~= derefs(before).insert(position as int, *item));
            vstd::seq_lib::to_multiset_insert(derefs(before), position as int, *item);
            assert forall|i: int, j: int| 0 <= i < j < ordered@.len() implies !lex_lt(
                (#[trigger] ordered@[j]).name_spec(),
                (#[trigger] ordered@[i]).name_spec(),
            ) by {
                let p = position as int;
                if j < p {
                    assert(ordered@[i] == before[i] && ordered@[j] == before[j]);
                } else if j == p {
                    assert(ordered@[i] == before[i]);
                } else if i == p {
                    assert(ordered@[j] == before[j - 1]);
                    if lex_lt(before[j - 1].name_spec(), item.name_spec()) {
                        lemma_lex_transitive(before[j - 1].name_spec(), item.name_spec(), before[p].name_spec(), 0);
                        lemma_lex_asymmetric(before[p].name_spec(), before[p].name_spec(), 0);
                        assert(false);
                    }
                } else if i < p {
                    assert(ordered@[i] == before[i] && ordered@[j] == before[j - 1]);
                } else {
                    assert(ordered@[i] == before[i - 1] && ordered@[j] == before[j - 1]);
                }
            }
        }
        taken += 1;
    }
    assert(original.take(taken as int) =~= original);
    ordered
}

/// Where a log line goes among ordered ones: after every one it does not
/// come before.
fn sequence_slot(ordered: &Vec<&SurfaceLogEntry>, entry: &SurfaceLogEntry) -> (position: usize)
    ensures
        position <= ordered@.len(),
        forall|q: int| 0 <= q < position ==> (#[trigger] ordered@[q]).sequence <= entry.sequence,
        position < ordered@.len() ==> entry.sequence < ordered@[position as int].sequence,
{
    let mut position: usize = 0;
    while position < ordered.len()
        invariant
            position <= ordered@.len(),
            forall|q: int| 0 <= q < position ==> (#[trigger] ordered@[q]).sequence <= entry.sequence,
        decreases ordered.len() - position,
    {
        if entry.sequence < ordered[position].sequence {
            return position;
        }
        position += 1;
    }
    position
}

/// Log lines in order of sequence number; lines with the same number keep
/// their order.
pub fn sorted_by_sequence(entries: Vec<&SurfaceLogEntry>) -> (ordered: Vec<&SurfaceLogEntry>)
    ensures
        derefs(ordered@).to_multiset() == derefs(entries@).to_multiset(),
        by_sequence(ordered@),
{
    let ghost original = entries@;
    let mut rest = entries;
    let mut ordered: Vec<&SurfaceLogEntry> = Vec::new();
    let mut taken: usize = 0;
    let count = rest.len();
    assert(derefs(ordered@) =~= derefs(original.take(0)));
    assert(rest@ =~= original.skip(0));
    while rest.len() > 0
        invariant
            original.len() == count,
            taken + rest@.len() == count,
            rest@ == original.skip(taken as int),
            derefs(ordered@).to_multiset() == derefs(original.take(taken as int)).to_multiset(),
            by_sequence(ordered@),
        decreases rest.len(),
    {
        let ghost before_rest = rest@;
        let entry = rest.remove(0);
        proof {
            assert(before_rest[0] == original[taken as int]);
            assert(derefs(original.take(taken + 1)) =~= derefs(original.take(taken as int)).push(*entry));
            assert(rest@ =~= original.skip(taken + 1));
            vstd::seq_lib::to_multiset_build(derefs(original.take(taken as int)), *entry);
        }
        let position = sequence_slot(&ordered, entry);
        let ghost before = ordered@;
        ordered.insert(position, entry);
        proof {
            assert(derefs(ordered@) =~= derefs(before).insert(position as int, *entry));
            vstd::seq_lib::to_multiset_insert(derefs(before), position as int, *entry);
            assert forall|i: int, j: int| 0 <= i < j < ordered@.len() implies (#[trigger] ordered@[i]).sequence
                <= (#[trigger] ordered@[j]).sequence by {
                let p = position as int;
                if j < p {
                    assert(ordered@[i] == before[i] && ordered@[j] == before[j]);
                } else if j == p {
                    assert(ordered@[i] == before[i]);
                } else if i == p {
                    assert(ordered@[j] == before[j - 1]);
                    assert(before[p].sequence <= before[j - 1].sequence);
                } else if i < p {
                    assert(ordered@[i] == before[i] && ordered@[j] == before[j - 1]);
                } else {
                    assert(ordered@[i] == before[i - 1] && ordered@[j] == before[j - 1]);
                }
            }
        }
        taken += 1;
    }
    assert(original.take(taken as int) =~= original);
    ordered
}

/// The items a list of references points at.
pub open spec fn derefs<T>(items: Seq<&T>) -> Seq<T> {
    items.map_values(|item: &T| *item)
}

/// Where a dial sits beside a model's key grid: the grid column it is drawn
/// in (one past either edge), the row it starts on, and how many rows it
/// spans.
#[derive(Clone, Copy, Debug, PartialEq, Eq, Structural)]
pub struct DialPlacement {
    pub column: i16,
    pub row: u16,
    pub row_span: u16,
}

/// The dials of a model, by model name: a Stream Deck Studio has one dial
/// each side of its sixteen columns, spanning both rows; other models have
/// none.
pub open spec fn model_dials(model: Seq<char>) -> Seq<DialPlacement> {
    if model == "Stream Deck Studio"@ {
        seq![DialPlacement { column: -1i16, row: 0, row_span: 2 }, DialPlacement { column: 16, row: 0, row_span: 2 }]
    } else {
        Seq::empty()
    }
}

/// The dials of the model named `model`.
pub fn dials_of_model(model: &str) -> (dials: Vec<DialPlacement>)
    ensures
        dials@ == model_dials(model@),
{
    if str_eq(model, "Stream Deck Studio") {
        let dials = vec![DialPlacement { column: -1, row: 0, row_span: 2 }, DialPlacement {
            column: 16,
            row: 0,
            row_span: 2,
        }];
        assert(dials@ =~= model_dials(model@));
        dials
    } else {
        Vec::new()
    }
}

/// A managed device as the web page sees it: what is stored about it, and
/// the dials its model has. The dials are no part of the stored device.
#[derive(Debug)]
pub struct DeviceView<'a> {
    pub device: &'a ManagedNetworkSurface,
    pub dials: Vec<DialPlacement>,
}

/// The devices the views show.
pub open spec fn viewed_devices<'a>(views: Seq<DeviceView<'a>>) -> Seq<&'a ManagedNetworkSurface> {
    Seq::new(views.len(), |i: int| views[i].device)
}

/// Each device with the dials of its model, in the same order.
pub fn device_views<'a>(devices: Vec<&'a ManagedNetworkSurface>) -> (views: Vec<DeviceView<'a>>)
    ensures
        viewed_devices(views@) == devices@,
        forall|i: int| 0 <= i < views@.len() ==> (#[trigger] views@[i]).dials@ == model_dials(views@[i].device.model@),
{
    let mut views: Vec<DeviceView<'a>> = Vec::new();
    let mut i: usize = 0;
    while i < devices.len()
        invariant
            i <= devices@.len(),
            views@.len() == i,
            forall|k: int| 0 <= k < i ==> (#[trigger] views@[k]).device == devices@[k],
            forall|k: int| 0 <= k < views@.len() ==> (#[trigger] views@[k]).dials@ == model_dials(views@[k].device.model@),
        decreases devices.len() - i,
    {
        let device = devices[i];
        views.push(DeviceView { device, dials: dials_of_model(device.model.as_str()) });
        i += 1;
    }
    assert(viewed_devices(views@) =~= devices@);
    views
}

/// Everything the daemon knows of its devices, for the web page: devices
/// found on the network, devices managed and panels, each in order of name;
/// the last key events, newest first; the keys and dials held down and where
/// each turned dial stands; and every log line, in order.
#[derive(Debug)]
pub struct DeviceInventory<'a> {
    pub discovered: Vec<&'a DiscoveredNetworkSurface>,
    pub devices: Vec<DeviceView<'a>>,
    pub panels: Vec<&'a Panel>,
    /// Left empty here: the plugin engine fills it in where it is reachable.
    pub plugin_instances: Vec<PluginInstance>,
    pub recent_key_events: Vec<&'a SurfaceKeyEvent>,
    pub key_states: Vec<SurfaceKeyEvent>,
    pub dial_states: Vec<SurfaceDialState>,
    pub dial_presses: Vec<SurfaceDialPress>,
    pub logs: Vec<&'a SurfaceLogEntry>,
}

/// The keys of entries whose value is true, in order.
pub open spec fn true_keys<K: View>(entries: Seq<(K, bool)>) -> Seq<K::V>
    decreases entries.len(),
{
    if entries.len() == 0 {
        Seq::empty()
    } else {
        let before = true_keys(entries.drop_last());
        if entries.last().1 {
            before.push(entries.last().0@)
        } else {
            before
        }
    }
}

/// A key held down, as the event of its press.
pub open spec fn press_view(event: SurfaceKeyEvent) -> (Seq<char>, u8) {
    (event.surface_id@, event.key_index)
}

/// The keys the events are about.
pub open spec fn press_keys(events: Seq<SurfaceKeyEvent>) -> Seq<(Seq<char>, u8)> {
    events.map_values(|event: SurfaceKeyEvent| press_view(event))
}

/// The dials the presses are about.
pub open spec fn dial_press_keys(presses: Seq<SurfaceDialPress>) -> Seq<(Seq<char>, u8)> {
    presses.map_values(|press: SurfaceDialPress| dial_press_view(press))
}

/// The keys held down: each key whose last reported state is pressed.
pub fn held_keys(entries: &Vec<((String, u8), bool)>) -> (held: Vec<SurfaceKeyEvent>)
    ensures
        press_keys(held@) == true_keys(entries@),
        forall|i: int| 0 <= i < held@.len() ==> (#[trigger] held@[i]).is_pressed,
{
    let mut held: Vec<SurfaceKeyEvent> = Vec::new();
    let mut i: usize = 0;
    assert(entries@.take(0) =~= Seq::<((String, u8), bool)>::empty());
    while i < entries.len()
        invariant
            i <= entries@.len(),
            held@.map_values(|event: SurfaceKeyEvent| press_view(event)) == true_keys(entries@.take(i as int)),
            forall|j: int| 0 <= j < held@.len() ==> (#[trigger] held@[j]).is_pressed,
        decreases entries.len() - i,
    {
        assert(entries@.take(i + 1).drop_last() =~= entries@.take(i as int));
        assert(entries@.take(i + 1).last() == entries@[i as int]);
        if entries[i].1 {
            let ghost before = held@;
            held.push(SurfaceKeyEvent {
                surface_id: crate::identifiers::SurfaceId(entries[i].0.0.clone()),
                key_index: entries[i].0.1,
                is_pressed: true,
            });
            assert(held@.map_values(|event: SurfaceKeyEvent| press_view(event)) =~= before.map_values(
                |event: SurfaceKeyEvent| press_view(event),
            ).push(entries@[i as int].0@));
        }
        i += 1;
    }
    assert(entries@.take(i as int) =~= entries@);
    held
}

/// A dial held down, as the event of its press.
pub open spec fn dial_press_view(press: SurfaceDialPress) -> (Seq<char>, u8) {
    (press.surface_id@, press.dial_index)
}

/// The dials held down: each dial whose last reported state is pressed.
pub fn held_dials(entries: &Vec<((String, u8), bool)>) -> (held: Vec<SurfaceDialPress>)
    ensures
        dial_press_keys(held@) == true_keys(entries@),
        forall|i: int| 0 <= i < held@.len() ==> (#[trigger] held@[i]).is_pressed,
{
    let mut held: Vec<SurfaceDialPress> = Vec::new();
    let mut i: usize = 0;
    assert(entries@.take(0) =~= Seq::<((String, u8), bool)>::empty());
    while i < entries.len()
        invariant
            i <= entries@.len(),
            held@.map_values(|press: SurfaceDialPress| dial_press_view(press)) == true_keys(entries@.take(i as int)),
            forall|j: int| 0 <= j < held@.len() ==> (#[trigger] held@[j]).is_pressed,
        decreases entries.len() - i,
    {
        assert(entries@.take(i + 1).drop_last() =~= entries@.take(i as int));
        assert(entries@.take(i + 1).last() == entries@[i as int]);
        if entries[i].1 {
            let ghost before = held@;
            held.push(SurfaceDialPress {
                surface_id: crate::identifiers::SurfaceId(entries[i].0.0.clone()),
                dial_index: entries[i].0.1,
                is_pressed: true,
            });
            assert(held@.map_values(|press: SurfaceDialPress| dial_press_view(press)) =~= before.map_values(
                |press: SurfaceDialPress| dial_press_view(press),
            ).push(entries@[i as int].0@));
        }
        i += 1;
    }
    assert(entries@.take(i as int) =~= entries@);
    held
}

/// Where each turned dial stands, as a level in percent.
pub fn dial_levels(entries: &Vec<((String, u8), u8)>) -> (levels: Vec<SurfaceDialState>)
    ensures
        levels@.len() == entries@.len(),
        forall|i: int|
            0 <= i < levels@.len() ==> (#[trigger] levels@[i]).surface_id@ == entries@[i].0.0@ && levels@[i].dial_index
                == entries@[i].0.1 && levels@[i].level == crate::surfaces::percent_spec(entries@[i].1),
{
    let mut levels: Vec<SurfaceDialState> = Vec::new();
    let mut i: usize = 0;
    while i < entries.len()
        invariant
            i <= entries@.len(),
            levels@.len() == i,
            forall|j: int|
                0 <= j < i ==> (#[trigger] levels@[j]).surface_id@ == entries@[j].0.0@ && levels@[j].dial_index
                    == entries@[j].0.1 && levels@[j].level == crate::surfaces::percent_spec(entries@[j].1),
        decreases entries.len() - i,
    {
        levels.push(SurfaceDialState {
            surface_id: crate::identifiers::SurfaceId(entries[i].0.0.clone()),
            dial_index: entries[i].0.1,
            level: crate::surfaces::percent_from_segments(entries[i].1),
        });
        i += 1;
    }
    levels
}

/// Every log line of every device, device after device.
pub open spec fn all_lines(logs: Seq<(String, Vec<SurfaceLogEntry>)>) -> Seq<SurfaceLogEntry>
    decreases logs.len(),
{
    if logs.len() == 0 {
        Seq::empty()
    } else {
        all_lines(logs.drop_last()) + logs.last().1@
    }
}

/// Every log line of every device, device after device.
pub fn collect_lines(logs: &Vec<(String, Vec<SurfaceLogEntry>)>) -> (lines: Vec<&SurfaceLogEntry>)
    ensures
        derefs(lines@) == all_lines(logs@),
{
    let mut lines: Vec<&SurfaceLogEntry> = Vec::new();
    let mut i: usize = 0;
    assert(logs@.take(0) =~= Seq::<(String, Vec<SurfaceLogEntry>)>::empty());
    assert(derefs(lines@) =~= Seq::<SurfaceLogEntry>::empty());
    while i < logs.len()
        invariant
            i <= logs@.len(),
            derefs(lines@) == all_lines(logs@.take(i as int)),
        decreases logs.len() - i,
    {
        assert(logs@.take(i + 1).drop_last() =~= logs@.take(i as int));
        assert(logs@.take(i + 1).last() == logs@[i as int]);
        let entries = &logs[i].1;
        let ghost start = derefs(lines@);
        let mut j: usize = 0;
        assert(entries@.take(0) =~= Seq::<SurfaceLogEntry>::empty());
        while j < entries.len()
            invariant
                j <= entries@.len(),
                derefs(lines@) == start + entries@.take(j as int),
            decreases entries.len() - j,
        {
            let ghost before = lines@;
            lines.push(&entries[j]);
            assert(derefs(lines@) =~= derefs(before).push(entries@[j as int]));
            assert(entries@.take(j + 1) =~= entries@.take(j as int).push(entries@[j as int]));
            assert(start + entries@.take(j + 1) =~= (start + entries@.take(j as int)).push(entries@[j as int]));
            j += 1;
        }
        assert(entries@.take(j as int) =~= entries@);
        i += 1;
    }
    assert(logs@.take(i as int) =~= logs@);
    lines
}

} // verus!
