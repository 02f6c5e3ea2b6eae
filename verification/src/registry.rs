//! The devices and panels the daemon knows, and what happens on them: which
//! panel each device shows and the subpanels open over it, which keys are
//! held, where each dial ring stands, and each device's log.

use vstd::prelude::*;
use crate::identifiers::{ControlId, PanelId, SurfaceId};
use crate::ledger::{is_news, LedgerKey, RenderLedger};
use crate::surfaces::{KeyRendering, LayerView};
use crate::keyed::{
    found_at, ids_unique, insert_at, keyed, lemma_found, lemma_keyed_at, lemma_keyed_dom, position_of, put_at,
    remove_at, slot_position,
};
use crate::numbers::{parse_bounded_spec, parse_radix};
use crate::panels::{
    Control, Panel, PanelLayout, RenderedState, RgbaColor, SubpanelPlacement, SurfaceCapabilities, SurfaceLayout,
    SurfacePosition,
};
use crate::streamdeck::{default_port, DEFAULT_STREAM_DECK_PORT};
use crate::surfaces::{
    same_device, studio_capabilities, subpanel_origin, subpanel_origin_spec, DiscoveredNetworkSurface, PresentationControl,
    SurfacePresentation,
    ManagedNetworkSurface, NetworkSurfaceStatus, OpenSubpanel,
    key_index_for, key_index_spec, percent_from_segments, percent_spec, segments_from_percent, segments_spec,
    SurfaceDialPress, SurfaceKeyEvent, SurfaceLogEntry, SurfaceLogLevel, DIAL_COUNT, DIAL_RING_SEGMENTS,
};
use crate::plugin::InputEvent;
use crate::inventory::{
    all_lines, by_name, by_sequence, collect_lines, derefs, dial_levels, dial_press_view, held_dials, held_keys,
    dial_press_keys, press_keys, press_view, sorted_by_name, sorted_by_sequence, true_keys, DeviceInventory,
    device_views, model_dials, viewed_devices,
};
use crate::presets::{control_copy_at, same_control};
use crate::text::{decimal, decimal_text, option_view, owned, str_eq, str_starts_with, starts_with, trim_ws};

verus! {

/// What a device can show, against what a panel asks: every feature the
/// panel uses, the device has.
pub open spec fn supports_spec(device: SurfaceCapabilities, panel: SurfaceCapabilities) -> bool {
    &&& (!panel.supports_color || device.supports_color)
    &&& (!panel.supports_images || device.supports_images)
    &&& (!panel.supports_text || device.supports_text)
    &&& (!panel.supports_brightness || device.supports_brightness)
    &&& (!panel.supports_haptics || device.supports_haptics)
}

/// Whether a device can show everything a panel asks of it.
pub fn supports(device: &SurfaceCapabilities, panel: &SurfaceCapabilities) -> (able: bool)
    ensures
        able == supports_spec(*device, *panel),
{
    (!panel.supports_color || device.supports_color) && (!panel.supports_images || device.supports_images) && (
    !panel.supports_text || device.supports_text) && (!panel.supports_brightness || device.supports_brightness)
        && (!panel.supports_haptics || device.supports_haptics)
}

/// A panel fits a device when the device is a key grid of the panel's size
/// and can show everything the panel asks of it.
pub open spec fn compatible(device: ManagedNetworkSurface, panel: Panel) -> bool {
    &&& device.layout == (SurfaceLayout::Grid { columns: panel.layout.columns, rows: panel.layout.rows })
    &&& supports_spec(device.capabilities, panel.capabilities)
}

/// Whether a panel fits a device.
pub fn is_compatible(device: &ManagedNetworkSurface, panel: &Panel) -> (fits: bool)
    ensures
        fits == compatible(*device, *panel),
{
    match device.layout {
        SurfaceLayout::Grid { columns, rows } => columns == panel.layout.columns && rows == panel.layout.rows
            && supports(&device.capabilities, &panel.capabilities),
        SurfaceLayout::Freeform => false,
    }
}

/// The first panel listed with id `id`.
pub open spec fn panel_at(panels: Seq<Panel>, id: Seq<char>) -> Option<int>
    decreases panels.len(),
{
    if panels.len() == 0 {
        None
    } else {
        match panel_at(panels.drop_last(), id) {
            Some(i) => Some(i),
            None => if panels.last().panel_id@ == id {
                Some(panels.len() - 1)
            } else {
                None
            },
        }
    }
}

/// The first panel that fits a device.
pub open spec fn first_compatible(device: ManagedNetworkSurface, panels: Seq<Panel>) -> Option<int>
    decreases panels.len(),
{
    if panels.len() == 0 {
        None
    } else {
        match first_compatible(device, panels.drop_last()) {
            Some(i) => Some(i),
            None => if compatible(device, panels.last()) {
                Some(panels.len() - 1)
            } else {
                None
            },
        }
    }
}

/// Whether a device shows a panel that exists and fits it.
pub open spec fn assignment_holds(device: ManagedNetworkSurface, panels: Seq<Panel>) -> bool {
    match device.active_panel_id {
        Some(id) => match panel_at(panels, id@) {
            Some(i) => compatible(device, panels[i]),
            None => false,
        },
        None => false,
    }
}

/// The panel a device shows once assignments are repaired: its own, when it
/// holds, else the first that fits, else none.
pub open spec fn repaired_id(device: ManagedNetworkSurface, panels: Seq<Panel>) -> Option<PanelId> {
    if assignment_holds(device, panels) {
        device.active_panel_id
    } else {
        match first_compatible(device, panels) {
            Some(i) => Some(panels[i].panel_id),
            None => None,
        }
    }
}

/// The layout of a Stream Deck Studio: sixteen keys in two rows.
pub open spec fn studio_layout() -> SurfaceLayout {
    SurfaceLayout::Grid { columns: 16, rows: 2 }
}

/// Whether some Studio shows no panel that holds.
pub open spec fn needs_studio_panel(devices: Seq<ManagedNetworkSurface>, panels: Seq<Panel>) -> bool {
    exists|i: int|
        0 <= i < devices.len() && !assignment_holds(#[trigger] devices[i], panels) && devices[i].layout
            == studio_layout()
}

/// Whether some panel is laid out for a Studio.
pub open spec fn has_studio_panel(panels: Seq<Panel>) -> bool {
    exists|i: int| 0 <= i < panels.len() && (#[trigger] panels[i]).layout == (PanelLayout { columns: 16, rows: 2 })
}

/// A blue that the first panel's key and dials start in.
pub open spec fn hello_blue() -> RgbaColor {
    RgbaColor { red: 35, green: 88, blue: 165, alpha: 255 }
}

/// The panel a fresh install starts with: one key saying hello on a Studio
/// layout, both dial rings lit blue and full.
pub open spec fn is_default_panel(panel: Panel) -> bool {
    &&& panel.panel_id@ == "studio-panel-1"@
    &&& panel.name@ == "Hello"@
    &&& panel.layout == (PanelLayout { columns: 16, rows: 2 })
    &&& panel.capabilities == (SurfaceCapabilities {
        supports_color: true,
        supports_images: true,
        supports_text: true,
        supports_brightness: true,
        supports_haptics: false,
    })
    &&& panel.controls@.len() == 1
    &&& panel.controls@[0].control_id@ == "hello"@
    &&& panel.controls@[0].name@ == "Hello"@
    &&& panel.controls@[0].position == (SurfacePosition { column: 0, row: 0 })
    &&& panel.controls@[0].default_state.text == Some(panel.controls@[0].default_state.text->0)
    &&& panel.controls@[0].default_state.text->0@ == "Hello"@
    &&& panel.controls@[0].pressed_state is Some
    &&& panel.controls@[0].action_bindings@.len() == 0
    &&& panel.dial_colors@ == seq![hello_blue(), hello_blue()]
    &&& panel.dial_ring_levels@ == seq![100u8, 100u8]
}

/// The panel a fresh install starts with.
pub fn default_panel() -> (panel: Panel)
    ensures
        is_default_panel(panel),
{
    let white = RgbaColor::opaque(255, 255, 255);
    let blue = RgbaColor::opaque(35, 88, 165);
    let dark = RgbaColor::opaque(18, 44, 83);
    let control = Control {
        control_id: ControlId(owned("hello")),
        name: owned("Hello"),
        position: SurfacePosition { column: 0, row: 0 },
        default_state: RenderedState::labelled("Hello", white, blue, false),
        pressed_state: Some(RenderedState::labelled("Hello", white, dark, true)),
        action_bindings: Vec::new(),
    };
    let panel = Panel {
        panel_id: PanelId(owned("studio-panel-1")),
        name: owned("Hello"),
        layout: PanelLayout { columns: 16, rows: 2 },
        capabilities: studio_capabilities(),
        controls: vec![control],
        dial_colors: vec![RgbaColor::opaque(35, 88, 165), RgbaColor::opaque(35, 88, 165)],
        dial_ring_levels: vec![100, 100],
    };
    proof {
        assert(panel.dial_colors@ =~= seq![hello_blue(), hello_blue()]);
        assert(panel.dial_ring_levels@ =~= seq![100u8, 100u8]);
    }
    panel
}

/// The device a fresh install starts with: a Studio on this machine, named
/// after the devices already listed, showing `active_panel_id`.
pub open spec fn is_default_device(device: ManagedNetworkSurface, listed: nat, active_panel_id: Option<PanelId>) -> bool {
    &&& device.surface_id@ == "stream-deck-studio-"@ + decimal(listed + 1)
    &&& device.name@ == "Stream Deck Studio"@
    &&& device.host@ == "127.0.0.1"@
    &&& device.port == DEFAULT_STREAM_DECK_PORT
    &&& device.serial_number is None
    &&& device.model@ == "Stream Deck Studio"@
    &&& device.layout == studio_layout()
    &&& device.capabilities == (SurfaceCapabilities {
        supports_color: true,
        supports_images: true,
        supports_text: true,
        supports_brightness: true,
        supports_haptics: false,
    })
    &&& device.active_panel_id == active_panel_id
    &&& device.open_subpanels@.len() == 0
    &&& device.is_enabled
    &&& device.parent_surface_id is None
    &&& device.status == NetworkSurfaceStatus::Connecting
    &&& device.last_error is None
}

/// The device a fresh install starts with.
pub fn default_device(devices: &[ManagedNetworkSurface], active_panel_id: Option<PanelId>) -> (device:
    ManagedNetworkSurface)
    requires
        devices@.len() < u64::MAX,
    ensures
        is_default_device(device, devices@.len(), active_panel_id),
{
    let mut surface_id = owned("stream-deck-studio-");
    let number = decimal_text(devices.len() as u64 + 1);
    surface_id.push_str(number.as_str());
    ManagedNetworkSurface {
        surface_id: SurfaceId(surface_id),
        name: owned("Stream Deck Studio"),
        host: owned("127.0.0.1"),
        port: default_port(),
        serial_number: None,
        model: owned("Stream Deck Studio"),
        layout: SurfaceLayout::Grid { columns: 16, rows: 2 },
        capabilities: studio_capabilities(),
        active_panel_id,
        open_subpanels: Vec::new(),
        is_enabled: true,
        parent_surface_id: None,
        status: NetworkSurfaceStatus::Connecting,
        last_error: None,
    }
}

/// The first panel listed with id `id`.
fn find_panel(panels: &Vec<Panel>, id: &PanelId) -> (found: Option<usize>)
    ensures
        match found {
            Some(i) => i < panels@.len() && panel_at(panels@, id@) == Some(i as int),
            None => panel_at(panels@, id@) is None,
        },
{
    let mut i: usize = 0;
    while i < panels.len()
        invariant
            i <= panels@.len(),
            panel_at(panels@.take(i as int), id@) is None,
        decreases panels.len() - i,
    {
        assert(panels@.take(i + 1).drop_last() =~= panels@.take(i as int));
        if crate::text::str_eq(panels[i].panel_id.0.as_str(), id.0.as_str()) {
            proof {
                lemma_panel_at_prefix(panels@, i + 1, id@);
            }
            return Some(i);
        }
        i += 1;
    }
    assert(panels@.take(i as int) =~= panels@);
    None
}

/// Where a panel is found in a list, it is found in any longer list that
/// starts with it.
proof fn lemma_panel_at_prefix(panels: Seq<Panel>, n: int, id: Seq<char>)
    requires
        0 <= n <= panels.len(),
        panel_at(panels.take(n), id) is Some,
    ensures
        panel_at(panels, id) == panel_at(panels.take(n), id),
    decreases panels.len() - n,
{
    if n < panels.len() {
        assert(panels.take(n + 1).drop_last() =~= panels.take(n));
        lemma_panel_at_prefix(panels, n + 1, id);
    } else {
        assert(panels.take(n) =~= panels);
    }
}

/// Where a fitting panel is found in a list, it is found in any longer list
/// that starts with it.
proof fn lemma_first_compatible_prefix(device: ManagedNetworkSurface, panels: Seq<Panel>, n: int)
    requires
        0 <= n <= panels.len(),
        first_compatible(device, panels.take(n)) is Some,
    ensures
        first_compatible(device, panels) == first_compatible(device, panels.take(n)),
    decreases panels.len() - n,
{
    if n < panels.len() {
        assert(panels.take(n + 1).drop_last() =~= panels.take(n));
        lemma_first_compatible_prefix(device, panels, n + 1);
    } else {
        assert(panels.take(n) =~= panels);
    }
}

/// The first panel that fits a device.
fn find_compatible(device: &ManagedNetworkSurface, panels: &Vec<Panel>) -> (found: Option<usize>)
    ensures
        match found {
            Some(i) => i < panels@.len() && first_compatible(*device, panels@) == Some(i as int),
            None => first_compatible(*device, panels@) is None,
        },
{
    let mut i: usize = 0;
    while i < panels.len()
        invariant
            i <= panels@.len(),
            first_compatible(*device, panels@.take(i as int)) is None,
        decreases panels.len() - i,
    {
        assert(panels@.take(i + 1).drop_last() =~= panels@.take(i as int));
        if is_compatible(device, &panels[i]) {
            proof {
                lemma_first_compatible_prefix(*device, panels@, i + 1);
            }
            return Some(i);
        }
        i += 1;
    }
    assert(panels@.take(i as int) =~= panels@);
    None
}

/// Whether a device shows a panel that exists and fits it.
fn assignment_is_valid(device: &ManagedNetworkSurface, panels: &Vec<Panel>) -> (holds: bool)
    ensures
        holds == assignment_holds(*device, panels@),
{
    match &device.active_panel_id {
        Some(id) => match find_panel(panels, id) {
            Some(i) => is_compatible(device, &panels[i]),
            None => false,
        },
        None => false,
    }
}

/// Whether some panel is laid out for a Studio.
fn any_studio_panel(panels: &Vec<Panel>) -> (found: bool)
    ensures
        found == has_studio_panel(panels@),
{
    let mut i: usize = 0;
    while i < panels.len()
        invariant
            i <= panels@.len(),
            forall|j: int| 0 <= j < i ==> (#[trigger] panels@[j]).layout != (PanelLayout { columns: 16, rows: 2 }),
        decreases panels.len() - i,
    {
        if panels[i].layout.columns == 16 && panels[i].layout.rows == 2 {
            return true;
        }
        i += 1;
    }
    false
}

/// Whether some Studio shows no panel that holds.
fn studio_needs_panel(devices: &Vec<ManagedNetworkSurface>, panels: &Vec<Panel>) -> (needed: bool)
    ensures
        needed == needs_studio_panel(devices@, panels@),
{
    let mut i: usize = 0;
    while i < devices.len()
        invariant
            i <= devices@.len(),
            forall|j: int|
                0 <= j < i ==> assignment_holds(#[trigger] devices@[j], panels@) || devices@[j].layout != studio_layout(),
        decreases devices.len() - i,
    {
        let studio = match devices[i].layout {
            SurfaceLayout::Grid { columns, rows } => columns == 16 && rows == 2,
            SurfaceLayout::Freeform => false,
        };
        if studio && !assignment_is_valid(&devices[i], panels) {
            return true;
        }
        i += 1;
    }
    false
}

/// A device showing `active_panel_id` and otherwise as it was.
pub open spec fn showing(device: ManagedNetworkSurface, active_panel_id: Option<PanelId>) -> ManagedNetworkSurface {
    ManagedNetworkSurface { active_panel_id, ..device }
}

/// Makes every device show a panel that exists and fits it, where one does:
/// a Studio left without one gets the default panel added when no panel is
/// laid out for a Studio; a device whose panel is gone or does not fit is
/// moved to the first panel that fits, or to none.
pub fn repair_panel_assignments(devices: &mut Vec<ManagedNetworkSurface>, panels: &mut Vec<Panel>)
    ensures
        (needs_studio_panel(old(devices)@, old(panels)@) && !has_studio_panel(old(panels)@)) ==> final(panels)@.len()
            == old(panels)@.len() + 1 && final(panels)@.drop_last() == old(panels)@ && is_default_panel(
            final(panels)@.last(),
        ),
        !(needs_studio_panel(old(devices)@, old(panels)@) && !has_studio_panel(old(panels)@)) ==> final(panels)@
            == old(panels)@,
        final(devices)@.len() == old(devices)@.len(),
        forall|i: int|
            0 <= i < old(devices)@.len() ==> final(devices)@[i] == showing(
                old(devices)@[i],
                repaired_id(old(devices)@[i], final(panels)@),
            ),
{
    if studio_needs_panel(devices, panels) && !any_studio_panel(panels) {
        let ghost before = panels@;
        panels.push(default_panel());
        assert(panels@.drop_last() =~= before);
    }
    let ghost start = devices@;
    let mut i: usize = 0;
    while i < devices.len()
        invariant
            i <= devices@.len(),
            devices@.len() == start.len(),
            forall|j: int| 0 <= j < i ==> devices@[j] == showing(start[j], repaired_id(start[j], panels@)),
            forall|j: int| i <= j < devices@.len() ==> devices@[j] == start[j],
        decreases devices.len() - i,
    {
        if !assignment_is_valid(&devices[i], panels) {
            let chosen = match find_compatible(&devices[i], panels) {
                Some(k) => Some(panels[k].panel_id.clone()),
                None => None,
            };
            let mut device = devices.remove(i);
            device.active_panel_id = chosen;
            devices.insert(i, device);
        } else {
            proof {
                assert(devices@[i as int] == showing(start[i as int], repaired_id(start[i as int], panels@)));
            }
        }
        i += 1;
    }
}

/// Whether some device listed has the endpoint of `device`.
pub open spec fn endpoint_listed(devices: Seq<ManagedNetworkSurface>, device: ManagedNetworkSurface) -> bool {
    exists|j: int|
        0 <= j < devices.len() && (#[trigger] devices[j]).host@ == device.host@ && devices[j].port == device.port
}

/// The devices with no endpoint listed twice: of each endpoint, the first.
pub open spec fn deduped(devices: Seq<ManagedNetworkSurface>) -> Seq<ManagedNetworkSurface>
    decreases devices.len(),
{
    if devices.len() == 0 {
        Seq::empty()
    } else {
        let before = deduped(devices.drop_last());
        if endpoint_listed(devices.drop_last(), devices.last()) {
            before
        } else {
            before.push(devices.last())
        }
    }
}

/// An endpoint is listed exactly when it is listed once its repeats are
/// dropped.
proof fn lemma_deduped_endpoints(devices: Seq<ManagedNetworkSurface>, device: ManagedNetworkSurface)
    ensures
        endpoint_listed(deduped(devices), device) == endpoint_listed(devices, device),
    decreases devices.len(),
{
    if devices.len() > 0 {
        let prefix = devices.drop_last();
        let last = devices.last();
        lemma_deduped_endpoints(prefix, device);
        lemma_deduped_endpoints(prefix, last);
        let before = deduped(prefix);
        let out = deduped(devices);
        assert(forall|k: int| 0 <= k < before.len() ==> out[k] == before[k]);
        if endpoint_listed(prefix, device) {
            let k = choose|k: int|
                0 <= k < before.len() && (#[trigger] before[k]).host@ == device.host@ && before[k].port == device.port;
            assert(out[k] == before[k]);
        } else if last.host@ == device.host@ && last.port == device.port {
            if endpoint_listed(prefix, last) {
                let k = choose|k: int|
                    0 <= k < prefix.len() && (#[trigger] prefix[k]).host@ == last.host@ && prefix[k].port == last.port;
                assert(prefix[k].host@ == device.host@ && prefix[k].port == device.port);
                assert(false);
            } else {
                assert(out[before.len() as int] == last);
            }
            assert(devices[devices.len() - 1] == last);
        } else {
            if endpoint_listed(devices, device) {
                let j = choose|j: int|
                    0 <= j < devices.len() && (#[trigger] devices[j]).host@ == device.host@ && devices[j].port
                        == device.port;
                if j < prefix.len() {
                    assert(prefix[j] == devices[j]);
                }
            }
            if endpoint_listed(out, device) {
                let j = choose|j: int| 0 <= j < out.len() && (#[trigger] out[j]).host@ == device.host@ && out[j].port == device.port;
                if j < before.len() {
                    assert(out[j] == before[j]);
                }
            }
        }
    }
}

/// Drops every device whose endpoint an earlier device has.
fn dedupe_endpoints(devices: Vec<ManagedNetworkSurface>) -> (kept: Vec<ManagedNetworkSurface>)
    ensures
        kept@ == deduped(devices@),
{
    let ghost original = devices@;
    let mut rest = devices;
    let mut kept: Vec<ManagedNetworkSurface> = Vec::new();
    let mut taken: usize = 0;
    let count = rest.len();
    assert(original.take(0) =~= Seq::<ManagedNetworkSurface>::empty());
    assert(rest@ =~= original.skip(0));
    while rest.len() > 0
        invariant
            original.len() == count,
            taken + rest@.len() == count,
            rest@ == original.skip(taken as int),
            kept@ == deduped(original.take(taken as int)),
        decreases rest.len(),
    {
        let ghost before = rest@;
        let device = rest.remove(0);
        proof {
            assert(before[0] == original[taken as int]);
            assert(rest@ =~= original.skip(taken + 1));
            assert(original.take(taken + 1).drop_last() =~= original.take(taken as int));
            assert(original.take(taken + 1).last() == device);
            lemma_deduped_endpoints(original.take(taken as int), device);
        }
        let mut seen = false;
        let mut j: usize = 0;
        while j < kept.len()
            invariant
                j <= kept@.len(),
                seen == exists|k: int|
                    0 <= k < j && (#[trigger] kept@[k]).host@ == device.host@ && kept@[k].port == device.port,
            decreases kept.len() - j,
        {
            if kept[j].port == device.port && crate::text::str_eq(kept[j].host.as_str(), device.host.as_str()) {
                seen = true;
            }
            j += 1;
        }
        if !seen {
            kept.push(device);
        }
        taken += 1;
    }
    assert(original.take(taken as int) =~= original);
    kept
}

/// Whether some device is enabled.
pub open spec fn any_enabled(devices: Seq<ManagedNetworkSurface>) -> bool {
    exists|i: int| 0 <= i < devices.len() && (#[trigger] devices[i]).is_enabled
}

/// The number an id carries after `prefix`, when it is one.
pub open spec fn numbered(id: Seq<char>, prefix: Seq<char>) -> Option<nat> {
    if starts_with(id, prefix) {
        parse_bounded_spec(id.skip(prefix.len() as int), 10, u64::MAX as nat)
    } else {
        None
    }
}

/// The highest number among ids numbered after `prefix`, or zero.
pub open spec fn highest_number(ids: Seq<Seq<char>>, prefix: Seq<char>) -> nat
    decreases ids.len(),
{
    if ids.len() == 0 {
        0
    } else {
        let before = highest_number(ids.drop_last(), prefix);
        match numbered(ids.last(), prefix) {
            Some(n) => if n > before {
                n
            } else {
                before
            },
            None => before,
        }
    }
}

/// The number an id carries after `prefix`, when it is one.
fn number_after(id: &str, prefix: &str) -> (number: Option<u64>)
    ensures
        match number {
            Some(n) => numbered(id@, prefix@) == Some(n as nat),
            None => numbered(id@, prefix@) is None,
        },
{
    if !str_starts_with(id, prefix) {
        return None;
    }
    let chars = crate::text::chars_of(id);
    let prefix_length = crate::text::chars_of(prefix).len();
    let rest = crate::text::string_of(&chars, prefix_length, chars.len());
    proof {
        assert(chars@.subrange(prefix_length as int, chars@.len() as int) =~= id@.skip(prefix@.len() as int));
    }
    parse_radix(rest.as_str(), 10, u64::MAX)
}

/// The ids of the devices listed.
pub open spec fn surface_ids(devices: Seq<ManagedNetworkSurface>) -> Seq<Seq<char>> {
    devices.map_values(|device: ManagedNetworkSurface| device.surface_id@)
}

/// The ids of the panels listed.
pub open spec fn panel_ids(panels: Seq<Panel>) -> Seq<Seq<char>> {
    panels.map_values(|panel: Panel| panel.panel_id@)
}

/// The highest number a device id carries.
fn highest_surface_number(devices: &Vec<ManagedNetworkSurface>) -> (highest: u64)
    ensures
        highest == highest_number(surface_ids(devices@), "stream-deck-studio-"@),
{
    let mut highest: u64 = 0;
    let mut i: usize = 0;
    assert(surface_ids(devices@).take(0) =~= Seq::<Seq<char>>::empty());
    while i < devices.len()
        invariant
            i <= devices@.len(),
            highest == highest_number(surface_ids(devices@).take(i as int), "stream-deck-studio-"@),
        decreases devices.len() - i,
    {
        assert(surface_ids(devices@).take(i + 1).drop_last() =~= surface_ids(devices@).take(i as int));
        match number_after(devices[i].surface_id.0.as_str(), "stream-deck-studio-") {
            Some(n) => if n > highest {
                highest = n;
            },
            None => {},
        }
        i += 1;
    }
    assert(surface_ids(devices@).take(i as int) =~= surface_ids(devices@));
    highest
}

/// The highest number a panel id carries.
fn highest_panel_number(panels: &Vec<Panel>) -> (highest: u64)
    ensures
        highest == highest_number(panel_ids(panels@), "studio-panel-"@),
{
    let mut highest: u64 = 0;
    let mut i: usize = 0;
    assert(panel_ids(panels@).take(0) =~= Seq::<Seq<char>>::empty());
    while i < panels.len()
        invariant
            i <= panels@.len(),
            highest == highest_number(panel_ids(panels@).take(i as int), "studio-panel-"@),
        decreases panels.len() - i,
    {
        assert(panel_ids(panels@).take(i + 1).drop_last() =~= panel_ids(panels@).take(i as int));
        match number_after(panels[i].panel_id.0.as_str(), "studio-panel-") {
            Some(n) => if n > highest {
                highest = n;
            },
            None => {},
        }
        i += 1;
    }
    assert(panel_ids(panels@).take(i as int) =~= panel_ids(panels@));
    highest
}

/// The devices by id; of two devices with one id, the later one counts.
pub open spec fn by_surface(devices: Seq<ManagedNetworkSurface>) -> Map<Seq<char>, ManagedNetworkSurface>
    decreases devices.len(),
{
    if devices.len() == 0 {
        Map::empty()
    } else {
        by_surface(devices.drop_last()).insert(devices.last().surface_id@, devices.last())
    }
}

/// The panels by id; of two panels with one id, the later one counts.
pub open spec fn by_panel(panels: Seq<Panel>) -> Map<Seq<char>, Panel>
    decreases panels.len(),
{
    if panels.len() == 0 {
        Map::empty()
    } else {
        by_panel(panels.drop_last()).insert(panels.last().panel_id@, panels.last())
    }
}

/// How the configured devices and panels are repaired into what the daemon
/// drives: repeated endpoints dropped; a default Studio added, showing the
/// first panel, when no device is enabled; then assignments repaired.
pub open spec fn configured(
    devices: Seq<ManagedNetworkSurface>,
    panels: Seq<Panel>,
    listed: Seq<ManagedNetworkSurface>,
    shown: Seq<Panel>,
) -> bool {
    let kept = deduped(devices);
    let first_panel = if panels.len() > 0 {
        Some(panels[0].panel_id)
    } else {
        None
    };
    let added = showing(listed[kept.len() as int], first_panel);
    let with_default = if any_enabled(kept) {
        kept
    } else {
        kept.push(added)
    };
    &&& !any_enabled(kept) ==> is_default_device(added, kept.len(), first_panel)
    &&& listed.len() == with_default.len()
    &&& forall|i: int|
        0 <= i < listed.len() ==> listed[i] == showing(#[trigger] with_default[i], repaired_id(with_default[i], shown))
    &&& (needs_studio_panel(with_default, panels) && !has_studio_panel(panels)) ==> shown.len() == panels.len() + 1
        && shown.drop_last() == panels && is_default_panel(shown.last())
    &&& !(needs_studio_panel(with_default, panels) && !has_studio_panel(panels)) ==> shown == panels
}

/// How many key events the registry remembers, newest first.
pub const RECENT_KEY_EVENTS: usize = 50;

/// How many log lines a surface keeps: enough to cover a burst of dial turns
/// and still show what came before it.
pub const SURFACE_LOG_CAPACITY: usize = 400;

/// Dropping repeated endpoints never lengthens a list.
proof fn lemma_deduped_len(devices: Seq<ManagedNetworkSurface>)
    ensures
        deduped(devices).len() <= devices.len(),
    decreases devices.len(),
{
    if devices.len() > 0 {
        lemma_deduped_len(devices.drop_last());
    }
}

/// Every device is listed under its own id.
proof fn lemma_by_surface_keys(devices: Seq<ManagedNetworkSurface>)
    ensures
        forall|k: Seq<char>| #[trigger] by_surface(devices).dom().contains(k) ==> by_surface(devices)[k].surface_id@ == k,
    decreases devices.len(),
{
    if devices.len() > 0 {
        lemma_by_surface_keys(devices.drop_last());
        assert forall|k: Seq<char>| #[trigger] by_surface(devices).dom().contains(k) implies by_surface(
            devices,
        )[k].surface_id@ == k by {
            if k != devices.last().surface_id@ {
                assert(by_surface(devices.drop_last()).dom().contains(k));
            }
        }
    }
}

/// Every panel is listed under its own id.
proof fn lemma_by_panel_keys(panels: Seq<Panel>)
    ensures
        forall|k: Seq<char>| #[trigger] by_panel(panels).dom().contains(k) ==> by_panel(panels)[k].panel_id@ == k,
    decreases panels.len(),
{
    if panels.len() > 0 {
        lemma_by_panel_keys(panels.drop_last());
        assert forall|k: Seq<char>| #[trigger] by_panel(panels).dom().contains(k) implies by_panel(panels)[k].panel_id@
            == k by {
            if k != panels.last().panel_id@ {
                assert(by_panel(panels.drop_last()).dom().contains(k));
            }
        }
    }
}

/// Whether some device is enabled.
fn some_enabled(devices: &Vec<ManagedNetworkSurface>) -> (found: bool)
    ensures
        found == any_enabled(devices@),
{
    let mut i: usize = 0;
    while i < devices.len()
        invariant
            i <= devices@.len(),
            forall|j: int| 0 <= j < i ==> !(#[trigger] devices@[j]).is_enabled,
        decreases devices.len() - i,
    {
        if devices[i].is_enabled {
            return true;
        }
        i += 1;
    }
    false
}

/// The devices, each listed under its id.
fn devices_by_id(devices: Vec<ManagedNetworkSurface>) -> (entries: Vec<(String, ManagedNetworkSurface)>)
    ensures
        ids_unique(entries@),
        keyed(entries@) == by_surface(devices@),
{
    let ghost original = devices@;
    let mut rest = devices;
    let mut entries: Vec<(String, ManagedNetworkSurface)> = Vec::new();
    let mut taken: usize = 0;
    let count = rest.len();
    assert(original.take(0) =~= Seq::<ManagedNetworkSurface>::empty());
    assert(rest@ =~= original.skip(0));
    assert(keyed(entries@) =~= Map::<Seq<char>, ManagedNetworkSurface>::empty());
    while rest.len() > 0
        invariant
            original.len() == count,
            taken + rest@.len() == count,
            rest@ == original.skip(taken as int),
            ids_unique(entries@),
            keyed(entries@) == by_surface(original.take(taken as int)),
        decreases rest.len(),
    {
        let ghost before = rest@;
        let device = rest.remove(0);
        proof {
            assert(before[0] == original[taken as int]);
            assert(rest@ =~= original.skip(taken + 1));
            assert(original.take(taken + 1).drop_last() =~= original.take(taken as int));
            assert(original.take(taken + 1).last() == device);
        }
        let key = device.surface_id.0.clone();
        let found = position_of(&entries, key.as_str());
        put_at(&mut entries, found, key, device);
        taken += 1;
    }
    assert(original.take(taken as int) =~= original);
    entries
}

/// The panels, each listed under its id.
fn panels_by_id(panels: Vec<Panel>) -> (entries: Vec<(String, Panel)>)
    ensures
        ids_unique(entries@),
        keyed(entries@) == by_panel(panels@),
{
    let ghost original = panels@;
    let mut rest = panels;
    let mut entries: Vec<(String, Panel)> = Vec::new();
    let mut taken: usize = 0;
    let count = rest.len();
    assert(original.take(0) =~= Seq::<Panel>::empty());
    assert(rest@ =~= original.skip(0));
    assert(keyed(entries@) =~= Map::<Seq<char>, Panel>::empty());
    while rest.len() > 0
        invariant
            original.len() == count,
            taken + rest@.len() == count,
            rest@ == original.skip(taken as int),
            ids_unique(entries@),
            keyed(entries@) == by_panel(original.take(taken as int)),
        decreases rest.len(),
    {
        let ghost before = rest@;
        let panel = rest.remove(0);
        proof {
            assert(before[0] == original[taken as int]);
            assert(rest@ =~= original.skip(taken + 1));
            assert(original.take(taken + 1).drop_last() =~= original.take(taken as int));
            assert(original.take(taken + 1).last() == panel);
        }
        let key = panel.panel_id.0.clone();
        let found = position_of(&entries, key.as_str());
        put_at(&mut entries, found, key, panel);
        taken += 1;
    }
    assert(original.take(taken as int) =~= original);
    entries
}

/// What the daemon knows of its devices and panels, and what is happening
/// on them: keys held, dial rings turned, subpanels open, the last key
/// events and each device's log.
#[derive(Debug)]
pub struct SurfaceRegistry {
    discovered: Vec<(String, DiscoveredNetworkSurface)>,
    managed: Vec<(String, ManagedNetworkSurface)>,
    panels: Vec<(String, Panel)>,
    key_states: Vec<((String, u8), bool)>,
    pressed_controls: Vec<((String, u8), Control)>,
    dismissed_overlay_keys: Vec<((String, u8), ())>,
    recent_key_events: Vec<SurfaceKeyEvent>,
    dial_positions: Vec<((String, u8), u8)>,
    dial_presses: Vec<((String, u8), bool)>,
    dock_children: Vec<(String, Vec<String>)>,
    logs: Vec<(String, Vec<SurfaceLogEntry>)>,
    rendered: RenderLedger,
    next_surface_number: u64,
    next_panel_number: u64,
    next_log_sequence: u64,
}

impl SurfaceRegistry {
    /// Each list names a key once; every device and panel is listed under
    /// its own id; the remembered key events and each log stay within their
    /// bounds.
    pub closed spec fn wf(&self) -> bool {
        &&& ids_unique(self.discovered@)
        &&& ids_unique(self.managed@)
        &&& ids_unique(self.panels@)
        &&& ids_unique(self.key_states@)
        &&& ids_unique(self.pressed_controls@)
        &&& ids_unique(self.dismissed_overlay_keys@)
        &&& ids_unique(self.dial_positions@)
        &&& ids_unique(self.dial_presses@)
        &&& ids_unique(self.dock_children@)
        &&& ids_unique(self.logs@)
        &&& forall|k: Seq<char>| #[trigger] keyed(self.managed@).dom().contains(k) ==> keyed(self.managed@)[k].surface_id@ == k
        &&& forall|k: Seq<char>| #[trigger] keyed(self.panels@).dom().contains(k) ==> keyed(self.panels@)[k].panel_id@ == k
        &&& self.recent_key_events@.len() <= RECENT_KEY_EVENTS
        &&& self.rendered.wf()
        &&& forall|k: Seq<char>| #[trigger] keyed(self.logs@).dom().contains(k) ==> keyed(self.logs@)[k]@.len()
            <= SURFACE_LOG_CAPACITY
    }

    /// The managed devices by id.
    pub closed spec fn devices(&self) -> Map<Seq<char>, ManagedNetworkSurface> {
        keyed(self.managed@)
    }

    /// The panels by id.
    pub closed spec fn panel_map(&self) -> Map<Seq<char>, Panel> {
        keyed(self.panels@)
    }

    /// The devices found on the network, by discovery id.
    pub closed spec fn discovered_map(&self) -> Map<Seq<char>, DiscoveredNetworkSurface> {
        keyed(self.discovered@)
    }

    /// Whether each key was last reported pressed, by device and key.
    pub closed spec fn key_state_map(&self) -> Map<(Seq<char>, u8), bool> {
        keyed(self.key_states@)
    }

    /// The control each held key pressed, by device and key.
    pub closed spec fn pressed_control_map(&self) -> Map<(Seq<char>, u8), Control> {
        keyed(self.pressed_controls@)
    }

    /// The keys whose press closed a subpanel, and whose release is so
    /// swallowed.
    pub closed spec fn dismissed_keys(&self) -> Set<(Seq<char>, u8)> {
        keyed(self.dismissed_overlay_keys@).dom()
    }

    /// The last key events, newest first.
    pub closed spec fn recent_events(&self) -> Seq<SurfaceKeyEvent> {
        self.recent_key_events@
    }

    /// How many ring segments each turned dial lights, by device and dial.
    pub closed spec fn dial_position_map(&self) -> Map<(Seq<char>, u8), u8> {
        keyed(self.dial_positions@)
    }

    /// Whether each dial was last reported pressed, by device and dial.
    pub closed spec fn dial_press_map(&self) -> Map<(Seq<char>, u8), bool> {
        keyed(self.dial_presses@)
    }

    /// Each device's log, oldest line first, by device.
    pub closed spec fn log_map(&self) -> Map<Seq<char>, Vec<SurfaceLogEntry>> {
        keyed(self.logs@)
    }

    /// What each key of each device was last told to show.
    pub closed spec fn rendered_view(&self) -> Map<LedgerKey, (u8, Seq<LayerView>, bool)> {
        self.rendered@
    }

    /// The devices plugged into each dock, by the dock's id.
    pub closed spec fn dock_map(&self) -> Map<Seq<char>, Vec<String>> {
        keyed(self.dock_children@)
    }

    /// The number the last device id handed out carries.
    pub closed spec fn surface_counter(&self) -> u64 {
        self.next_surface_number
    }

    /// The number the last panel id handed out carries.
    pub closed spec fn panel_counter(&self) -> u64 {
        self.next_panel_number
    }

    /// The sequence number the next log line gets.
    pub closed spec fn log_counter(&self) -> u64 {
        self.next_log_sequence
    }

    /// The registry a daemon starts with from its configured devices and
    /// panels: repeated endpoints dropped, a default Studio added when no
    /// device is enabled, every device moved to a panel that fits it, and
    /// id numbering continuing after the highest numbers in use.
    pub fn from_configuration(devices: Vec<ManagedNetworkSurface>, panels: Vec<Panel>) -> (registry: Self)
        requires
            devices@.len() < u64::MAX,
        ensures
            registry.wf(),
            exists|listed: Seq<ManagedNetworkSurface>, shown: Seq<Panel>|
                #[trigger] configured(devices@, panels@, listed, shown) && registry.devices() == by_surface(listed)
                    && registry.panel_map() == by_panel(shown) && registry.surface_counter() == highest_number(
                    surface_ids(listed),
                    "stream-deck-studio-"@,
                ) && registry.panel_counter() == highest_number(panel_ids(shown), "studio-panel-"@),
            registry.discovered_map() == Map::<Seq<char>, DiscoveredNetworkSurface>::empty(),
            registry.key_state_map() == Map::<(Seq<char>, u8), bool>::empty(),
            registry.pressed_control_map() == Map::<(Seq<char>, u8), Control>::empty(),
            registry.dismissed_keys() == Set::<(Seq<char>, u8)>::empty(),
            registry.recent_events().len() == 0,
            registry.dial_position_map() == Map::<(Seq<char>, u8), u8>::empty(),
            registry.dial_press_map() == Map::<(Seq<char>, u8), bool>::empty(),
            registry.log_map() == Map::<Seq<char>, Vec<SurfaceLogEntry>>::empty(),
            registry.log_counter() == 0,
            registry.rendered_view() == Map::<LedgerKey, (u8, Seq<LayerView>, bool)>::empty(),
    {
        let ghost given_devices = devices@;
        let ghost given_panels = panels@;
        let default_panel_id = if panels.len() > 0 {
            Some(panels[0].panel_id.clone())
        } else {
            None
        };
        let mut devices = dedupe_endpoints(devices);
        let ghost kept = devices@;
        proof {
            lemma_deduped_len(given_devices);
        }
        if !some_enabled(&devices) {
            let device = default_device(devices.as_slice(), default_panel_id);
            devices.push(device);
        }
        let ghost with_default = devices@;
        let mut panels = panels;
        repair_panel_assignments(&mut devices, &mut panels);
        let ghost listed = devices@;
        let ghost shown = panels@;
        proof {
            if !any_enabled(kept) {
                let added = showing(listed[kept.len() as int], default_panel_id);
                assert(with_default.last() == added);
                assert(with_default =~= kept.push(added));
            }
            assert(configured(given_devices, given_panels, listed, shown));
            lemma_by_surface_keys(listed);
            lemma_by_panel_keys(shown);
        }
        let next_surface_number = highest_surface_number(&devices);
        let next_panel_number = highest_panel_number(&panels);
        let managed = devices_by_id(devices);
        let panels = panels_by_id(panels);
        let registry = SurfaceRegistry {
            discovered: Vec::new(),
            managed,
            panels,
            key_states: Vec::new(),
            pressed_controls: Vec::new(),
            dismissed_overlay_keys: Vec::new(),
            recent_key_events: Vec::new(),
            dial_positions: Vec::new(),
            dial_presses: Vec::new(),
            dock_children: Vec::new(),
            logs: Vec::new(),
            rendered: RenderLedger::new(),
            next_surface_number,
            next_panel_number,
            next_log_sequence: 0,
        };
        proof {
            assert(keyed(registry.discovered@) =~= Map::<Seq<char>, DiscoveredNetworkSurface>::empty());
            assert(keyed(registry.key_states@) =~= Map::<(Seq<char>, u8), bool>::empty());
            assert(keyed(registry.pressed_controls@) =~= Map::<(Seq<char>, u8), Control>::empty());
            assert(keyed(registry.dismissed_overlay_keys@).dom() =~= Set::<(Seq<char>, u8)>::empty());
            assert(keyed(registry.dial_positions@) =~= Map::<(Seq<char>, u8), u8>::empty());
            assert(keyed(registry.dial_presses@) =~= Map::<(Seq<char>, u8), bool>::empty());
            assert(keyed(registry.logs@) =~= Map::<Seq<char>, Vec<SurfaceLogEntry>>::empty());
        }
        registry
    }
}

/// The first control placed at (`column`, `row`).
pub open spec fn control_placed_at(controls: Seq<Control>, column: int, row: int) -> Option<int>
    decreases controls.len(),
{
    if controls.len() == 0 {
        None
    } else {
        match control_placed_at(controls.drop_last(), column, row) {
            Some(i) => Some(i),
            None => if controls.last().position.column == column && controls.last().position.row == row {
                Some(controls.len() - 1)
            } else {
                None
            },
        }
    }
}

/// The first control that is key `key` on a grid `columns` wide.
pub open spec fn control_with_key(controls: Seq<Control>, columns: u16, key: u8) -> Option<int>
    decreases controls.len(),
{
    if controls.len() == 0 {
        None
    } else {
        match control_with_key(controls.drop_last(), columns, key) {
            Some(i) => Some(i),
            None => if key_index_spec(controls.last().position, columns) == Some(key) {
                Some(controls.len() - 1)
            } else {
                None
            },
        }
    }
}

/// Whether a device has a subpanel open.
pub open spec fn subpanel_open(devices: Map<Seq<char>, ManagedNetworkSurface>, surface: Seq<char>) -> bool {
    devices.dom().contains(surface) && devices[surface].open_subpanels@.len() > 0
}

/// What a key reaches in the topmost subpanel of a device: the control, from
/// the subpanel's panel, and the cell of the device's grid the key is.
pub open spec fn top_target(
    devices: Map<Seq<char>, ManagedNetworkSurface>,
    panels: Map<Seq<char>, Panel>,
    surface: Seq<char>,
    key: u8,
) -> Option<(Control, SurfacePosition)> {
    if !subpanel_open(devices, surface) {
        None
    } else {
        let device = devices[surface];
        let layer = device.open_subpanels@.last();
        if !panels.dom().contains(layer.panel_id@) {
            None
        } else {
            let panel = panels[layer.panel_id@];
            match device.layout {
                SurfaceLayout::Grid { columns, rows } => if columns == 0 {
                    None
                } else {
                    let column = key as int % columns as int;
                    let row = key as int / columns as int;
                    let panel_column = column - layer.column;
                    let panel_row = row - layer.row;
                    if row >= rows || panel_column < 0 || panel_row < 0 {
                        None
                    } else {
                        match control_placed_at(panel.controls@, (panel_column as u16) as int, (panel_row as u16) as int) {
                            Some(i) => Some(
                                (panel.controls@[i], SurfacePosition { column: column as u16, row: row as u16 }),
                            ),
                            None => None,
                        }
                    }
                },
                SurfaceLayout::Freeform => None,
            }
        }
    }
}

/// What a key reaches on a device: in the topmost subpanel when one is open,
/// else on the active panel; the control, and where it is on the device.
pub open spec fn key_target(
    devices: Map<Seq<char>, ManagedNetworkSurface>,
    panels: Map<Seq<char>, Panel>,
    surface: Seq<char>,
    key: u8,
) -> Option<(Control, SurfacePosition)> {
    if subpanel_open(devices, surface) {
        top_target(devices, panels, surface, key)
    } else if !devices.dom().contains(surface) {
        None
    } else {
        match devices[surface].active_panel_id {
            Some(id) => if !panels.dom().contains(id@) {
                None
            } else {
                let panel = panels[id@];
                match control_with_key(panel.controls@, panel.layout.columns, key) {
                    Some(i) => Some((panel.controls@[i], panel.controls@[i].position)),
                    None => None,
                }
            },
            None => None,
        }
    }
}

/// The first control placed at a cell is placed there, and there is none
/// exactly when no control is.
proof fn lemma_control_placed_at(controls: Seq<Control>, column: int, row: int)
    ensures
        control_placed_at(controls, column, row) matches Some(i) ==> 0 <= i < controls.len()
            && controls[i].position.column == column && controls[i].position.row == row,
        control_placed_at(controls, column, row) is None <==> forall|j: int|
            0 <= j < controls.len() ==> !((#[trigger] controls[j]).position.column == column
                && controls[j].position.row == row),
    decreases controls.len(),
{
    if controls.len() > 0 {
        let prefix = controls.drop_last();
        lemma_control_placed_at(prefix, column, row);
        assert forall|j: int| 0 <= j < prefix.len() implies #[trigger] prefix[j] == controls[j] by {}
        match control_placed_at(prefix, column, row) {
            Some(i) => {
                assert(prefix[i] == controls[i]);
            },
            None => {
                if !(controls.last().position.column == column && controls.last().position.row == row) {
                    assert forall|j: int| 0 <= j < controls.len() implies !((#[trigger] controls[j]).position.column
                        == column && controls[j].position.row == row) by {
                        if j < prefix.len() {
                            assert(prefix[j] == controls[j]);
                        }
                    }
                }
            },
        }
    }
}

/// While a subpanel is open on a device, a key reaches only the topmost
/// subpanel: what it reaches is a control of that subpanel's panel, at the
/// key's own cell of the device's grid, placed where the key falls inside the
/// subpanel; and when that panel has a control where the key falls, the key
/// reaches one. The active panel underneath is never reached.
pub proof fn lemma_topmost_subpanel_takes_the_key(
    devices: Map<Seq<char>, ManagedNetworkSurface>,
    panels: Map<Seq<char>, Panel>,
    surface: Seq<char>,
    key: u8,
)
    requires
        devices.dom().contains(surface),
        devices[surface].open_subpanels@.len() > 0,
    ensures
        ({
            let device = devices[surface];
            let layer = device.open_subpanels@.last();
            &&& key_target(devices, panels, surface, key) matches Some((control, at)) ==> {
                &&& panels.dom().contains(layer.panel_id@)
                &&& panels[layer.panel_id@].controls@.contains(control)
                &&& device.layout matches SurfaceLayout::Grid { columns, rows } && columns > 0 && at.column == key as int
                    % columns as int && at.row == key as int / columns as int && at.row < rows
                &&& at.column >= layer.column && at.row >= layer.row
                &&& (at.column - layer.column <= u16::MAX ==> control.position.column + layer.column == at.column)
                &&& (at.row - layer.row <= u16::MAX ==> control.position.row + layer.row == at.row)
            }
            &&& (device.layout matches SurfaceLayout::Grid { columns, rows } && columns > 0 && (key as int / columns as int) < rows
                && panels.dom().contains(layer.panel_id@) && exists|i: int|
                0 <= i < panels[layer.panel_id@].controls@.len() && (#[trigger] panels[layer.panel_id@].controls@[i]).position.column
                    + layer.column == key as int % columns as int && panels[layer.panel_id@].controls@[i].position.row + layer.row
                    == key as int / columns as int) ==> key_target(devices, panels, surface, key) is Some
        }),
{
    let device = devices[surface];
    let layer = device.open_subpanels@.last();
    if panels.dom().contains(layer.panel_id@) {
        let controls = panels[layer.panel_id@].controls@;
        match device.layout {
            SurfaceLayout::Grid { columns, rows } => {
                if columns > 0 {
                    let column = key as int % columns as int;
                    let row = key as int / columns as int;
                    let panel_column = column - layer.column;
                    let panel_row = row - layer.row;
                    lemma_control_placed_at(controls, (panel_column as u16) as int, (panel_row as u16) as int);
                    if panel_column >= 0 && panel_row >= 0 {
                        if panel_column <= u16::MAX {
                            assert((panel_column as u16) as int == panel_column);
                        }
                        if panel_row <= u16::MAX {
                            assert((panel_row as u16) as int == panel_row);
                        }
                    }
                    match control_placed_at(controls, (panel_column as u16) as int, (panel_row as u16) as int) {
                        Some(i) => {
                            assert(controls.contains(controls[i]));
                        },
                        None => {
                            if row < rows && exists|i: int|
                                0 <= i < controls.len() && (#[trigger] controls[i]).position.column + layer.column
                                    == column && controls[i].position.row + layer.row == row {
                                let i = choose|i: int|
                                    0 <= i < controls.len() && (#[trigger] controls[i]).position.column + layer.column
                                        == column && controls[i].position.row + layer.row == row;
                                assert((panel_column as u16) as int == panel_column);
                                assert((panel_row as u16) as int == panel_row);
                                assert(false);
                            }
                        },
                    }
                }
            },
            SurfaceLayout::Freeform => {},
        }
    }
}

/// The first control that is a key is that key, and there is none exactly
/// when no control is.
proof fn lemma_control_with_key(controls: Seq<Control>, columns: u16, key: u8)
    ensures
        control_with_key(controls, columns, key) matches Some(i) ==> 0 <= i < controls.len()
            && controls[i].position.row * columns + controls[i].position.column == key,
        control_with_key(controls, columns, key) is None <==> forall|j: int|
            0 <= j < controls.len() ==> (#[trigger] controls[j]).position.row * columns + controls[j].position.column
                != key,
    decreases controls.len(),
{
    if controls.len() > 0 {
        let prefix = controls.drop_last();
        lemma_control_with_key(prefix, columns, key);
        assert forall|j: int| 0 <= j < prefix.len() implies #[trigger] prefix[j] == controls[j] by {}
        match control_with_key(prefix, columns, key) {
            Some(i) => {
                assert(prefix[i] == controls[i]);
            },
            None => {
                if key_index_spec(controls.last().position, columns) != Some(key) {
                    assert forall|j: int| 0 <= j < controls.len() implies (#[trigger] controls[j]).position.row
                        * columns + controls[j].position.column != key by {
                        if j < prefix.len() {
                            assert(prefix[j] == controls[j]);
                        }
                    }
                }
            },
        }
    }
}

/// With no subpanel open, a key reaches the active panel: a control of that
/// panel, at its own place, whose key (row times the panel's width plus
/// column) is the key pressed; and when the panel has a control on that key,
/// the key reaches one. A device that is not managed, shows no panel, or
/// shows one the registry does not hold reaches nothing.
pub proof fn lemma_active_panel_takes_the_key(
    devices: Map<Seq<char>, ManagedNetworkSurface>,
    panels: Map<Seq<char>, Panel>,
    surface: Seq<char>,
    key: u8,
)
    requires
        !devices.dom().contains(surface) || devices[surface].open_subpanels@.len() == 0,
    ensures
        !devices.dom().contains(surface) ==> key_target(devices, panels, surface, key) is None,
        devices.dom().contains(surface) ==> match devices[surface].active_panel_id {
            None => key_target(devices, panels, surface, key) is None,
            Some(id) => if !panels.dom().contains(id@) {
                key_target(devices, panels, surface, key) is None
            } else {
                let panel = panels[id@];
                &&& key_target(devices, panels, surface, key) matches Some((control, at)) ==> {
                    &&& panel.controls@.contains(control)
                    &&& at == control.position
                    &&& control.position.row * panel.layout.columns + control.position.column == key
                }
                &&& (exists|i: int|
                    0 <= i < panel.controls@.len() && (#[trigger] panel.controls@[i]).position.row
                        * panel.layout.columns + panel.controls@[i].position.column == key) ==> key_target(
                    devices,
                    panels,
                    surface,
                    key,
                ) is Some
            },
        },
{
    if devices.dom().contains(surface) {
        match devices[surface].active_panel_id {
            Some(id) => {
                if panels.dom().contains(id@) {
                    let panel = panels[id@];
                    lemma_control_with_key(panel.controls@, panel.layout.columns, key);
                    match control_with_key(panel.controls@, panel.layout.columns, key) {
                        Some(i) => {
                            assert(panel.controls@.contains(panel.controls@[i]));
                        },
                        None => {},
                    }
                }
            },
            None => {},
        }
    }
}

/// Whether `found` is a copy of what a key reaches.
pub open spec fn reached(found: Option<Control>, target: Option<(Control, SurfacePosition)>) -> bool {
    match (found, target) {
        (None, None) => true,
        (Some(control), Some((source, position))) => same_control(Control { position, ..source }, control),
        _ => false,
    }
}

/// The first control placed at (`column`, `row`).
fn find_control_at(controls: &Vec<Control>, column: u16, row: u16) -> (found: Option<usize>)
    ensures
        match found {
            Some(i) => i < controls@.len() && control_placed_at(controls@, column as int, row as int) == Some(i as int),
            None => control_placed_at(controls@, column as int, row as int) is None,
        },
{
    let mut i: usize = 0;
    while i < controls.len()
        invariant
            i <= controls@.len(),
            control_placed_at(controls@.take(i as int), column as int, row as int) is None,
        decreases controls.len() - i,
    {
        assert(controls@.take(i + 1).drop_last() =~= controls@.take(i as int));
        if controls[i].position.column == column && controls[i].position.row == row {
            proof {
                lemma_placed_prefix(controls@, i + 1, column as int, row as int);
            }
            return Some(i);
        }
        i += 1;
    }
    assert(controls@.take(i as int) =~= controls@);
    None
}

proof fn lemma_placed_prefix(controls: Seq<Control>, n: int, column: int, row: int)
    requires
        0 <= n <= controls.len(),
        control_placed_at(controls.take(n), column, row) is Some,
    ensures
        control_placed_at(controls, column, row) == control_placed_at(controls.take(n), column, row),
    decreases controls.len() - n,
{
    if n < controls.len() {
        assert(controls.take(n + 1).drop_last() =~= controls.take(n));
        lemma_placed_prefix(controls, n + 1, column, row);
    } else {
        assert(controls.take(n) =~= controls);
    }
}

proof fn lemma_keyed_control_prefix(controls: Seq<Control>, n: int, columns: u16, key: u8)
    requires
        0 <= n <= controls.len(),
        control_with_key(controls.take(n), columns, key) is Some,
    ensures
        control_with_key(controls, columns, key) == control_with_key(controls.take(n), columns, key),
    decreases controls.len() - n,
{
    if n < controls.len() {
        assert(controls.take(n + 1).drop_last() =~= controls.take(n));
        lemma_keyed_control_prefix(controls, n + 1, columns, key);
    } else {
        assert(controls.take(n) =~= controls);
    }
}

/// The first control that is key `key` on a grid `columns` wide.
fn find_control_with_key(controls: &Vec<Control>, columns: u16, key: u8) -> (found: Option<usize>)
    ensures
        match found {
            Some(i) => i < controls@.len() && control_with_key(controls@, columns, key) == Some(i as int),
            None => control_with_key(controls@, columns, key) is None,
        },
{
    let mut i: usize = 0;
    while i < controls.len()
        invariant
            i <= controls@.len(),
            control_with_key(controls@.take(i as int), columns, key) is None,
        decreases controls.len() - i,
    {
        assert(controls@.take(i + 1).drop_last() =~= controls@.take(i as int));
        match key_index_for(&controls[i], columns) {
            Some(k) => if k == key {
                proof {
                    lemma_keyed_control_prefix(controls@, i + 1, columns, key);
                }
                return Some(i);
            },
            None => {},
        }
        i += 1;
    }
    assert(controls@.take(i as int) =~= controls@);
    None
}

/// The log of a device after `entry`: the entry last, the oldest line
/// dropped once the log is full.
pub open spec fn appended(entries: Seq<SurfaceLogEntry>, entry: SurfaceLogEntry) -> Seq<SurfaceLogEntry> {
    if entries.len() >= SURFACE_LOG_CAPACITY {
        entries.drop_first().push(entry)
    } else {
        entries.push(entry)
    }
}

/// The log lines a device has, oldest first; none before its first.
pub open spec fn log_of(logs: Map<Seq<char>, Vec<SurfaceLogEntry>>, surface: Seq<char>) -> Seq<SurfaceLogEntry> {
    if logs.dom().contains(surface) {
        logs[surface]@
    } else {
        Seq::empty()
    }
}

/// The last key events after `event`: it first, then the ones before it, as
/// many as are remembered.
pub open spec fn remembered(events: Seq<SurfaceKeyEvent>, event: SurfaceKeyEvent) -> Seq<SurfaceKeyEvent> {
    let all = seq![event] + events;
    if all.len() > RECENT_KEY_EVENTS {
        all.take(RECENT_KEY_EVENTS as int)
    } else {
        all
    }
}

/// What a reported key state came to.
#[derive(Debug)]
pub enum KeyOutcome {
    /// The key was already reported in that state: nothing happened.
    Unchanged,
    /// A press outside the topmost subpanel closed it; the release that
    /// follows is swallowed. The device's panel is to be repainted.
    ClosedSubpanel,
    /// The release of a press that closed a subpanel.
    Swallowed,
    /// The press or release went through: it is to be announced, the key
    /// repainted, and the event handed to the action engine.
    Dispatched(InputEvent),
}

impl SurfaceRegistry {
    /// The device with id `surface_id`.
    pub fn managed(&self, surface_id: &SurfaceId) -> (found: Option<&ManagedNetworkSurface>)
        requires
            self.wf(),
        ensures
            match found {
                Some(device) => self.devices().dom().contains(surface_id@) && *device == self.devices()[surface_id@],
                None => !self.devices().dom().contains(surface_id@),
            },
    {
        let found = position_of(&self.managed, surface_id.0.as_str());
        proof {
            lemma_found(self.managed@, surface_id@, found);
        }
        match found {
            Some(i) => Some(&self.managed[i].1),
            None => None,
        }
    }

    /// The panel with id `panel_id`.
    pub fn panel(&self, panel_id: &str) -> (found: Option<&Panel>)
        requires
            self.wf(),
        ensures
            match found {
                Some(panel) => self.panel_map().dom().contains(panel_id@) && *panel == self.panel_map()[panel_id@],
                None => !self.panel_map().dom().contains(panel_id@),
            },
    {
        let found = position_of(&self.panels, panel_id);
        proof {
            lemma_found(self.panels@, panel_id@, found);
        }
        match found {
            Some(i) => Some(&self.panels[i].1),
            None => None,
        }
    }

    /// Whether a device has a subpanel open.
    pub fn has_open_subpanel(&self, surface_id: &SurfaceId) -> (open: bool)
        requires
            self.wf(),
        ensures
            open == subpanel_open(self.devices(), surface_id@),
    {
        match self.managed(surface_id) {
            Some(device) => device.open_subpanels.len() > 0,
            None => false,
        }
    }

    /// The control a key reaches in the topmost subpanel of a device, moved
    /// to where the key is.
    pub fn top_subpanel_control_at(&self, surface_id: &SurfaceId, key_index: u8) -> (found: Option<Control>)
        requires
            self.wf(),
        ensures
            reached(found, top_target(self.devices(), self.panel_map(), surface_id@, key_index)),
    {
        let device = match self.managed(surface_id) {
            Some(device) => device,
            None => return None,
        };
        if device.open_subpanels.len() == 0 {
            return None;
        }
        let layer = &device.open_subpanels[device.open_subpanels.len() - 1];
        let panel = match self.panel(layer.panel_id.0.as_str()) {
            Some(panel) => panel,
            None => return None,
        };
        let (columns, rows) = match device.layout {
            SurfaceLayout::Grid { columns, rows } => (columns, rows),
            SurfaceLayout::Freeform => return None,
        };
        if columns == 0 {
            return None;
        }
        let column: u16 = key_index as u16 % columns;
        let row: u16 = key_index as u16 / columns;
        if row >= rows {
            return None;
        }
        let panel_column: i32 = column as i32 - layer.column as i32;
        let panel_row: i32 = row as i32 - layer.row as i32;
        if panel_column < 0 || panel_row < 0 {
            return None;
        }
        match find_control_at(&panel.controls, #[verifier::truncate] (panel_column as u16), #[verifier::truncate] (panel_row as u16)) {
            Some(i) => Some(control_copy_at(&panel.controls[i], SurfacePosition { column, row })),
            None => None,
        }
    }

    /// The control a key reaches on a device: in the topmost subpanel when one
    /// is open, else on the active panel.
    pub fn control_at(&self, surface_id: &SurfaceId, key_index: u8) -> (found: Option<Control>)
        requires
            self.wf(),
        ensures
            reached(found, key_target(self.devices(), self.panel_map(), surface_id@, key_index)),
    {
        if self.has_open_subpanel(surface_id) {
            return self.top_subpanel_control_at(surface_id, key_index);
        }
        let device = match self.managed(surface_id) {
            Some(device) => device,
            None => return None,
        };
        let panel_id = match &device.active_panel_id {
            Some(id) => id,
            None => return None,
        };
        let panel = match self.panel(panel_id.0.as_str()) {
            Some(panel) => panel,
            None => return None,
        };
        match find_control_with_key(&panel.controls, panel.layout.columns, key_index) {
            Some(i) => {
                let position = panel.controls[i].position;
                Some(control_copy_at(&panel.controls[i], position))
            },
            None => None,
        }
    }

    /// Appends a line to a device's log, dropping its oldest line once the
    /// log is full, and hands the line back to be streamed.
    pub fn log(&mut self, surface_id: &SurfaceId, level: SurfaceLogLevel, message: String, at_ms: u64) -> (entry:
        SurfaceLogEntry)
        requires
            old(self).wf(),
        ensures
            final(self).wf(),
            final(self).rendered_view() == old(self).rendered_view(),
            entry.surface_id@ == surface_id@,
            entry.sequence == old(self).log_counter(),
            entry.at_ms == at_ms,
            entry.level == level,
            entry.message@ == message@,
            final(self).log_counter() == (if old(self).log_counter() == u64::MAX {
                0
            } else {
                (old(self).log_counter() + 1) as u64
            }),
            final(self).log_map().dom().contains(surface_id@),
            final(self).log_map()[surface_id@]@ == appended(log_of(old(self).log_map(), surface_id@), entry),
            final(self).log_map().remove(surface_id@) == old(self).log_map().remove(surface_id@),
            final(self).devices() == old(self).devices(),
            final(self).panel_map() == old(self).panel_map(),
            final(self).discovered_map() == old(self).discovered_map(),
            final(self).key_state_map() == old(self).key_state_map(),
            final(self).pressed_control_map() == old(self).pressed_control_map(),
            final(self).dismissed_keys() == old(self).dismissed_keys(),
            final(self).recent_events() == old(self).recent_events(),
            final(self).dial_position_map() == old(self).dial_position_map(),
            final(self).dial_press_map() == old(self).dial_press_map(),
            final(self).surface_counter() == old(self).surface_counter(),
            final(self).panel_counter() == old(self).panel_counter(),
            final(self).dock_map() == old(self).dock_map(),
    {
        let entry = SurfaceLogEntry {
            surface_id: surface_id.clone(),
            sequence: self.next_log_sequence,
            at_ms,
            level,
            message,
        };
        self.next_log_sequence = if self.next_log_sequence == u64::MAX {
            0
        } else {
            self.next_log_sequence + 1
        };
        let found = position_of(&self.logs, surface_id.0.as_str());
        proof {
            lemma_found(self.logs@, surface_id@, found);
        }
        let ghost before = keyed(self.logs@);
        let mut entries: Vec<SurfaceLogEntry> = match found {
            Some(i) => {
                let (_, entries) = remove_at(&mut self.logs, i);
                entries
            },
            None => Vec::new(),
        };
        proof {
            assert(entries@ == log_of(before, surface_id@));
        }
        if entries.len() >= SURFACE_LOG_CAPACITY {
            entries.remove(0);
        }
        entries.push(entry.clone());
        let ghost stored = entries@;
        put_at(&mut self.logs, None, surface_id.0.clone(), entries);
        proof {
            assert(stored =~= appended(log_of(before, surface_id@), entry));
            assert(keyed(self.logs@).remove(surface_id@) =~= before.remove(surface_id@));
        }
        entry
    }
}

/// The devices after the topmost subpanel of `surface` is closed.
pub open spec fn with_subpanel_closed(
    before: Map<Seq<char>, ManagedNetworkSurface>,
    after: Map<Seq<char>, ManagedNetworkSurface>,
    surface: Seq<char>,
) -> bool {
    &&& after.remove(surface) == before.remove(surface)
    &&& after.dom().contains(surface)
    &&& after[surface] == (ManagedNetworkSurface { open_subpanels: after[surface].open_subpanels, ..before[surface] })
    &&& after[surface].open_subpanels@ == before[surface].open_subpanels@.drop_last()
}

/// The log message for a key going down or coming up.
pub open spec fn key_message(key: u8, is_pressed: bool) -> Seq<char> {
    "key "@ + decimal(key as nat) + if is_pressed {
        " pressed"@
    } else {
        " released"@
    }
}

/// What recording one key state does, as `record_key_state` states it: the
/// state is stored; a repeat is `Unchanged` and touches nothing else; a press
/// outside the topmost subpanel closes it; the release after that is
/// swallowed; anything else is dispatched as a key event with the control it
/// reaches, remembered, and logged.
pub open spec fn key_state_recorded(
    before: SurfaceRegistry,
    surface_id: Seq<char>,
    key_index: u8,
    is_pressed: bool,
    at_ms: u64,
    after: SurfaceRegistry,
    outcome: KeyOutcome,
) -> bool {
    &&& (after.rendered_view() == before.rendered_view())
    &&& (after.key_state_map() == before.key_state_map().insert((surface_id, key_index), is_pressed))
    &&& (after.panel_map() == before.panel_map())
    &&& (after.discovered_map() == before.discovered_map())
    &&& (after.surface_counter() == before.surface_counter())
    &&& (after.panel_counter() == before.panel_counter())
    &&& (after.dial_position_map() == before.dial_position_map())
    &&& (after.dial_press_map() == before.dial_press_map())
    &&& (after.dock_map() == before.dock_map())
    &&& ((outcome is Unchanged) == (before.key_state_map().dom().contains((surface_id, key_index))
        && before.key_state_map()[(surface_id, key_index)] == is_pressed))
    &&& (outcome is Unchanged ==> after.keeps_activity(&before) && after.devices()
        == before.devices())
    &&& ((outcome is ClosedSubpanel) == (!(outcome is Unchanged) && is_pressed && subpanel_open(
        before.devices(),
        surface_id,
    ) && top_target(before.devices(), before.panel_map(), surface_id, key_index) is None))
    &&& (outcome is ClosedSubpanel ==> with_subpanel_closed(before.devices(), after.devices(), surface_id)
        && after.dismissed_keys() == before.dismissed_keys().insert((surface_id, key_index))
        && after.pressed_control_map() == before.pressed_control_map()
        && after.recent_events() == before.recent_events()
        && after.log_map() == before.log_map())
    &&& ((outcome is Swallowed) == (!(outcome is Unchanged) && !is_pressed && before.dismissed_keys().contains(
        (surface_id, key_index),
    )))
    &&& (outcome is Swallowed ==> after.devices() == before.devices() && after.dismissed_keys()
        == before.dismissed_keys().remove((surface_id, key_index)) && after.pressed_control_map()
        == before.pressed_control_map() && after.recent_events() == before.recent_events()
        && after.log_map() == before.log_map())
    &&& (outcome is Dispatched <==> !(outcome is Unchanged || outcome is ClosedSubpanel || outcome is Swallowed))
    &&& (outcome matches KeyOutcome::Dispatched(InputEvent::Key { surface_id: id, key_index: k, is_pressed: p, control })
        ==> {
        &&& id@ == surface_id && k == key_index && p == is_pressed
        &&& after.devices() == before.devices()
        &&& after.dismissed_keys() == before.dismissed_keys()
        &&& is_pressed ==> reached(control, key_target(before.devices(), before.panel_map(), surface_id, key_index))
        &&& is_pressed ==> after.pressed_control_map().remove((surface_id, key_index))
            =~= before.pressed_control_map().remove((surface_id, key_index))
        &&& is_pressed ==> (control matches Some(c) ==> after.pressed_control_map().dom().contains(
            (surface_id, key_index),
        ) && same_control(c, after.pressed_control_map()[(surface_id, key_index)]))
        &&& is_pressed ==> (control is None ==> after.pressed_control_map() == before.pressed_control_map())
        &&& !is_pressed ==> control == (if before.pressed_control_map().dom().contains((surface_id, key_index)) {
            Some(before.pressed_control_map()[(surface_id, key_index)])
        } else {
            None
        })
        &&& !is_pressed ==> after.pressed_control_map() =~= before.pressed_control_map().remove(
            (surface_id, key_index),
        )
        &&& after.recent_events().len() > 0
        &&& after.recent_events()[0].surface_id@ == surface_id
        &&& after.recent_events()[0].key_index == key_index
        &&& after.recent_events()[0].is_pressed == is_pressed
        &&& after.recent_events().drop_first() =~= (if before.recent_events().len() < RECENT_KEY_EVENTS {
            before.recent_events()
        } else {
            before.recent_events().take(RECENT_KEY_EVENTS - 1)
        })
        &&& after.log_map().remove(surface_id) =~= before.log_map().remove(surface_id)
        &&& after.log_map().dom().contains(surface_id)
        &&& after.log_map()[surface_id]@.len() > 0
        &&& after.log_map()[surface_id]@.drop_last() =~= appended(
            log_of(before.log_map(), surface_id),
            after.log_map()[surface_id]@.last(),
        ).drop_last()
        &&& after.log_map()[surface_id]@.last().message@ == key_message(key_index, is_pressed)
        &&& after.log_map()[surface_id]@.last().level == SurfaceLogLevel::Input
        &&& after.log_map()[surface_id]@.last().at_ms == at_ms
    })
}

/// A key reported again in the state it was last reported in changes
/// nothing: the answer is `Unchanged`, and the devices, panels, key states,
/// dial rings, docks, renderings and all activity stay as they were.
pub proof fn lemma_repeated_key_state_changes_nothing(
    before: SurfaceRegistry,
    surface_id: Seq<char>,
    key_index: u8,
    is_pressed: bool,
    at_ms: u64,
    after: SurfaceRegistry,
    outcome: KeyOutcome,
)
    requires
        key_state_recorded(before, surface_id, key_index, is_pressed, at_ms, after, outcome),
        before.key_state_map().dom().contains((surface_id, key_index)),
        before.key_state_map()[(surface_id, key_index)] == is_pressed,
    ensures
        outcome is Unchanged,
        after.keeps_activity(&before),
        after.devices() == before.devices(),
        after.key_state_map() == before.key_state_map(),
        after.panel_map() == before.panel_map(),
        after.discovered_map() == before.discovered_map(),
        after.rendered_view() == before.rendered_view(),
        after.dial_position_map() == before.dial_position_map(),
        after.dial_press_map() == before.dial_press_map(),
        after.dock_map() == before.dock_map(),
        after.surface_counter() == before.surface_counter(),
        after.panel_counter() == before.panel_counter(),
{
    assert(before.key_state_map().insert((surface_id, key_index), is_pressed) =~= before.key_state_map());
}

impl SurfaceRegistry {
    /// Whether the state after a change keeps what is happening on the
    /// devices: keys, dials, key events and logs.
    pub open spec fn keeps_activity(&self, before: &SurfaceRegistry) -> bool {
        &&& self.key_state_map() == before.key_state_map()
        &&& self.pressed_control_map() == before.pressed_control_map()
        &&& self.dismissed_keys() == before.dismissed_keys()
        &&& self.recent_events() == before.recent_events()
        &&& self.dial_position_map() == before.dial_position_map()
        &&& self.dial_press_map() == before.dial_press_map()
        &&& self.log_map() == before.log_map()
        &&& self.log_counter() == before.log_counter()
        &&& self.rendered_view() == before.rendered_view()
    }

    /// Whether the state after a change keeps what is configured: devices,
    /// panels, discoveries and id numbering.
    pub open spec fn keeps_configuration(&self, before: &SurfaceRegistry) -> bool {
        &&& self.devices() == before.devices()
        &&& self.panel_map() == before.panel_map()
        &&& self.discovered_map() == before.discovered_map()
        &&& self.surface_counter() == before.surface_counter()
        &&& self.panel_counter() == before.panel_counter()
        &&& self.dock_map() == before.dock_map()
    }

    /// Takes the device at `i` out to be changed.
    fn take_device(&mut self, i: usize) -> (taken: (String, ManagedNetworkSurface))
        requires
            old(self).wf(),
            i < old(self).managed@.len(),
        ensures
            taken == old(self).managed@[i as int],
            ids_unique(final(self).managed@),
            found_at(final(self).managed@, taken.0@, None),
            keyed(final(self).managed@) == keyed(old(self).managed@).remove(taken.0@),
            keyed(old(self).managed@)[taken.0@] == taken.1,
            keyed(old(self).managed@).dom().contains(taken.0@),
            taken.1.surface_id@ == taken.0@,
            final(self).panels == old(self).panels,
            final(self).discovered == old(self).discovered,
            final(self).key_states == old(self).key_states,
            final(self).pressed_controls == old(self).pressed_controls,
            final(self).dismissed_overlay_keys == old(self).dismissed_overlay_keys,
            final(self).recent_key_events == old(self).recent_key_events,
            final(self).dial_positions == old(self).dial_positions,
            final(self).dial_presses == old(self).dial_presses,
            final(self).dock_children == old(self).dock_children,
            final(self).logs == old(self).logs,
            final(self).rendered == old(self).rendered,
            final(self).next_surface_number == old(self).next_surface_number,
            final(self).next_panel_number == old(self).next_panel_number,
            final(self).next_log_sequence == old(self).next_log_sequence,
    {
        proof {
            lemma_keyed_at(self.managed@, i as int);
        }
        remove_at(&mut self.managed, i)
    }

    /// Puts a changed device back under its id.
    fn restore_device(&mut self, key: String, device: ManagedNetworkSurface)
        requires
            ids_unique(old(self).managed@),
            found_at(old(self).managed@, key@, None),
            device.surface_id@ == key@,
            forall|k: Seq<char>| #[trigger] keyed(old(self).managed@).dom().contains(k) ==> keyed(old(self).managed@)[k].surface_id@ == k,
        ensures
            ids_unique(final(self).managed@),
            keyed(final(self).managed@) == keyed(old(self).managed@).insert(key@, device),
            forall|k: Seq<char>| #[trigger] keyed(final(self).managed@).dom().contains(k) ==> keyed(final(self).managed@)[k].surface_id@ == k,
            final(self).panels == old(self).panels,
            final(self).discovered == old(self).discovered,
            final(self).key_states == old(self).key_states,
            final(self).pressed_controls == old(self).pressed_controls,
            final(self).dismissed_overlay_keys == old(self).dismissed_overlay_keys,
            final(self).recent_key_events == old(self).recent_key_events,
            final(self).dial_positions == old(self).dial_positions,
            final(self).dial_presses == old(self).dial_presses,
            final(self).dock_children == old(self).dock_children,
            final(self).logs == old(self).logs,
            final(self).rendered == old(self).rendered,
            final(self).next_surface_number == old(self).next_surface_number,
            final(self).next_panel_number == old(self).next_panel_number,
            final(self).next_log_sequence == old(self).next_log_sequence,
    {
        put_at(&mut self.managed, None, key, device);
    }

    /// Closes the topmost subpanel of a device, if one is open. Answers
    /// whether one was; the device's panel is then to be repainted.
    pub fn close_subpanel(&mut self, surface_id: &SurfaceId) -> (closed: bool)
        requires
            old(self).wf(),
        ensures
            final(self).wf(),
            final(self).rendered_view() == old(self).rendered_view(),
            closed == subpanel_open(old(self).devices(), surface_id@),
            closed ==> with_subpanel_closed(old(self).devices(), final(self).devices(), surface_id@),
            !closed ==> final(self).devices() == old(self).devices(),
            final(self).panel_map() == old(self).panel_map(),
            final(self).discovered_map() == old(self).discovered_map(),
            final(self).surface_counter() == old(self).surface_counter(),
            final(self).panel_counter() == old(self).panel_counter(),
            final(self).keeps_activity(old(self)),
            final(self).dock_map() == old(self).dock_map(),
    {
        let found = position_of(&self.managed, surface_id.0.as_str());
        proof {
            lemma_found(self.managed@, surface_id@, found);
        }
        let i = match found {
            Some(i) => i,
            None => return false,
        };
        if self.managed[i].1.open_subpanels.len() == 0 {
            return false;
        }
        let ghost before = keyed(self.managed@);
        let (key, mut device) = self.take_device(i);
        device.open_subpanels.pop();
        self.restore_device(key, device);
        proof {
            assert(keyed(self.managed@).remove(surface_id@) =~= before.remove(surface_id@));
        }
        true
    }

    /// Records a key going down or coming up, and says what came of it. A
    /// report that repeats the key's state changes nothing. A press outside
    /// the topmost subpanel closes it, and the release that follows is
    /// swallowed. Otherwise the press or release is remembered, logged, and
    /// handed on with the control it reaches: on a press, the control under
    /// the key, which is kept until the release; on a release, the control
    /// the press reached.
    pub fn record_key_state(&mut self, surface_id: &SurfaceId, key_index: u8, is_pressed: bool, at_ms: u64) -> (outcome:
        KeyOutcome)
        requires
            old(self).wf(),
        ensures
            final(self).wf(),
            key_state_recorded(*old(self), surface_id@, key_index, is_pressed, at_ms, *final(self), outcome),
    {
        let slot = slot_position(&self.key_states, surface_id.0.as_str(), key_index);
        proof {
            lemma_found(self.key_states@, (surface_id@, key_index), slot);
        }
        let unchanged = match slot {
            Some(i) => self.key_states[i].1 == is_pressed,
            None => false,
        };
        put_at(&mut self.key_states, slot, (surface_id.0.clone(), key_index), is_pressed);
        if unchanged {
            proof {
                assert(keyed(self.key_states@) =~= old(self).key_state_map());
            }
            return KeyOutcome::Unchanged;
        }
        let dismissed = slot_position(&self.dismissed_overlay_keys, surface_id.0.as_str(), key_index);
        proof {
            lemma_found(self.dismissed_overlay_keys@, (surface_id@, key_index), dismissed);
        }
        if is_pressed && self.has_open_subpanel(surface_id) && self.top_subpanel_control_at(surface_id, key_index).is_none() {
            put_at(&mut self.dismissed_overlay_keys, dismissed, (surface_id.0.clone(), key_index), ());
            self.close_subpanel(surface_id);
            return KeyOutcome::ClosedSubpanel;
        }
        if !is_pressed {
            match dismissed {
                Some(i) => {
                    remove_at(&mut self.dismissed_overlay_keys, i);
                    return KeyOutcome::Swallowed;
                },
                None => {},
            }
        }
        let held = slot_position(&self.pressed_controls, surface_id.0.as_str(), key_index);
        proof {
            lemma_found(self.pressed_controls@, (surface_id@, key_index), held);
        }
        let control = if is_pressed {
            let control = self.control_at(surface_id, key_index);
            match &control {
                Some(c) => {
                    let kept = control_copy_at(c, c.position);
                    put_at(&mut self.pressed_controls, held, (surface_id.0.clone(), key_index), kept);
                },
                None => {},
            }
            control
        } else {
            match held {
                Some(i) => {
                    let (_, c) = remove_at(&mut self.pressed_controls, i);
                    Some(c)
                },
                None => None,
            }
        };
        let ghost events_before = self.recent_key_events@;
        self.recent_key_events.insert(
            0,
            SurfaceKeyEvent { surface_id: surface_id.clone(), key_index, is_pressed },
        );
        self.recent_key_events.truncate(RECENT_KEY_EVENTS);
        proof {
            assert(self.recent_key_events@.drop_first() =~= (if events_before.len() < RECENT_KEY_EVENTS {
                events_before
            } else {
                events_before.take(RECENT_KEY_EVENTS - 1)
            }));
        }
        let mut message = owned("key ");
        let number = decimal_text(key_index as u64);
        message.push_str(number.as_str());
        if is_pressed {
            message.push_str(" pressed");
        } else {
            message.push_str(" released");
        }
        let ghost logs_before = self.log_map();
        let entry = self.log(surface_id, SurfaceLogLevel::Input, message, at_ms);
        proof {
            assert(self.log_map()[surface_id@]@.last() == entry);
            assert(self.log_map()[surface_id@]@.drop_last() =~= appended(log_of(logs_before, surface_id@), entry).drop_last());
        }
        KeyOutcome::Dispatched(InputEvent::Key { surface_id: surface_id.clone(), key_index, is_pressed, control })
    }
}

/// The entries of other devices than `surface`.
pub open spec fn other_surfaces<T>(entries: Map<(Seq<char>, u8), T>, surface: Seq<char>) -> Map<(Seq<char>, u8), T> {
    entries.restrict(Set::new(|key: (Seq<char>, u8)| key.0 != surface))
}

/// Keeps the entries of other devices than `surface`.
fn retain_other_surfaces<T>(entries: Vec<((String, u8), T)>, surface: &str) -> (kept: Vec<((String, u8), T)>)
    requires
        ids_unique(entries@),
    ensures
        ids_unique(kept@),
        keyed(kept@) == other_surfaces(keyed(entries@), surface@),
{
    let ghost original = entries@;
    let mut rest = entries;
    let mut kept: Vec<((String, u8), T)> = Vec::new();
    let mut taken: usize = 0;
    let count = rest.len();
    assert(original.take(0) =~= Seq::<((String, u8), T)>::empty());
    assert(rest@ =~= original.skip(0));
    assert(keyed(kept@) =~= other_surfaces(keyed(original.take(0)), surface@));
    while rest.len() > 0
        invariant
            original.len() == count,
            taken + rest@.len() == count,
            rest@ == original.skip(taken as int),
            ids_unique(original),
            ids_unique(kept@),
            keyed(kept@) == other_surfaces(keyed(original.take(taken as int)), surface@),
        decreases rest.len(),
    {
        let ghost before = rest@;
        let entry = rest.remove(0);
        proof {
            assert(before[0] == original[taken as int]);
            assert(rest@ =~= original.skip(taken + 1));
            assert(original.take(taken + 1).drop_last() =~= original.take(taken as int));
            assert(original.take(taken + 1).last() == entry);
        }
        let ghost kept_before = kept@;
        if !str_eq(entry.0.0.as_str(), surface) {
            proof {
                lemma_keyed_dom(kept_before, entry.0@);
                lemma_keyed_dom(original.take(taken as int), entry.0@);
                if exists|j: int| 0 <= j < taken && (#[trigger] original.take(taken as int)[j]).0@ == entry.0@ {
                    let j = choose|j: int| 0 <= j < taken && (#[trigger] original.take(taken as int)[j]).0@ == entry.0@;
                    assert(original[j].0@ != original[taken as int].0@);
                }
            }
            kept.push(entry);
            proof {
                assert(kept@.drop_last() =~= kept_before);
                assert forall|a: int, b: int|
                    0 <= a < kept@.len() && 0 <= b < kept@.len() && a != b implies (#[trigger] kept@[a]).0@
                    != (#[trigger] kept@[b]).0@ by {
                    if a < kept_before.len() && b < kept_before.len() {
                        assert(kept@[a] == kept_before[a] && kept@[b] == kept_before[b]);
                    } else if a < kept_before.len() {
                        assert(kept@[a] == kept_before[a]);
                        assert(keyed(kept_before).dom().contains(kept_before[a].0@)) by {
                            lemma_keyed_dom(kept_before, kept_before[a].0@);
                        }
                    } else {
                        assert(kept@[b] == kept_before[b]);
                        assert(keyed(kept_before).dom().contains(kept_before[b].0@)) by {
                            lemma_keyed_dom(kept_before, kept_before[b].0@);
                        }
                    }
                }
                assert(keyed(kept@) =~= other_surfaces(keyed(original.take(taken + 1)), surface@));
            }
        } else {
            proof {
                assert(keyed(kept@) =~= other_surfaces(keyed(original.take(taken + 1)), surface@));
            }
        }
        taken += 1;
    }
    assert(original.take(taken as int) =~= original);
    kept
}

/// How many segments of a dial ring are lit: where the dial was turned to,
/// else the level the panel starts it at, or a full ring.
pub open spec fn lit_spec(positions: Map<(Seq<char>, u8), u8>, surface: Seq<char>, dial: u8, panel: Panel) -> u8 {
    if positions.dom().contains((surface, dial)) {
        positions[(surface, dial)]
    } else {
        segments_spec(
            if (dial as int) < panel.dial_ring_levels@.len() {
                panel.dial_ring_levels@[dial as int]
            } else {
                100
            },
        )
    }
}

/// The panel a device shows, when it has one that exists.
pub open spec fn shown_panel(
    devices: Map<Seq<char>, ManagedNetworkSurface>,
    panels: Map<Seq<char>, Panel>,
    surface: Seq<char>,
) -> Option<Panel> {
    if devices.dom().contains(surface) {
        match devices[surface].active_panel_id {
            Some(id) => if panels.dom().contains(id@) {
                Some(panels[id@])
            } else {
                None
            },
            None => None,
        }
    } else {
        None
    }
}

/// The colour of a dial's ring: the panel's, or white for a dial the panel
/// leaves unconfigured, so the knob is never dead.
pub open spec fn ring_color(panel: Panel, dial: u8) -> RgbaColor {
    if (dial as int) < panel.dial_colors@.len() {
        panel.dial_colors@[dial as int]
    } else {
        RgbaColor { red: 255, green: 255, blue: 255, alpha: 255 }
    }
}

/// The dial turned `detents` from `current` lit segments: one segment per
/// detent, held between an empty and a full ring.
pub open spec fn turned(current: u8, detents: i8) -> u8 {
    let moved = current + detents;
    if moved < 0 {
        0
    } else if moved > DIAL_RING_SEGMENTS {
        DIAL_RING_SEGMENTS
    } else {
        moved as u8
    }
}

/// A signed number as text, its sign always written.
pub open spec fn signed_text(value: i8) -> Seq<char> {
    if value < 0 {
        "-"@ + decimal((-value) as nat)
    } else {
        "+"@ + decimal(value as nat)
    }
}

/// The log message for a dial turned to a new position.
pub open spec fn turn_message(dial: u8, detents: i8, lit: u8) -> Seq<char> {
    "dial "@ + decimal(dial as nat) + " turned "@ + signed_text(detents) + " to "@ + decimal(percent_spec(lit) as nat)
        + "% ("@ + decimal(lit as nat) + "/24)"@
}

/// The log message for a dial pushed in or released.
pub open spec fn press_message(dial: u8, is_pressed: bool) -> Seq<char> {
    "dial "@ + decimal(dial as nat) + if is_pressed {
        " pressed"@
    } else {
        " released"@
    }
}

/// Where a turned dial ended up: the ring's colour and lit segments, to be
/// shown on the device, and the level, to be announced.
#[derive(Debug)]
pub struct DialMove {
    pub color: RgbaColor,
    pub lit_segments: u8,
    pub level: u8,
}

impl SurfaceRegistry {
    /// How many segments of a dial ring are lit.
    fn lit_segments(&self, surface_id: &SurfaceId, dial_index: u8, panel: &Panel) -> (lit: u8)
        requires
            self.wf(),
        ensures
            lit == lit_spec(self.dial_position_map(), surface_id@, dial_index, *panel),
    {
        let found = slot_position(&self.dial_positions, surface_id.0.as_str(), dial_index);
        proof {
            lemma_found(self.dial_positions@, (surface_id@, dial_index), found);
        }
        match found {
            Some(i) => self.dial_positions[i].1,
            None => {
                let level = if (dial_index as usize) < panel.dial_ring_levels.len() {
                    panel.dial_ring_levels[dial_index as usize]
                } else {
                    100
                };
                segments_from_percent(level)
            },
        }
    }

    /// The panel a device shows.
    fn shown(&self, surface_id: &SurfaceId) -> (found: Option<&Panel>)
        requires
            self.wf(),
        ensures
            match found {
                Some(panel) => shown_panel(self.devices(), self.panel_map(), surface_id@) == Some(*panel),
                None => shown_panel(self.devices(), self.panel_map(), surface_id@) is None,
            },
    {
        let device = match self.managed(surface_id) {
            Some(device) => device,
            None => return None,
        };
        match &device.active_panel_id {
            Some(id) => self.panel(id.0.as_str()),
            None => None,
        }
    }

    /// Every dial the shown panel configures, as its index, colour and lit
    /// segments; none when the device shows no panel.
    pub fn active_dial_rings(&self, surface_id: &SurfaceId) -> (rings: Vec<(u8, RgbaColor, u8)>)
        requires
            self.wf(),
        ensures
            match shown_panel(self.devices(), self.panel_map(), surface_id@) {
                Some(panel) => {
                    &&& rings@.len() == if panel.dial_colors@.len() < DIAL_COUNT {
                        panel.dial_colors@.len() as int
                    } else {
                        DIAL_COUNT as int
                    }
                    &&& forall|i: int|
                        0 <= i < rings@.len() ==> #[trigger] rings@[i] == (
                            i as u8,
                            panel.dial_colors@[i],
                            lit_spec(self.dial_position_map(), surface_id@, i as u8, panel),
                        )
                },
                None => rings@.len() == 0,
            },
    {
        let mut rings: Vec<(u8, RgbaColor, u8)> = Vec::new();
        let panel = match self.shown(surface_id) {
            Some(panel) => panel,
            None => return rings,
        };
        let mut index: u8 = 0;
        while index < DIAL_COUNT && (index as usize) < panel.dial_colors.len()
            invariant
                self.wf(),
                shown_panel(self.devices(), self.panel_map(), surface_id@) == Some(*panel),
                index <= DIAL_COUNT,
                index as int <= panel.dial_colors@.len(),
                rings@.len() == index,
                forall|i: int|
                    0 <= i < rings@.len() ==> #[trigger] rings@[i] == (
                        i as u8,
                        panel.dial_colors@[i],
                        lit_spec(self.dial_position_map(), surface_id@, i as u8, *panel),
                    ),
            decreases DIAL_COUNT - index,
        {
            let lit = self.lit_segments(surface_id, index, panel);
            rings.push((index, panel.dial_colors[index as usize], lit));
            index += 1;
        }
        rings
    }

    /// Turns a dial ring one segment per detent, held between an empty and a
    /// full ring. A turn of a dial the device does not have, of no detents,
    /// on a device showing no panel, or against the end of the ring changes
    /// nothing. Otherwise the new position is kept and logged, and handed
    /// back to be shown and announced.
    pub fn record_dial_turn(&mut self, surface_id: &SurfaceId, dial_index: u8, detents: i8, at_ms: u64) -> (moved:
        Option<DialMove>)
        requires
            old(self).wf(),
        ensures
            final(self).wf(),
            final(self).rendered_view() == old(self).rendered_view(),
            final(self).keeps_configuration(old(self)),
            final(self).key_state_map() == old(self).key_state_map(),
            final(self).pressed_control_map() == old(self).pressed_control_map(),
            final(self).dismissed_keys() == old(self).dismissed_keys(),
            final(self).recent_events() == old(self).recent_events(),
            final(self).dial_press_map() == old(self).dial_press_map(),
            match shown_panel(old(self).devices(), old(self).panel_map(), surface_id@) {
                Some(panel) => {
                    let current = lit_spec(old(self).dial_position_map(), surface_id@, dial_index, panel);
                    let next = turned(current, detents);
                    if dial_index >= DIAL_COUNT || detents == 0 || next == current {
                        moved is None && final(self).keeps_activity(old(self))
                    } else {
                        &&& moved matches Some(m) && m.color == ring_color(panel, dial_index) && m.lit_segments == next
                            && m.level == percent_spec(next)
                        &&& final(self).dial_position_map() == old(self).dial_position_map().insert((surface_id@, dial_index), next)
                        &&& final(self).log_map().remove(surface_id@) == old(self).log_map().remove(surface_id@)
                        &&& final(self).log_map().dom().contains(surface_id@)
                        &&& final(self).log_map()[surface_id@]@.len() > 0
                        &&& final(self).log_map()[surface_id@]@.last().message@ == turn_message(dial_index, detents, next)
                        &&& final(self).log_map()[surface_id@]@.drop_last() == appended(
                            log_of(old(self).log_map(), surface_id@),
                            final(self).log_map()[surface_id@]@.last(),
                        ).drop_last()
                    }
                },
                None => moved is None && final(self).keeps_activity(old(self)),
            },
    {
        if dial_index >= DIAL_COUNT || detents == 0 {
            return None;
        }
        let panel = match self.shown(surface_id) {
            Some(panel) => panel,
            None => return None,
        };
        let color = if (dial_index as usize) < panel.dial_colors.len() {
            panel.dial_colors[dial_index as usize]
        } else {
            RgbaColor::opaque(255, 255, 255)
        };
        let current = self.lit_segments(surface_id, dial_index, panel);
        let moved: i16 = current as i16 + detents as i16;
        let next: u8 = if moved < 0 {
            0
        } else if moved > DIAL_RING_SEGMENTS as i16 {
            DIAL_RING_SEGMENTS
        } else {
            moved as u8
        };
        if next == current {
            return None;
        }
        let found = slot_position(&self.dial_positions, surface_id.0.as_str(), dial_index);
        put_at(&mut self.dial_positions, found, (surface_id.0.clone(), dial_index), next);
        let level = percent_from_segments(next);
        let mut message = owned("dial ");
        message.push_str(decimal_text(dial_index as u64).as_str());
        message.push_str(" turned ");
        if detents < 0 {
            message.push_str("-");
            message.push_str(decimal_text((0 - detents as i16) as u64).as_str());
        } else {
            message.push_str("+");
            message.push_str(decimal_text(detents as u64).as_str());
        }
        message.push_str(" to ");
        message.push_str(decimal_text(level as u64).as_str());
        message.push_str("% (");
        message.push_str(decimal_text(next as u64).as_str());
        message.push_str("/24)");
        let ghost logs_before = self.log_map();
        let entry = self.log(surface_id, SurfaceLogLevel::Input, message, at_ms);
        proof {
            assert(self.log_map()[surface_id@]@.last() == entry);
            assert(self.log_map()[surface_id@]@.drop_last() =~= appended(log_of(logs_before, surface_id@), entry).drop_last());
        }
        Some(DialMove { color, lit_segments: next, level })
    }

    /// Records a dial being pushed in or released. Answers whether that
    /// changed anything, so edges are logged and announced rather than every
    /// report.
    pub fn record_dial_press(&mut self, surface_id: &SurfaceId, dial_index: u8, is_pressed: bool, at_ms: u64) -> (changed:
        bool)
        requires
            old(self).wf(),
        ensures
            final(self).wf(),
            final(self).rendered_view() == old(self).rendered_view(),
            final(self).keeps_configuration(old(self)),
            final(self).key_state_map() == old(self).key_state_map(),
            final(self).pressed_control_map() == old(self).pressed_control_map(),
            final(self).dismissed_keys() == old(self).dismissed_keys(),
            final(self).recent_events() == old(self).recent_events(),
            final(self).dial_position_map() == old(self).dial_position_map(),
            dial_index >= DIAL_COUNT ==> !changed && final(self).keeps_activity(old(self)),
            dial_index < DIAL_COUNT ==> final(self).dial_press_map() == old(self).dial_press_map().insert(
                (surface_id@, dial_index),
                is_pressed,
            ),
            dial_index < DIAL_COUNT ==> changed == !(old(self).dial_press_map().dom().contains((surface_id@, dial_index))
                && old(self).dial_press_map()[(surface_id@, dial_index)] == is_pressed),
            dial_index < DIAL_COUNT && !changed ==> final(self).log_map() == old(self).log_map(),
            changed ==> final(self).log_map().remove(surface_id@) == old(self).log_map().remove(surface_id@)
                && final(self).log_map().dom().contains(surface_id@) && final(self).log_map()[surface_id@]@.len() > 0
                && final(self).log_map()[surface_id@]@.last().message@ == press_message(dial_index, is_pressed)
                && final(self).log_map()[surface_id@]@.drop_last() == appended(
                log_of(old(self).log_map(), surface_id@),
                final(self).log_map()[surface_id@]@.last(),
            ).drop_last(),
    {
        if dial_index >= DIAL_COUNT {
            return false;
        }
        let found = slot_position(&self.dial_presses, surface_id.0.as_str(), dial_index);
        proof {
            lemma_found(self.dial_presses@, (surface_id@, dial_index), found);
        }
        let unchanged = match found {
            Some(i) => self.dial_presses[i].1 == is_pressed,
            None => false,
        };
        put_at(&mut self.dial_presses, found, (surface_id.0.clone(), dial_index), is_pressed);
        if unchanged {
            return false;
        }
        let mut message = owned("dial ");
        message.push_str(decimal_text(dial_index as u64).as_str());
        if is_pressed {
            message.push_str(" pressed");
        } else {
            message.push_str(" released");
        }
        let ghost logs_before = self.log_map();
        let entry = self.log(surface_id, SurfaceLogLevel::Input, message, at_ms);
        proof {
            assert(self.log_map()[surface_id@]@.last() == entry);
            assert(self.log_map()[surface_id@]@.drop_last() =~= appended(log_of(logs_before, surface_id@), entry).drop_last());
        }
        true
    }

    /// Drops a device's dial positions and presses, so its dials fall back
    /// to the levels its panel starts them at.
    pub fn reset_dial_positions(&mut self, surface_id: &str)
        requires
            old(self).wf(),
        ensures
            final(self).wf(),
            final(self).rendered_view() == old(self).rendered_view(),
            final(self).keeps_configuration(old(self)),
            final(self).dial_position_map() == other_surfaces(old(self).dial_position_map(), surface_id@),
            final(self).dial_press_map() == other_surfaces(old(self).dial_press_map(), surface_id@),
            final(self).key_state_map() == old(self).key_state_map(),
            final(self).pressed_control_map() == old(self).pressed_control_map(),
            final(self).dismissed_keys() == old(self).dismissed_keys(),
            final(self).recent_events() == old(self).recent_events(),
            final(self).log_map() == old(self).log_map(),
            final(self).log_counter() == old(self).log_counter(),
            final(self).panel_list() == old(self).panel_list(),
            final(self).device_list() == old(self).device_list(),
    {
        let mut positions: Vec<((String, u8), u8)> = Vec::new();
        std::mem::swap(&mut positions, &mut self.dial_positions);
        self.dial_positions = retain_other_surfaces(positions, surface_id);
        let mut presses: Vec<((String, u8), bool)> = Vec::new();
        std::mem::swap(&mut presses, &mut self.dial_presses);
        self.dial_presses = retain_other_surfaces(presses, surface_id);
    }
}

/// A device with another list of open subpanels, otherwise as it was.
pub open spec fn with_layers(device: ManagedNetworkSurface, after: ManagedNetworkSurface) -> bool {
    after == (ManagedNetworkSurface { open_subpanels: after.open_subpanels, ..device })
}

/// The subpanels left open once `panel` is gone.
pub open spec fn without_panel(layers: Seq<OpenSubpanel>, panel: Seq<char>) -> Seq<OpenSubpanel>
    decreases layers.len(),
{
    if layers.len() == 0 {
        Seq::empty()
    } else {
        let before = without_panel(layers.drop_last(), panel);
        if layers.last().panel_id@ != panel {
            before.push(layers.last())
        } else {
            before
        }
    }
}

/// What removing a panel does to a device: the panel's subpanels close; a
/// device that showed it moves to the first remaining panel that fits, or to
/// none, with every subpanel closed.
pub open spec fn after_panel_removed(device: ManagedNetworkSurface, panel: Seq<char>, remaining: Seq<Panel>) -> (
    Option<PanelId>,
    Seq<OpenSubpanel>,
) {
    if device.active_panel_id matches Some(id) && id@ == panel {
        (
            match first_compatible(device, remaining) {
                Some(i) => Some(remaining[i].panel_id),
                None => None,
            },
            Seq::empty(),
        )
    } else {
        (device.active_panel_id, without_panel(device.open_subpanels@, panel))
    }
}

/// Whether removing a panel changed what a device shows: the device showed
/// it, or it was the topmost subpanel.
pub open spec fn repaint_after_removal(device: ManagedNetworkSurface, panel: Seq<char>) -> bool {
    (device.active_panel_id matches Some(id) && id@ == panel) || (device.open_subpanels@.len() > 0
        && device.open_subpanels@.last().panel_id@ == panel)
}

/// What removing a panel made of a device.
pub open spec fn removed_from(before: ManagedNetworkSurface, after: ManagedNetworkSurface, panel: Seq<char>, remaining: Seq<Panel>) -> bool {
    let (shown, layers) = after_panel_removed(before, panel, remaining);
    &&& after == (ManagedNetworkSurface { active_panel_id: shown, open_subpanels: after.open_subpanels, ..before })
    &&& after.open_subpanels@ == layers
}

/// The ids of the devices whose keys removing a panel changes, in order.
pub open spec fn removal_repaints(devices: Seq<ManagedNetworkSurface>, panel: Seq<char>) -> Seq<Seq<char>>
    decreases devices.len(),
{
    if devices.len() == 0 {
        Seq::empty()
    } else {
        let before = removal_repaints(devices.drop_last(), panel);
        if repaint_after_removal(devices.last(), panel) {
            before.push(devices.last().surface_id@)
        } else {
            before
        }
    }
}

/// The entries of devices other than those listed.
pub open spec fn other_surfaces_of<T>(entries: Map<(Seq<char>, u8), T>, surfaces: Seq<Seq<char>>) -> Map<(Seq<char>, u8), T> {
    entries.restrict(Set::new(|key: (Seq<char>, u8)| !surfaces.contains(key.0)))
}

/// Clearing one more device's dials is clearing the longer list of
/// devices.
proof fn lemma_other_surfaces_step<T>(entries: Map<(Seq<char>, u8), T>, surfaces: Seq<Seq<char>>, r: int)
    requires
        0 <= r < surfaces.len(),
    ensures
        other_surfaces_of(entries, surfaces.take(r + 1)) == other_surfaces(
            other_surfaces_of(entries, surfaces.take(r)),
            surfaces[r],
        ),
{
    let longer = surfaces.take(r + 1);
    let shorter = surfaces.take(r);
    assert forall|s: Seq<char>| longer.contains(s) <==> (shorter.contains(s) || s == surfaces[r]) by {
        if longer.contains(s) {
            let j = choose|j: int| 0 <= j < longer.len() && longer[j] == s;
            if j < r {
                assert(shorter[j] == s);
            }
        }
        if shorter.contains(s) {
            let j = choose|j: int| 0 <= j < shorter.len() && shorter[j] == s;
            assert(longer[j] == s);
        }
        if s == surfaces[r] {
            assert(longer[r] == s);
        }
    }
    assert(other_surfaces_of(entries, longer) =~= other_surfaces(other_surfaces_of(entries, shorter), surfaces[r]));
}

/// The subpanels left open once `panel` is gone.
fn layers_without(layers: Vec<OpenSubpanel>, panel: &str) -> (kept: Vec<OpenSubpanel>)
    ensures
        kept@ == without_panel(layers@, panel@),
{
    let ghost original = layers@;
    let mut kept: Vec<OpenSubpanel> = Vec::new();
    let mut i: usize = 0;
    assert(original.take(0) =~= Seq::<OpenSubpanel>::empty());
    while i < layers.len()
        invariant
            i <= layers@.len(),
            original == layers@,
            kept@ == without_panel(original.take(i as int), panel@),
        decreases layers.len() - i,
    {
        assert(original.take(i + 1).drop_last() =~= original.take(i as int));
        if !str_eq(layers[i].panel_id.0.as_str(), panel) {
            kept.push(layers[i].clone());
        }
        i += 1;
    }
    assert(original.take(i as int) =~= original);
    kept
}

/// The first panel that fits a device, among listed panels.
fn find_compatible_entry(device: &ManagedNetworkSurface, entries: &Vec<(String, Panel)>) -> (found: Option<usize>)
    ensures
        match found {
            Some(i) => i < entries@.len() && first_compatible(
                *device,
                entries@.map_values(|entry: (String, Panel)| entry.1),
            ) == Some(i as int),
            None => first_compatible(*device, entries@.map_values(|entry: (String, Panel)| entry.1)) is None,
        },
{
    let ghost panels = entries@.map_values(|entry: (String, Panel)| entry.1);
    let mut i: usize = 0;
    while i < entries.len()
        invariant
            i <= entries@.len(),
            panels == entries@.map_values(|entry: (String, Panel)| entry.1),
            first_compatible(*device, panels.take(i as int)) is None,
        decreases entries.len() - i,
    {
        assert(panels.take(i + 1).drop_last() =~= panels.take(i as int));
        assert(panels.take(i + 1).last() == entries@[i as int].1);
        if is_compatible(device, &entries[i].1) {
            proof {
                lemma_first_compatible_prefix(*device, panels, i + 1);
            }
            return Some(i);
        }
        i += 1;
    }
    assert(panels.take(i as int) =~= panels);
    None
}

impl SurfaceRegistry {
    /// The panels in the order the registry keeps them.
    pub closed spec fn panel_list(&self) -> Seq<Panel> {
        self.panels@.map_values(|entry: (String, Panel)| entry.1)
    }

    /// The devices in the order the registry keeps them.
    pub closed spec fn device_list(&self) -> Seq<ManagedNetworkSurface> {
        self.managed@.map_values(|entry: (String, ManagedNetworkSurface)| entry.1)
    }

    /// Opens a panel as a subpanel over a device, placed against the key
    /// `anchor` and held inside the device's grid.
    pub fn open_subpanel(
        &mut self,
        surface_id: &SurfaceId,
        panel_id: &str,
        anchor: SurfacePosition,
        placement: SubpanelPlacement,
        offset_columns: i16,
        offset_rows: i16,
    ) -> (opened: Result<(), String>)
        requires
            old(self).wf(),
        ensures
            final(self).wf(),
            final(self).rendered_view() == old(self).rendered_view(),
            final(self).keeps_activity(old(self)),
            final(self).panel_map() == old(self).panel_map(),
            final(self).discovered_map() == old(self).discovered_map(),
            final(self).surface_counter() == old(self).surface_counter(),
            final(self).panel_counter() == old(self).panel_counter(),
            !old(self).devices().dom().contains(surface_id@) ==> (opened matches Err(e) && e@
                == "managed device was not found"@ && final(self).devices() == old(self).devices()),
            old(self).devices().dom().contains(surface_id@) && !old(self).panel_map().dom().contains(panel_id@)
                ==> (opened matches Err(e) && e@ == "subpanel was not found"@ && final(self).devices()
                == old(self).devices()),
            old(self).devices().dom().contains(surface_id@) && old(self).panel_map().dom().contains(panel_id@)
                ==> match old(self).devices()[surface_id@].layout {
                SurfaceLayout::Grid { columns, rows } => {
                    let device = old(self).devices()[surface_id@];
                    let panel = old(self).panel_map()[panel_id@];
                    let origin = subpanel_origin_spec(
                        anchor,
                        panel.layout.columns,
                        panel.layout.rows,
                        columns,
                        rows,
                        placement,
                        offset_columns,
                        offset_rows,
                    );
                    &&& opened is Ok
                    &&& final(self).devices().remove(surface_id@) == old(self).devices().remove(surface_id@)
                    &&& final(self).devices().dom().contains(surface_id@)
                    &&& with_layers(device, final(self).devices()[surface_id@])
                    &&& final(self).devices()[surface_id@].open_subpanels@ == device.open_subpanels@.push(
                        OpenSubpanel { panel_id: panel.panel_id, column: origin.0 as i16, row: origin.1 as i16 },
                    )
                },
                SurfaceLayout::Freeform => opened matches Err(e) && e@ == "subpanels require a grid surface"@
                    && final(self).devices() == old(self).devices(),
            },
    {
        let found = position_of(&self.managed, surface_id.0.as_str());
        proof {
            lemma_found(self.managed@, surface_id@, found);
        }
        let i = match found {
            Some(i) => i,
            None => return Err(owned("managed device was not found")),
        };
        let layer = {
            let panel = match self.panel(panel_id) {
                Some(panel) => panel,
                None => return Err(owned("subpanel was not found")),
            };
            let (columns, rows) = match self.managed[i].1.layout {
                SurfaceLayout::Grid { columns, rows } => (columns, rows),
                SurfaceLayout::Freeform => return Err(owned("subpanels require a grid surface")),
            };
            let (column, row) = subpanel_origin(
                anchor,
                panel.layout.columns,
                panel.layout.rows,
                columns,
                rows,
                placement,
                offset_columns,
                offset_rows,
            );
            OpenSubpanel { panel_id: panel.panel_id.clone(), column, row }
        };
        let ghost before = keyed(self.managed@);
        let (key, mut device) = self.take_device(i);
        device.open_subpanels.push(layer);
        self.restore_device(key, device);
        proof {
            assert(keyed(self.managed@).remove(surface_id@) =~= before.remove(surface_id@));
        }
        Ok(())
    }

    /// Shows a panel on a device, closing its subpanels and resetting its
    /// dials, when the panel exists and fits the device; the change is
    /// logged. Hands back the device as it now is.
    pub fn assign_active_panel(&mut self, surface_id: &str, panel_id: &str, at_ms: u64) -> (assigned: Result<
        ManagedNetworkSurface,
        String,
    >)
        requires
            old(self).wf(),
        ensures
            final(self).wf(),
            final(self).rendered_view() == old(self).rendered_view(),
            final(self).panel_map() == old(self).panel_map(),
            final(self).discovered_map() == old(self).discovered_map(),
            final(self).surface_counter() == old(self).surface_counter(),
            final(self).panel_counter() == old(self).panel_counter(),
            !old(self).panel_map().dom().contains(panel_id@) ==> (assigned matches Err(e) && e@ == "panel was not found"@
                && final(self).devices() == old(self).devices() && final(self).keeps_activity(old(self))),
            old(self).panel_map().dom().contains(panel_id@) && !old(self).devices().dom().contains(surface_id@)
                ==> (assigned matches Err(e) && e@ == "managed device was not found"@ && final(self).devices()
                == old(self).devices() && final(self).keeps_activity(old(self))),
            old(self).panel_map().dom().contains(panel_id@) && old(self).devices().dom().contains(surface_id@) && !compatible(
                old(self).devices()[surface_id@],
                old(self).panel_map()[panel_id@],
            ) ==> (assigned matches Err(e) && e@ == "panel layout or capabilities are incompatible with device"@
                && final(self).devices() == old(self).devices() && final(self).keeps_activity(old(self))),
            old(self).panel_map().dom().contains(panel_id@) && old(self).devices().dom().contains(surface_id@) && compatible(
                old(self).devices()[surface_id@],
                old(self).panel_map()[panel_id@],
            ) ==> {
                let device = old(self).devices()[surface_id@];
                let panel = old(self).panel_map()[panel_id@];
                &&& final(self).devices().remove(surface_id@) == old(self).devices().remove(surface_id@)
                &&& final(self).devices().dom().contains(surface_id@)
                &&& final(self).devices()[surface_id@] == (ManagedNetworkSurface {
                    active_panel_id: Some(panel.panel_id),
                    open_subpanels: final(self).devices()[surface_id@].open_subpanels,
                    ..device
                })
                &&& final(self).devices()[surface_id@].open_subpanels@.len() == 0
                &&& assigned matches Ok(d) && same_device(d, final(self).devices()[surface_id@])
                &&& final(self).dial_position_map() == other_surfaces(old(self).dial_position_map(), surface_id@)
                &&& final(self).dial_press_map() == other_surfaces(old(self).dial_press_map(), surface_id@)
                &&& final(self).key_state_map() == old(self).key_state_map()
                &&& final(self).pressed_control_map() == old(self).pressed_control_map()
                &&& final(self).dismissed_keys() == old(self).dismissed_keys()
                &&& final(self).recent_events() == old(self).recent_events()
                &&& final(self).log_map().remove(surface_id@) == old(self).log_map().remove(surface_id@)
                &&& final(self).log_map().dom().contains(surface_id@)
                &&& final(self).log_map()[surface_id@]@.len() > 0
                &&& final(self).log_map()[surface_id@]@.last().message@ == "active panel set to "@ + panel.name@
                &&& final(self).log_map()[surface_id@]@.last().level == SurfaceLogLevel::Info
            },
    {
        let panel_found = position_of(&self.panels, panel_id);
        proof {
            lemma_found(self.panels@, panel_id@, panel_found);
        }
        let p = match panel_found {
            Some(p) => p,
            None => return Err(owned("panel was not found")),
        };
        let found = position_of(&self.managed, surface_id);
        proof {
            lemma_found(self.managed@, surface_id@, found);
        }
        let i = match found {
            Some(i) => i,
            None => return Err(owned("managed device was not found")),
        };
        if !is_compatible(&self.managed[i].1, &self.panels[p].1) {
            return Err(owned("panel layout or capabilities are incompatible with device"));
        }
        let chosen = self.panels[p].1.panel_id.clone();
        let mut message = owned("active panel set to ");
        message.push_str(self.panels[p].1.name.as_str());
        let ghost before = keyed(self.managed@);
        let (key, mut device) = self.take_device(i);
        device.active_panel_id = Some(chosen);
        device.open_subpanels = Vec::new();
        let id = device.surface_id.clone();
        let copy = device.clone();
        self.restore_device(key, device);
        proof {
            assert(keyed(self.managed@).remove(surface_id@) =~= before.remove(surface_id@));
        }
        self.reset_dial_positions(surface_id);
        self.log(&id, SurfaceLogLevel::Info, message, at_ms);
        Ok(copy)
    }

    /// Removes a panel. Its subpanels close on every device; a device that
    /// showed it moves to the first remaining panel that fits, or to none, with
    /// its subpanels closed. The devices whose keys are to be repainted have
    /// their dials reset. Hands back the panel and those devices; nothing when
    /// there was no such panel.
    pub fn remove_panel(&mut self, panel_id: &str) -> (removed: Option<(Panel, Vec<SurfaceId>)>)
        requires
            old(self).wf(),
        ensures
            final(self).wf(),
            final(self).rendered_view() == old(self).rendered_view(),
            final(self).discovered_map() == old(self).discovered_map(),
            final(self).surface_counter() == old(self).surface_counter(),
            final(self).panel_counter() == old(self).panel_counter(),
            final(self).key_state_map() == old(self).key_state_map(),
            final(self).pressed_control_map() == old(self).pressed_control_map(),
            final(self).dismissed_keys() == old(self).dismissed_keys(),
            final(self).recent_events() == old(self).recent_events(),
            final(self).log_map() == old(self).log_map(),
            final(self).log_counter() == old(self).log_counter(),
            !old(self).panel_map().dom().contains(panel_id@) ==> removed is None && final(self).devices()
                == old(self).devices() && final(self).panel_map() == old(self).panel_map()
                && final(self).dial_position_map() == old(self).dial_position_map() && final(self).dial_press_map()
                == old(self).dial_press_map(),
            old(self).panel_map().dom().contains(panel_id@) ==> (removed matches Some((panel, repaint)) && {
                &&& panel == old(self).panel_map()[panel_id@]
                &&& final(self).panel_map() == old(self).panel_map().remove(panel_id@)
                &&& final(self).devices().dom() == old(self).devices().dom()
                &&& forall|k: Seq<char>| #[trigger] old(self).devices().dom().contains(k) ==> removed_from(
                    old(self).devices()[k],
                    final(self).devices()[k],
                    panel_id@,
                    final(self).panel_list(),
                )
                &&& repaint@.map_values(|id: SurfaceId| id@) == removal_repaints(old(self).device_list(), panel_id@)
                &&& final(self).dial_position_map() == other_surfaces_of(
                    old(self).dial_position_map(),
                    removal_repaints(old(self).device_list(), panel_id@),
                )
                &&& final(self).dial_press_map() == other_surfaces_of(
                    old(self).dial_press_map(),
                    removal_repaints(old(self).device_list(), panel_id@),
                )
                &&& forall|k: Seq<char>| #[trigger] final(self).devices().dom().contains(k) ==> shows_nowhere(
                    final(self).devices()[k],
                    panel_id@,
                )
            }),
    {
        let found = position_of(&self.panels, panel_id);
        proof {
            lemma_found(self.panels@, panel_id@, found);
        }
        let p = match found {
            Some(p) => p,
            None => return None,
        };
        let (_, panel) = remove_at(&mut self.panels, p);
        let ghost start = self.managed@;
        proof {
            assert forall|j: int| 0 <= j < start.len() implies (#[trigger] start[j]).1.surface_id@ == start[j].0@ by {
                lemma_keyed_at(start, j);
            }
        }
        let mut repaint: Vec<SurfaceId> = Vec::new();
        let mut i: usize = 0;
        assert(start.take(0).map_values(|entry: (String, ManagedNetworkSurface)| entry.1) =~= Seq::<
            ManagedNetworkSurface,
        >::empty());
        while i < self.managed.len()
            invariant
                i <= self.managed@.len(),
                self.managed@.len() == start.len(),
                ids_unique(start),
                ids_unique(self.managed@),
                forall|j: int| 0 <= j < start.len() ==> (#[trigger] start[j]).1.surface_id@ == start[j].0@,
                forall|j: int| 0 <= j < start.len() ==> (#[trigger] self.managed@[j]).0 == start[j].0,
                forall|j: int|
                    0 <= j < i ==> removed_from(start[j].1, (#[trigger] self.managed@[j]).1, panel_id@, self.panels@.map_values(
                        |entry: (String, Panel)| entry.1,
                    )),
                forall|j: int| i <= j < start.len() ==> #[trigger] self.managed@[j] == start[j],
                repaint@.map_values(|id: SurfaceId| id@) == removal_repaints(
                    start.take(i as int).map_values(|entry: (String, ManagedNetworkSurface)| entry.1),
                    panel_id@,
                ),
                p < old(self).panels@.len(),
                self.panels@ == old(self).panels@.remove(p as int),
                ids_unique(self.panels@),
                keyed(self.panels@) == old(self).panel_map().remove(panel_id@),
                forall|k: Seq<char>| #[trigger] keyed(self.panels@).dom().contains(k) ==> keyed(self.panels@)[k].panel_id@ == k,
                self.discovered == old(self).discovered,
                self.key_states == old(self).key_states,
                self.pressed_controls == old(self).pressed_controls,
                self.dismissed_overlay_keys == old(self).dismissed_overlay_keys,
                self.recent_key_events == old(self).recent_key_events,
                self.dial_positions == old(self).dial_positions,
                self.dial_presses == old(self).dial_presses,
                self.dock_children == old(self).dock_children,
                self.logs == old(self).logs,
                self.rendered == old(self).rendered,
                self.next_surface_number == old(self).next_surface_number,
                self.next_panel_number == old(self).next_panel_number,
                self.next_log_sequence == old(self).next_log_sequence,
                old(self).wf(),
            decreases start.len() - i,
        {
            let (key, mut device) = remove_at(&mut self.managed, i);
            let ghost original = device;
            let showed = match &device.active_panel_id {
                Some(id) => str_eq(id.0.as_str(), panel_id),
                None => false,
            };
            let count = device.open_subpanels.len();
            let closed_overlay = count > 0 && str_eq(
                device.open_subpanels[count - 1].panel_id.0.as_str(),
                panel_id,
            );
            if showed {
                device.active_panel_id = match find_compatible_entry(&device, &self.panels) {
                    Some(k) => Some(self.panels[k].1.panel_id.clone()),
                    None => None,
                };
                device.open_subpanels = Vec::new();
            } else {
                let mut layers: Vec<OpenSubpanel> = Vec::new();
                std::mem::swap(&mut layers, &mut device.open_subpanels);
                device.open_subpanels = layers_without(layers, panel_id);
            }
            let ghost before_repaint = repaint@;
            if showed || closed_overlay {
                repaint.push(device.surface_id.clone());
            }
            proof {
                let taken = start.take(i + 1).map_values(|entry: (String, ManagedNetworkSurface)| entry.1);
                assert(taken.drop_last() =~= start.take(i as int).map_values(
                    |entry: (String, ManagedNetworkSurface)| entry.1,
                ));
                assert(taken.last() == original);
                assert(repaint@.map_values(|id: SurfaceId| id@) =~= removal_repaints(taken, panel_id@));
            }
            insert_at(&mut self.managed, i, (key, device));
            i += 1;
        }
        proof {
            assert(start.take(i as int) =~= start);
            assert(start.map_values(|entry: (String, ManagedNetworkSurface)| entry.1) =~= old(self).device_list());
            assert forall|k: Seq<char>| #[trigger] keyed(self.managed@).dom().contains(k) <==> keyed(start).dom().contains(k) by {
                lemma_keyed_dom(self.managed@, k);
                lemma_keyed_dom(start, k);
                if keyed(self.managed@).dom().contains(k) {
                    let j = choose|j: int| 0 <= j < self.managed@.len() && (#[trigger] self.managed@[j]).0@ == k;
                    assert(start[j].0 == self.managed@[j].0);
                }
                if keyed(start).dom().contains(k) {
                    let j = choose|j: int| 0 <= j < start.len() && (#[trigger] start[j]).0@ == k;
                    assert(start[j].0 == self.managed@[j].0);
                }
            }
            assert forall|k: Seq<char>| #[trigger] keyed(start).dom().contains(k) implies removed_from(
                keyed(start)[k],
                keyed(self.managed@)[k],
                panel_id@,
                self.panels@.map_values(|entry: (String, Panel)| entry.1),
            ) && keyed(self.managed@)[k].surface_id@ == k by {
                lemma_keyed_dom(start, k);
                let j = choose|j: int| 0 <= j < start.len() && (#[trigger] start[j]).0@ == k;
                lemma_keyed_at(start, j);
                lemma_keyed_at(self.managed@, j);
                assert(start[j].0 == self.managed@[j].0);
            }
            assert(keyed(self.managed@).dom() =~= keyed(start).dom());
            assert forall|q: int| 0 <= q < self.panels@.len() implies (#[trigger] self.panels@[q]).1.panel_id@ != panel_id@ by {
                lemma_keyed_at(self.panels@, q);
            }
            assert forall|k: Seq<char>| #[trigger] keyed(self.managed@).dom().contains(k) implies shows_nowhere(
                keyed(self.managed@)[k],
                panel_id@,
            ) by {
                let device = keyed(start)[k];
                let remaining = self.panels@.map_values(|entry: (String, Panel)| entry.1);
                lemma_first_compatible_bounds(device, remaining);
                lemma_without_panel(device.open_subpanels@, panel_id@);
                if let Some(q) = first_compatible(device, remaining) {
                    assert(remaining[q] == self.panels@[q].1);
                }
            }
        }
        let ghost before_reset = self.dial_position_map();
        let ghost presses_before = self.dial_press_map();
        let ghost devices_after = self.devices();
        let ghost panels_after = self.panel_map();
        let ghost list_after = self.panel_list();
        let ghost ids = repaint@.map_values(|id: SurfaceId| id@);
        let mut r: usize = 0;
        assert(other_surfaces_of(before_reset, ids.take(0)) =~= before_reset);
        assert(other_surfaces_of(presses_before, ids.take(0)) =~= presses_before);
        while r < repaint.len()
            invariant
                r <= repaint@.len(),
                ids == repaint@.map_values(|id: SurfaceId| id@),
                self.wf(),
                self.dial_position_map() == other_surfaces_of(before_reset, ids.take(r as int)),
                self.dial_press_map() == other_surfaces_of(presses_before, ids.take(r as int)),
                self.devices() == devices_after,
                self.panel_map() == panels_after,
                self.panel_list() == list_after,
                self.discovered_map() == old(self).discovered_map(),
                self.surface_counter() == old(self).surface_counter(),
                self.panel_counter() == old(self).panel_counter(),
                self.key_state_map() == old(self).key_state_map(),
                self.pressed_control_map() == old(self).pressed_control_map(),
                self.dismissed_keys() == old(self).dismissed_keys(),
                self.recent_events() == old(self).recent_events(),
                self.log_map() == old(self).log_map(),
                self.log_counter() == old(self).log_counter(),
                self.rendered_view() == old(self).rendered_view(),
            decreases repaint.len() - r,
        {
            let ghost positions = self.dial_position_map();
            let ghost presses = self.dial_press_map();
            self.reset_dial_positions(repaint[r].0.as_str());
            proof {
                lemma_other_surfaces_step(before_reset, ids, r as int);
                lemma_other_surfaces_step(presses_before, ids, r as int);
            }
            r += 1;
        }
        assert(ids.take(r as int) =~= ids);
        Some((panel, repaint))
    }
}

/// The first thing wrong with a panel's controls, looking at them in order:
/// one placed outside the layout, or one placed where an earlier one is.
pub open spec fn controls_problem(controls: Seq<Control>, columns: u16, rows: u16) -> Option<Seq<char>>
    decreases controls.len(),
{
    if controls.len() == 0 {
        None
    } else {
        match controls_problem(controls.drop_last(), columns, rows) {
            Some(problem) => Some(problem),
            None => {
                let last = controls.last();
                if last.position.column >= columns || last.position.row >= rows {
                    Some("control position is outside panel layout"@)
                } else if exists|j: int| 0 <= j < controls.len() - 1 && (#[trigger] controls[j]).position == last.position {
                    Some("panel controls cannot share a position"@)
                } else {
                    None
                }
            },
        }
    }
}

/// What is wrong with a panel, if anything: a blank name or an empty
/// layout, else the first wrong control.
pub open spec fn panel_problem(panel: Panel) -> Option<Seq<char>> {
    if trim_ws(panel.name@).len() == 0 || panel.layout.columns == 0 || panel.layout.rows == 0 {
        Some("panel name and layout dimensions are required"@)
    } else {
        controls_problem(panel.controls@, panel.layout.columns, panel.layout.rows)
    }
}

/// Checks a panel before it is stored.
pub fn validate_panel(panel: &Panel) -> (checked: Result<(), String>)
    ensures
        match checked {
            Ok(()) => panel_problem(*panel) is None,
            Err(e) => panel_problem(*panel) == Some(e@),
        },
{
    let name = crate::text::chars_of(panel.name.as_str());
    let (start, end) = crate::text::trim_bounds(&name, 0, name.len());
    proof {
        assert(name@.subrange(0, name@.len() as int) =~= name@);
    }
    if start == end || panel.layout.columns == 0 || panel.layout.rows == 0 {
        return Err(owned("panel name and layout dimensions are required"));
    }
    let controls = &panel.controls;
    let mut i: usize = 0;
    assert(controls@.take(0) =~= Seq::<Control>::empty());
    assert(trim_ws(panel.name@).len() != 0);
    while i < controls.len()
        invariant
            i <= controls@.len(),
            trim_ws(panel.name@).len() != 0,
            panel.layout.columns != 0 && panel.layout.rows != 0,
            controls == &panel.controls,
            controls_problem(controls@.take(i as int), panel.layout.columns, panel.layout.rows) is None,
        decreases controls.len() - i,
    {
        let ghost prefix = controls@.take(i + 1);
        assert(prefix.drop_last() =~= controls@.take(i as int));
        assert(prefix.last() == controls@[i as int]);
        let position = controls[i].position;
        if position.column >= panel.layout.columns || position.row >= panel.layout.rows {
            proof {
                assert(controls_problem(prefix.drop_last(), panel.layout.columns, panel.layout.rows) is None);
                assert(controls_problem(prefix, panel.layout.columns, panel.layout.rows) == Some(
                    "control position is outside panel layout"@,
                ));
                lemma_problem_prefix(controls@, i + 1, panel.layout.columns, panel.layout.rows);
                assert(trim_ws(panel.name@).len() != 0);
                assert(panel_problem(*panel) == Some("control position is outside panel layout"@));
            }
            return Err(owned("control position is outside panel layout"));
        }
        let mut j: usize = 0;
        while j < i
            invariant
                j <= i < controls@.len(),
                trim_ws(panel.name@).len() != 0,
                panel.layout.columns != 0 && panel.layout.rows != 0,
                controls == &panel.controls,
                position.column < panel.layout.columns && position.row < panel.layout.rows,
                controls_problem(controls@.take(i as int), panel.layout.columns, panel.layout.rows) is None,
                prefix.drop_last() == controls@.take(i as int),
                prefix.last() == controls@[i as int],
                prefix == controls@.take(i + 1),
                position == controls@[i as int].position,
                forall|k: int| 0 <= k < j ==> (#[trigger] controls@[k]).position != position,
            decreases i - j,
        {
            if controls[j].position.column == position.column && controls[j].position.row == position.row {
                proof {
                    assert(prefix[j as int] == controls@[j as int]);
                    assert(prefix[j as int].position == prefix.last().position);
                    assert(controls_problem(prefix, panel.layout.columns, panel.layout.rows) == Some(
                        "panel controls cannot share a position"@,
                    ));
                    lemma_problem_prefix(controls@, i + 1, panel.layout.columns, panel.layout.rows);
                    assert(trim_ws(panel.name@).len() != 0);
                }
                return Err(owned("panel controls cannot share a position"));
            }
            j += 1;
        }
        proof {
            assert forall|k: int| 0 <= k < prefix.len() - 1 implies (#[trigger] prefix[k]).position != prefix.last().position by {
                assert(prefix[k] == controls@[k]);
            }
        }
        i += 1;
    }
    assert(controls@.take(i as int) =~= controls@);
    Ok(())
}

proof fn lemma_problem_prefix(controls: Seq<Control>, n: int, columns: u16, rows: u16)
    requires
        0 <= n <= controls.len(),
        controls_problem(controls.take(n), columns, rows) is Some,
    ensures
        controls_problem(controls, columns, rows) == controls_problem(controls.take(n), columns, rows),
    decreases controls.len() - n,
{
    if n < controls.len() {
        assert(controls.take(n + 1).drop_last() =~= controls.take(n));
        lemma_problem_prefix(controls, n + 1, columns, rows);
    } else {
        assert(controls.take(n) =~= controls);
    }
}

/// Whether some device shows panel `panel` and cannot show it as it now is.
pub open spec fn assigned_elsewhere_incompatible(devices: Map<Seq<char>, ManagedNetworkSurface>, panel: Panel) -> bool {
    exists|k: Seq<char>|
        #[trigger] devices.dom().contains(k) && (devices[k].active_panel_id matches Some(id) && id@ == panel.panel_id@
            && !compatible(devices[k], panel))
}

/// The ids of the devices showing panel `panel`, in order.
pub open spec fn showing_panel(devices: Seq<ManagedNetworkSurface>, panel: Seq<char>) -> Seq<Seq<char>>
    decreases devices.len(),
{
    if devices.len() == 0 {
        Seq::empty()
    } else {
        let before = showing_panel(devices.drop_last(), panel);
        if devices.last().active_panel_id matches Some(id) && id@ == panel {
            before.push(devices.last().surface_id@)
        } else {
            before
        }
    }
}

impl SurfaceRegistry {
    /// Stores a panel, in place of one with its id, when it is well formed
    /// and fits every device that shows it. Hands back the devices showing
    /// it, whose keys are to be repainted.
    pub fn upsert_panel(&mut self, panel: Panel) -> (stored: Result<Vec<SurfaceId>, String>)
        requires
            old(self).wf(),
        ensures
            final(self).wf(),
            final(self).rendered_view() == old(self).rendered_view(),
            final(self).keeps_activity(old(self)),
            final(self).devices() == old(self).devices(),
            final(self).discovered_map() == old(self).discovered_map(),
            final(self).surface_counter() == old(self).surface_counter(),
            final(self).panel_counter() == old(self).panel_counter(),
            final(self).dock_map() == old(self).dock_map(),
            panel_problem(panel) matches Some(problem) ==> (stored matches Err(e) && e@ == problem && final(self).panel_map()
                == old(self).panel_map()),
            panel_problem(panel) is None && assigned_elsewhere_incompatible(old(self).devices(), panel) ==> (stored matches Err(e)
                && e@ == "panel is incompatible with a device it is assigned to"@ && final(self).panel_map()
                == old(self).panel_map()),
            panel_problem(panel) is None && !assigned_elsewhere_incompatible(old(self).devices(), panel) ==> (stored matches Ok(
                repaint,
            ) && final(self).panel_map() == old(self).panel_map().insert(panel.panel_id@, panel)
                && repaint@.map_values(|id: SurfaceId| id@) == showing_panel(old(self).device_list(), panel.panel_id@)),
            stored is Ok ==> (final(self).panel_list() == old(self).panel_list().push(panel) || exists|i: int|
                0 <= i < old(self).panel_list().len() && final(self).panel_list() == old(self).panel_list().update(
                    i,
                    panel,
                )),
    {
        match validate_panel(&panel) {
            Ok(()) => {},
            Err(e) => return Err(e),
        }
        let mut repaint: Vec<SurfaceId> = Vec::new();
        let mut i: usize = 0;
        let ghost devices = self.managed@.map_values(|entry: (String, ManagedNetworkSurface)| entry.1);
        assert(devices.take(0) =~= Seq::<ManagedNetworkSurface>::empty());
        while i < self.managed.len()
            invariant
                i <= self.managed@.len(),
                self.wf(),
                panel_problem(panel) is None,
                devices == self.managed@.map_values(|entry: (String, ManagedNetworkSurface)| entry.1),
                forall|j: int|
                    0 <= j < i ==> !((#[trigger] self.managed@[j]).1.active_panel_id matches Some(id) && id@
                        == panel.panel_id@ && !compatible(self.managed@[j].1, panel)),
                repaint@.map_values(|id: SurfaceId| id@) == showing_panel(devices.take(i as int), panel.panel_id@),
            decreases self.managed.len() - i,
        {
            let device = &self.managed[i].1;
            assert(devices.take(i + 1).drop_last() =~= devices.take(i as int));
            assert(devices.take(i + 1).last() == *device);
            let shows = match &device.active_panel_id {
                Some(id) => str_eq(id.0.as_str(), panel.panel_id.0.as_str()),
                None => false,
            };
            if shows {
                if !is_compatible(device, &panel) {
                    proof {
                        lemma_keyed_at(self.managed@, i as int);
                        let k = self.managed@[i as int].0@;
                        assert(self.devices().dom().contains(k));
                    }
                    return Err(owned("panel is incompatible with a device it is assigned to"));
                }
                let ghost before = repaint@;
                repaint.push(device.surface_id.clone());
                assert(repaint@.map_values(|id: SurfaceId| id@) =~= before.map_values(|id: SurfaceId| id@).push(
                    device.surface_id@,
                ));
            }
            i += 1;
        }
        proof {
            assert(devices.take(i as int) =~= devices);
            if assigned_elsewhere_incompatible(self.devices(), panel) {
                let k = choose|k: Seq<char>|
                    #[trigger] self.devices().dom().contains(k) && (self.devices()[k].active_panel_id matches Some(id) && id@
                        == panel.panel_id@ && !compatible(self.devices()[k], panel));
                lemma_keyed_dom(self.managed@, k);
                let j = choose|j: int| 0 <= j < self.managed@.len() && (#[trigger] self.managed@[j]).0@ == k;
                lemma_keyed_at(self.managed@, j);
                assert(false);
            }
        }
        let found = position_of(&self.panels, panel.panel_id.0.as_str());
        let key = panel.panel_id.0.clone();
        let ghost listed = self.panel_list();
        let ghost stored_panel = panel;
        put_at(&mut self.panels, found, key, panel);
        proof {
            match found {
                Some(i) => {
                    assert(self.panel_list() =~= listed.update(i as int, stored_panel));
                },
                None => {
                    assert(self.panel_list() =~= listed.push(stored_panel));
                },
            }
        }
        Ok(repaint)
    }
}

/// Whether two found devices are the same announcement.
pub open spec fn same_discovery(a: DiscoveredNetworkSurface, b: DiscoveredNetworkSurface) -> bool {
    &&& a.discovery_id@ == b.discovery_id@
    &&& a.name@ == b.name@
    &&& a.host@ == b.host@
    &&& a.port == b.port
    &&& option_view(a.serial_number) == option_view(b.serial_number)
    &&& a.model@ == b.model@
}

fn same_optional_text(a: &Option<String>, b: &Option<String>) -> (same: bool)
    ensures
        same == (option_view(*a) == option_view(*b)),
{
    match (a, b) {
        (Some(x), Some(y)) => str_eq(x.as_str(), y.as_str()),
        (None, None) => true,
        _ => false,
    }
}

fn discovery_equal(a: &DiscoveredNetworkSurface, b: &DiscoveredNetworkSurface) -> (same: bool)
    ensures
        same == same_discovery(*a, *b),
{
    str_eq(a.discovery_id.as_str(), b.discovery_id.as_str()) && str_eq(a.name.as_str(), b.name.as_str()) && str_eq(
        a.host.as_str(),
        b.host.as_str(),
    ) && a.port == b.port && same_optional_text(&a.serial_number, &b.serial_number) && str_eq(
        a.model.as_str(),
        b.model.as_str(),
    )
}

/// What a status reads as in a device's log.
pub open spec fn status_label_spec(status: NetworkSurfaceStatus) -> Seq<char> {
    match status {
        NetworkSurfaceStatus::Connecting => "connecting"@,
        NetworkSurfaceStatus::Connected => "connected"@,
        NetworkSurfaceStatus::Unavailable => "unavailable"@,
        NetworkSurfaceStatus::Disabled => "disabled"@,
    }
}

/// What a status reads as in a device's log.
pub fn status_label(status: &NetworkSurfaceStatus) -> (label: &'static str)
    ensures
        label@ == status_label_spec(*status),
{
    match status {
        NetworkSurfaceStatus::Connecting => "connecting",
        NetworkSurfaceStatus::Connected => "connected",
        NetworkSurfaceStatus::Unavailable => "unavailable",
        NetworkSurfaceStatus::Disabled => "disabled",
    }
}

/// The log message for a status change: the status, and the error when
/// there is one.
pub open spec fn status_message(status: NetworkSurfaceStatus, last_error: Option<Seq<char>>) -> Seq<char> {
    match last_error {
        Some(error) => status_label_spec(status) + ": "@ + error,
        None => status_label_spec(status),
    }
}

/// The first device listed at an endpoint.
pub open spec fn at_endpoint(devices: Seq<ManagedNetworkSurface>, host: Seq<char>, port: u16) -> Option<int>
    decreases devices.len(),
{
    if devices.len() == 0 {
        None
    } else {
        match at_endpoint(devices.drop_last(), host, port) {
            Some(i) => Some(i),
            None => if devices.last().host@ == host && devices.last().port == port {
                Some(devices.len() - 1)
            } else {
                None
            },
        }
    }
}

proof fn lemma_endpoint_prefix(devices: Seq<ManagedNetworkSurface>, n: int, host: Seq<char>, port: u16)
    requires
        0 <= n <= devices.len(),
        at_endpoint(devices.take(n), host, port) is Some,
    ensures
        at_endpoint(devices, host, port) == at_endpoint(devices.take(n), host, port),
    decreases devices.len() - n,
{
    if n < devices.len() {
        assert(devices.take(n + 1).drop_last() =~= devices.take(n));
        lemma_endpoint_prefix(devices, n + 1, host, port);
    } else {
        assert(devices.take(n) =~= devices);
    }
}

impl SurfaceRegistry {
    /// Every device, in the order the registry keeps them.
    pub fn managed_surfaces(&self) -> (devices: Vec<&ManagedNetworkSurface>)
        ensures
            devices@.len() == self.device_list().len(),
            forall|i: int| 0 <= i < devices@.len() ==> *(#[trigger] devices@[i]) == self.device_list()[i],
    {
        let mut devices: Vec<&ManagedNetworkSurface> = Vec::new();
        let mut i: usize = 0;
        while i < self.managed.len()
            invariant
                i <= self.managed@.len(),
                devices@.len() == i,
                forall|j: int| 0 <= j < i ==> *(#[trigger] devices@[j]) == self.managed@[j].1,
            decreases self.managed.len() - i,
        {
            devices.push(&self.managed[i].1);
            i += 1;
        }
        devices
    }

    /// Every panel, in the order the registry keeps them.
    pub fn panels(&self) -> (panels: Vec<&Panel>)
        ensures
            panels@.len() == self.panel_list().len(),
            forall|i: int| 0 <= i < panels@.len() ==> *(#[trigger] panels@[i]) == self.panel_list()[i],
    {
        let mut panels: Vec<&Panel> = Vec::new();
        let mut i: usize = 0;
        while i < self.panels.len()
            invariant
                i <= self.panels@.len(),
                panels@.len() == i,
                forall|j: int| 0 <= j < i ==> *(#[trigger] panels@[j]) == self.panels@[j].1,
            decreases self.panels.len() - i,
        {
            panels.push(&self.panels[i].1);
            i += 1;
        }
        panels
    }

    /// The first device at an endpoint.
    pub fn managed_by_endpoint(&self, host: &str, port: u16) -> (found: Option<&ManagedNetworkSurface>)
        ensures
            match found {
                Some(device) => at_endpoint(self.device_list(), host@, port) matches Some(i) && *device
                    == self.device_list()[i],
                None => at_endpoint(self.device_list(), host@, port) is None,
            },
    {
        let ghost devices = self.device_list();
        let mut i: usize = 0;
        assert(devices.take(0) =~= Seq::<ManagedNetworkSurface>::empty());
        while i < self.managed.len()
            invariant
                i <= self.managed@.len(),
                devices == self.device_list(),
                devices.len() == self.managed@.len(),
                at_endpoint(devices.take(i as int), host@, port) is None,
            decreases self.managed.len() - i,
        {
            assert(devices.take(i + 1).drop_last() =~= devices.take(i as int));
            assert(devices.take(i + 1).last() == self.managed@[i as int].1);
            if self.managed[i].1.port == port && str_eq(self.managed[i].1.host.as_str(), host) {
                proof {
                    lemma_endpoint_prefix(devices, i + 1, host@, port);
                }
                return Some(&self.managed[i].1);
            }
            i += 1;
        }
        assert(devices.take(i as int) =~= devices);
        None
    }

    /// Whether a device is managed at an endpoint.
    pub fn has_managed_endpoint(&self, host: &str, port: u16) -> (found: bool)
        ensures
            found == at_endpoint(self.device_list(), host@, port) is Some,
    {
        self.managed_by_endpoint(host, port).is_some()
    }

    /// The device found on the network under `discovery_id`.
    pub fn discovered(&self, discovery_id: &str) -> (found: Option<&DiscoveredNetworkSurface>)
        requires
            self.wf(),
        ensures
            match found {
                Some(surface) => self.discovered_map().dom().contains(discovery_id@) && *surface
                    == self.discovered_map()[discovery_id@],
                None => !self.discovered_map().dom().contains(discovery_id@),
            },
    {
        let found = position_of(&self.discovered, discovery_id);
        proof {
            lemma_found(self.discovered@, discovery_id@, found);
        }
        match found {
            Some(i) => Some(&self.discovered[i].1),
            None => None,
        }
    }

    /// Records a device found on the network. Answers whether that is news:
    /// the network re-announces a device periodically, and an announcement
    /// that says what the last one said changes nothing worth telling.
    pub fn upsert_discovered(&mut self, surface: DiscoveredNetworkSurface) -> (changed: bool)
        requires
            old(self).wf(),
        ensures
            final(self).wf(),
            final(self).rendered_view() == old(self).rendered_view(),
            final(self).keeps_activity(old(self)),
            final(self).devices() == old(self).devices(),
            final(self).panel_map() == old(self).panel_map(),
            final(self).surface_counter() == old(self).surface_counter(),
            final(self).panel_counter() == old(self).panel_counter(),
            final(self).discovered_map() == old(self).discovered_map().insert(surface.discovery_id@, surface),
            changed == !(old(self).discovered_map().dom().contains(surface.discovery_id@) && same_discovery(
                old(self).discovered_map()[surface.discovery_id@],
                surface,
            )),
    {
        let found = position_of(&self.discovered, surface.discovery_id.as_str());
        proof {
            lemma_found(self.discovered@, surface.discovery_id@, found);
        }
        let changed = match found {
            Some(i) => !discovery_equal(&self.discovered[i].1, &surface),
            None => true,
        };
        let key = surface.discovery_id.clone();
        put_at(&mut self.discovered, found, key, surface);
        changed
    }

    /// Forgets a device found on the network. Answers whether it was known.
    pub fn remove_discovered(&mut self, discovery_id: &str) -> (removed: bool)
        requires
            old(self).wf(),
        ensures
            final(self).wf(),
            final(self).rendered_view() == old(self).rendered_view(),
            final(self).keeps_activity(old(self)),
            final(self).devices() == old(self).devices(),
            final(self).panel_map() == old(self).panel_map(),
            final(self).surface_counter() == old(self).surface_counter(),
            final(self).panel_counter() == old(self).panel_counter(),
            final(self).discovered_map() == old(self).discovered_map().remove(discovery_id@),
            removed == old(self).discovered_map().dom().contains(discovery_id@),
    {
        let found = position_of(&self.discovered, discovery_id);
        proof {
            lemma_found(self.discovered@, discovery_id@, found);
        }
        match found {
            Some(i) => {
                remove_at(&mut self.discovered, i);
                true
            },
            None => {
                proof {
                    crate::keyed::lemma_keyed_absent(self.discovered@, discovery_id@);
                }
                false
            },
        }
    }

    /// Starts managing a device, in place of one with its id. Hands back a
    /// copy of it.
    pub fn add_managed(&mut self, surface: ManagedNetworkSurface) -> (added: ManagedNetworkSurface)
        requires
            old(self).wf(),
        ensures
            final(self).wf(),
            final(self).rendered_view() == old(self).rendered_view(),
            final(self).keeps_activity(old(self)),
            final(self).panel_map() == old(self).panel_map(),
            final(self).discovered_map() == old(self).discovered_map(),
            final(self).surface_counter() == old(self).surface_counter(),
            final(self).panel_counter() == old(self).panel_counter(),
            final(self).devices() == old(self).devices().insert(surface.surface_id@, surface),
            same_device(added, surface),
            final(self).dock_map() == old(self).dock_map(),
    {
        let copy = surface.clone();
        let found = position_of(&self.managed, surface.surface_id.0.as_str());
        let key = surface.surface_id.0.clone();
        put_at(&mut self.managed, found, key, surface);
        copy
    }

    /// Forgets what a device was showing and where its dials stood, so that
    /// once it is back everything is sent to it afresh.
    pub fn deactivate(&mut self, surface_id: &str)
        requires
            old(self).wf(),
        ensures
            final(self).wf(),
            final(self).keeps_configuration(old(self)),
            final(self).dial_position_map() == other_surfaces(old(self).dial_position_map(), surface_id@),
            final(self).dial_press_map() == other_surfaces(old(self).dial_press_map(), surface_id@),
            forall|key: LedgerKey|
                #[trigger] final(self).rendered_view().contains_key(key) == (old(self).rendered_view().contains_key(key)
                    && key.0 != surface_id@),
            forall|key: LedgerKey|
                #[trigger] final(self).rendered_view().contains_key(key) ==> final(self).rendered_view()[key]
                    == old(self).rendered_view()[key],
            final(self).key_state_map() == old(self).key_state_map(),
            final(self).pressed_control_map() == old(self).pressed_control_map(),
            final(self).dismissed_keys() == old(self).dismissed_keys(),
            final(self).recent_events() == old(self).recent_events(),
            final(self).log_map() == old(self).log_map(),
            final(self).log_counter() == old(self).log_counter(),
            final(self).device_list() == old(self).device_list(),
            final(self).panel_list() == old(self).panel_list(),
            final(self).dock_map() == old(self).dock_map(),
    {
        self.reset_dial_positions(surface_id);
        self.rendered.forget(surface_id);
    }

    /// Stops managing a device, forgetting what it showed. Hands it back;
    /// nothing when there was no such device.
    pub fn remove_managed(&mut self, surface_id: &str) -> (removed: Option<ManagedNetworkSurface>)
        requires
            old(self).wf(),
        ensures
            final(self).wf(),
            final(self).devices() == old(self).devices().remove(surface_id@),
            match removed {
                Some(device) => old(self).devices().dom().contains(surface_id@) && device == old(self).devices()[surface_id@],
                None => !old(self).devices().dom().contains(surface_id@),
            },
            final(self).panel_map() == old(self).panel_map(),
            final(self).discovered_map() == old(self).discovered_map(),
            final(self).dial_position_map() == other_surfaces(old(self).dial_position_map(), surface_id@),
            final(self).dial_press_map() == other_surfaces(old(self).dial_press_map(), surface_id@),
            final(self).key_state_map() == old(self).key_state_map(),
            final(self).log_map() == old(self).log_map(),
            final(self).pressed_control_map() == old(self).pressed_control_map(),
            final(self).dismissed_keys() == old(self).dismissed_keys(),
            final(self).recent_events() == old(self).recent_events(),
            final(self).log_counter() == old(self).log_counter(),
            final(self).surface_counter() == old(self).surface_counter(),
            final(self).panel_counter() == old(self).panel_counter(),
            final(self).dock_map() == old(self).dock_map(),
            forall|key: LedgerKey|
                #[trigger] final(self).rendered_view().contains_key(key) == (old(self).rendered_view().contains_key(key)
                    && key.0 != surface_id@),
            forall|key: LedgerKey|
                #[trigger] final(self).rendered_view().contains_key(key) ==> final(self).rendered_view()[key]
                    == old(self).rendered_view()[key],
    {
        self.deactivate(surface_id);
        let found = position_of(&self.managed, surface_id);
        proof {
            lemma_found(self.managed@, surface_id@, found);
        }
        let ghost rendered = self.rendered_view();
        match found {
            Some(i) => {
                let (_, device) = remove_at(&mut self.managed, i);
                assert(self.rendered_view() == rendered);
                Some(device)
            },
            None => {
                proof {
                    crate::keyed::lemma_keyed_absent(self.managed@, surface_id@);
                }
                None
            },
        }
    }

    /// Turns a device on or off. Turning it off forgets what it showed; its
    /// status becomes connecting or disabled, with no error. Hands back the
    /// device as it now is; nothing when there is no such device.
    pub fn set_enabled(&mut self, surface_id: &str, is_enabled: bool) -> (changed: Option<ManagedNetworkSurface>)
        requires
            old(self).wf(),
        ensures
            final(self).wf(),
            final(self).panel_map() == old(self).panel_map(),
            final(self).discovered_map() == old(self).discovered_map(),
            final(self).key_state_map() == old(self).key_state_map(),
            final(self).log_map() == old(self).log_map(),
            is_enabled ==> final(self).dial_position_map() == old(self).dial_position_map(),
            !is_enabled ==> final(self).dial_position_map() == other_surfaces(old(self).dial_position_map(), surface_id@),
            !old(self).devices().dom().contains(surface_id@) ==> changed is None && final(self).devices() == old(self).devices(),
            old(self).devices().dom().contains(surface_id@) ==> {
                let device = old(self).devices()[surface_id@];
                let after = ManagedNetworkSurface {
                    is_enabled,
                    status: if is_enabled {
                        NetworkSurfaceStatus::Connecting
                    } else {
                        NetworkSurfaceStatus::Disabled
                    },
                    last_error: None,
                    ..device
                };
                &&& final(self).devices() == old(self).devices().insert(surface_id@, after)
                &&& changed matches Some(d) && same_device(d, after)
            },
    {
        if !is_enabled {
            self.deactivate(surface_id);
        }
        let found = position_of(&self.managed, surface_id);
        proof {
            lemma_found(self.managed@, surface_id@, found);
        }
        let i = match found {
            Some(i) => i,
            None => return None,
        };
        let (key, mut device) = self.take_device(i);
        device.is_enabled = is_enabled;
        device.status = if is_enabled {
            NetworkSurfaceStatus::Connecting
        } else {
            NetworkSurfaceStatus::Disabled
        };
        device.last_error = None;
        let copy = device.clone();
        self.restore_device(key, device);
        Some(copy)
    }

    /// Records what a device says it is. Answers whether that changed
    /// anything.
    pub fn set_identity(&mut self, surface_id: &SurfaceId, model: String, layout: SurfaceLayout) -> (changed: bool)
        requires
            old(self).wf(),
        ensures
            final(self).wf(),
            final(self).rendered_view() == old(self).rendered_view(),
            final(self).keeps_activity(old(self)),
            final(self).panel_map() == old(self).panel_map(),
            final(self).discovered_map() == old(self).discovered_map(),
            final(self).surface_counter() == old(self).surface_counter(),
            final(self).panel_counter() == old(self).panel_counter(),
            !old(self).devices().dom().contains(surface_id@) ==> !changed && final(self).devices() == old(self).devices(),
            old(self).devices().dom().contains(surface_id@) ==> {
                let device = old(self).devices()[surface_id@];
                &&& final(self).devices() == old(self).devices().insert(
                    surface_id@,
                    ManagedNetworkSurface { model, layout, ..device },
                )
                &&& changed == (device.model@ != model@ || device.layout != layout)
            },
    {
        let found = position_of(&self.managed, surface_id.0.as_str());
        proof {
            lemma_found(self.managed@, surface_id@, found);
        }
        let i = match found {
            Some(i) => i,
            None => return false,
        };
        let (key, mut device) = self.take_device(i);
        let changed = !str_eq(device.model.as_str(), model.as_str()) || device.layout != layout;
        device.model = model;
        device.layout = layout;
        self.restore_device(key, device);
        changed
    }

    /// Records a device's connection status. When that changes anything, it
    /// is logged, as a warning when there is an error, and answered true.
    pub fn update_status(
        &mut self,
        surface_id: &SurfaceId,
        status: NetworkSurfaceStatus,
        last_error: Option<String>,
        at_ms: u64,
    ) -> (changed: bool)
        requires
            old(self).wf(),
        ensures
            final(self).wf(),
            final(self).rendered_view() == old(self).rendered_view(),
            final(self).panel_map() == old(self).panel_map(),
            final(self).discovered_map() == old(self).discovered_map(),
            final(self).key_state_map() == old(self).key_state_map(),
            final(self).dial_position_map() == old(self).dial_position_map(),
            !old(self).devices().dom().contains(surface_id@) ==> !changed && final(self).devices() == old(self).devices()
                && final(self).log_map() == old(self).log_map(),
            old(self).devices().dom().contains(surface_id@) ==> {
                let device = old(self).devices()[surface_id@];
                &&& final(self).devices() == old(self).devices().insert(
                    surface_id@,
                    ManagedNetworkSurface { status, last_error, ..device },
                )
                &&& changed == (device.status != status || option_view(device.last_error) != option_view(last_error))
                &&& !changed ==> final(self).log_map() == old(self).log_map()
                &&& changed ==> final(self).log_map().dom().contains(surface_id@) && final(self).log_map()[surface_id@]@.len()
                    > 0 && final(self).log_map()[surface_id@]@.last().message@ == status_message(status, option_view(last_error))
                    && final(self).log_map()[surface_id@]@.last().level == (if last_error is Some {
                    SurfaceLogLevel::Warning
                } else {
                    SurfaceLogLevel::Info
                })
            },
    {
        let found = position_of(&self.managed, surface_id.0.as_str());
        proof {
            lemma_found(self.managed@, surface_id@, found);
        }
        let i = match found {
            Some(i) => i,
            None => return false,
        };
        let (key, mut device) = self.take_device(i);
        let changed = device.status != status || !same_optional_text(&device.last_error, &last_error);
        let (level, message) = match &last_error {
            Some(error) => {
                let mut message = owned(status_label(&status));
                message.push_str(": ");
                message.push_str(error.as_str());
                (SurfaceLogLevel::Warning, message)
            },
            None => (SurfaceLogLevel::Info, owned(status_label(&status))),
        };
        device.status = status;
        device.last_error = last_error;
        let id = device.surface_id.clone();
        self.restore_device(key, device);
        if changed {
            self.log(&id, level, message, at_ms);
        }
        changed
    }

    /// Records whether what a key is about to be told to show differs from
    /// what it was last told; only then is it worth sending.
    pub fn record_rendering(&mut self, surface_id: &SurfaceId, rendering: &KeyRendering) -> (changed: bool)
        requires
            old(self).wf(),
        ensures
            final(self).wf(),
            final(self).keeps_configuration(old(self)),
            final(self).rendered_view() == old(self).rendered_view().insert((surface_id@, rendering.key_index), rendering@),
            changed == is_news(old(self).rendered_view(), (surface_id@, rendering.key_index), rendering@),
            final(self).key_state_map() == old(self).key_state_map(),
            final(self).log_map() == old(self).log_map(),
            final(self).dial_position_map() == old(self).dial_position_map(),
    {
        self.rendered.record(surface_id.0.as_str(), rendering)
    }

    /// Forgets what every key was last told to show, so that every next
    /// repaint is sent.
    pub fn forget_renderings(&mut self)
        requires
            old(self).wf(),
        ensures
            final(self).wf(),
            final(self).keeps_configuration(old(self)),
            final(self).rendered_view() == Map::<LedgerKey, (u8, Seq<LayerView>, bool)>::empty(),
            final(self).key_state_map() == old(self).key_state_map(),
            final(self).log_map() == old(self).log_map(),
            final(self).dial_position_map() == old(self).dial_position_map(),
    {
        self.rendered.forget_all();
    }
}

/// The slate colour an automatically provisioned key is drawn on.
pub open spec fn slate() -> RgbaColor {
    RgbaColor { red: 30, green: 41, blue: 59, alpha: 255 }
}

/// Whether `control` is the automatically provisioned key at (`column`,
/// `row`) of a grid `columns` wide: labelled with its index in white on
/// slate.
pub open spec fn is_auto_control(control: Control, column: u16, row: u16, columns: u16) -> bool {
    let index = row * columns + column;
    &&& control.control_id@ == "auto-"@ + decimal(row as nat) + "-"@ + decimal(column as nat)
    &&& control.name@ == "Key "@ + decimal(index as nat)
    &&& control.position == (SurfacePosition { column, row })
    &&& control.default_state.text is Some
    &&& control.default_state.text->0@ == decimal(index as nat)
    &&& control.default_state.foreground_color == Some(
        crate::panels::ColorBinding::Literal(RgbaColor { red: 255, green: 255, blue: 255, alpha: 255 }),
    )
    &&& control.default_state.background_color == Some(crate::panels::ColorBinding::Literal(slate()))
    &&& control.default_state.image is None
    &&& control.default_state.overlay_image is None
    &&& control.default_state.image_tint is None
    &&& control.default_state.bar is None
    &&& control.default_state.border is None
    &&& !control.default_state.is_pressed
    &&& control.pressed_state is None
    &&& control.action_bindings@.len() == 0
}

/// Whether `panel` is the one provisioned for a grid `columns` by `rows`:
/// every key labelled with its index, row by row.
pub open spec fn is_auto_panel(panel: Panel, id: Seq<char>, columns: u16, rows: u16) -> bool {
    &&& panel.panel_id@ == id
    &&& panel.name@ == "Auto "@ + decimal(columns as nat) + "x"@ + decimal(rows as nat)
    &&& panel.layout == (PanelLayout { columns, rows })
    &&& panel.capabilities == (SurfaceCapabilities {
        supports_color: true,
        supports_images: true,
        supports_text: true,
        supports_brightness: true,
        supports_haptics: false,
    })
    &&& panel.controls@.len() == rows * columns
    &&& forall|i: int|
        0 <= i < panel.controls@.len() ==> is_auto_control(
            #[trigger] panel.controls@[i],
            (i % columns as int) as u16,
            (i / columns as int) as u16,
            columns,
        )
    &&& panel.dial_colors@.len() == 0
    &&& panel.dial_ring_levels@.len() == 0
}

/// The first panel laid out `columns` by `rows`.
pub open spec fn panel_with_layout(panels: Seq<Panel>, columns: u16, rows: u16) -> Option<int>
    decreases panels.len(),
{
    if panels.len() == 0 {
        None
    } else {
        match panel_with_layout(panels.drop_last(), columns, rows) {
            Some(i) => Some(i),
            None => if panels.last().layout == (PanelLayout { columns, rows }) {
                Some(panels.len() - 1)
            } else {
                None
            },
        }
    }
}

/// The first panel laid out `columns` by `rows` is laid out so, and there is
/// none exactly when no panel is.
proof fn lemma_layout_found(panels: Seq<Panel>, columns: u16, rows: u16)
    ensures
        panel_with_layout(panels, columns, rows) matches Some(i) ==> 0 <= i < panels.len()
            && panels[i].layout == (PanelLayout { columns, rows }),
        panel_with_layout(panels, columns, rows) is None <==> forall|j: int|
            0 <= j < panels.len() ==> (#[trigger] panels[j]).layout != (PanelLayout { columns, rows }),
    decreases panels.len(),
{
    if panels.len() > 0 {
        let prefix = panels.drop_last();
        lemma_layout_found(prefix, columns, rows);
        assert forall|j: int| 0 <= j < prefix.len() implies #[trigger] prefix[j] == panels[j] by {}
        if panel_with_layout(prefix, columns, rows) is None && panels.last().layout != (PanelLayout { columns, rows }) {
            assert forall|j: int| 0 <= j < panels.len() implies (#[trigger] panels[j]).layout != (PanelLayout {
                columns,
                rows,
            }) by {
                if j < prefix.len() {
                    assert(prefix[j] == panels[j]);
                }
            }
        }
        match panel_with_layout(prefix, columns, rows) {
            Some(i) => {
                assert(prefix[i] == panels[i]);
            },
            None => {},
        }
    }
}

proof fn lemma_layout_prefix(panels: Seq<Panel>, n: int, columns: u16, rows: u16)
    requires
        0 <= n <= panels.len(),
        panel_with_layout(panels.take(n), columns, rows) is Some,
    ensures
        panel_with_layout(panels, columns, rows) == panel_with_layout(panels.take(n), columns, rows),
    decreases panels.len() - n,
{
    if n < panels.len() {
        assert(panels.take(n + 1).drop_last() =~= panels.take(n));
        lemma_layout_prefix(panels, n + 1, columns, rows);
    } else {
        assert(panels.take(n) =~= panels);
    }
}

/// Whether a device assigned panel `id` cannot show the panel provisioned for a
/// grid `columns` by `rows`: its layout is another, or it lacks a capability
/// of a Studio.
pub open spec fn auto_panel_refused(
    devices: Map<Seq<char>, ManagedNetworkSurface>,
    id: Seq<char>,
    columns: u16,
    rows: u16,
) -> bool {
    exists|k: Seq<char>|
        #[trigger] devices.dom().contains(k) && (devices[k].active_panel_id matches Some(a) && a@ == id && !(
        devices[k].layout == (SurfaceLayout::Grid { columns, rows }) && supports_spec(
            devices[k].capabilities,
            SurfaceCapabilities {
                supports_color: true,
                supports_images: true,
                supports_text: true,
                supports_brightness: true,
                supports_haptics: false,
            },
        )))
}

/// The last character of a decimal numeral is a digit.
proof fn lemma_decimal_ends_in_digit(n: nat)
    ensures
        decimal(n).len() > 0,
        !crate::text::is_whitespace(decimal(n).last()),
    decreases n,
{
    if n >= 10 {
        lemma_decimal_ends_in_digit(n / 10);
    }
    let d = n % 10;
    assert(crate::text::digit(d) as u32 == d + 48);
}

/// The name of a provisioned panel is never blank.
proof fn lemma_auto_name_not_blank(columns: u16, rows: u16)
    ensures
        trim_ws("Auto "@ + decimal(columns as nat) + "x"@ + decimal(rows as nat)).len() > 0,
{
    reveal_strlit("Auto ");
    reveal_strlit("x");
    let name = "Auto "@ + decimal(columns as nat) + "x"@ + decimal(rows as nat);
    lemma_decimal_ends_in_digit(columns as nat);
    lemma_decimal_ends_in_digit(rows as nat);
    assert(name[0] == 'A');
    assert(name.last() == decimal(rows as nat).last());
    crate::text::lemma_trim_ws_of_word(name);
}

/// Keys placed row by row, one per cell of a grid, never leave the grid and
/// never share a cell.
proof fn lemma_auto_controls_placed(controls: Seq<Control>, columns: u16, rows: u16, n: int)
    requires
        columns > 0,
        0 <= n <= controls.len(),
        controls.len() == rows * columns,
        forall|k: int|
            0 <= k < controls.len() ==> is_auto_control(
                #[trigger] controls[k],
                (k % columns as int) as u16,
                (k / columns as int) as u16,
                columns,
            ),
    ensures
        controls_problem(controls.take(n), columns, rows) is None,
    decreases n,
{
    if n > 0 {
        lemma_auto_controls_placed(controls, columns, rows, n - 1);
        let t = controls.take(n);
        assert(t.drop_last() =~= controls.take(n - 1));
        let k = n - 1;
        let c = columns as int;
        assert(0 <= k % c < c && 0 <= k / c < rows) by (nonlinear_arith)
            requires
                0 <= k < rows * c,
                c > 0,
        ;
        assert(t.last() == controls[k]);
        assert forall|j: int| 0 <= j < t.len() - 1 implies (#[trigger] t[j]).position != t.last().position by {
            assert(t[j] == controls[j]);
            assert(0 <= j % c < c && 0 <= j / c < rows) by (nonlinear_arith)
                requires
                    0 <= j < rows * c,
                    c > 0,
            ;
            if t[j].position == t.last().position {
                assert(j % c == k % c);
                assert(j / c == k / c);
                vstd::arithmetic::div_mod::lemma_fundamental_div_mod(j, c);
                vstd::arithmetic::div_mod::lemma_fundamental_div_mod(k, c);
                assert(j == k);
            }
        }
    }
}

/// A provisioned panel with both sides non-zero is one `upsert_panel` finds
/// nothing wrong with.
proof fn lemma_auto_panel_sound(panel: Panel, id: Seq<char>, columns: u16, rows: u16)
    requires
        is_auto_panel(panel, id, columns, rows),
    ensures
        panel_problem(panel) is None <==> (columns > 0 && rows > 0),
{
    lemma_auto_name_not_blank(columns, rows);
    if columns > 0 && rows > 0 {
        lemma_auto_controls_placed(panel.controls@, columns, rows, panel.controls@.len() as int);
        assert(panel.controls@.take(panel.controls@.len() as int) =~= panel.controls@);
    }
}

/// The key provisioned at (`column`, `row`) of a grid `columns` wide.
fn auto_control(column: u16, row: u16, columns: u16) -> (control: Control)
    requires
        row as int * columns as int + column as int <= u16::MAX,
    ensures
        is_auto_control(control, column, row, columns),
{
    let index: u16 = row * columns + column;
    let mut control_id = owned("auto-");
    control_id.push_str(decimal_text(row as u64).as_str());
    control_id.push_str("-");
    control_id.push_str(decimal_text(column as u64).as_str());
    let label = decimal_text(index as u64);
    let mut name = owned("Key ");
    name.push_str(label.as_str());
    Control {
        control_id: ControlId(control_id),
        name,
        position: SurfacePosition { column, row },
        default_state: RenderedState::labelled(
            label.as_str(),
            RgbaColor::opaque(255, 255, 255),
            RgbaColor::opaque(30, 41, 59),
            false,
        ),
        pressed_state: None,
        action_bindings: Vec::new(),
    }
}

impl SurfaceRegistry {
    /// A fresh device id: the next number after the highest handed out.
    pub fn create_surface_id(&mut self) -> (id: SurfaceId)
        requires
            old(self).wf(),
            old(self).surface_counter() < u64::MAX,
        ensures
            final(self).wf(),
            final(self).rendered_view() == old(self).rendered_view(),
            final(self).keeps_activity(old(self)),
            final(self).devices() == old(self).devices(),
            final(self).panel_map() == old(self).panel_map(),
            final(self).discovered_map() == old(self).discovered_map(),
            final(self).panel_counter() == old(self).panel_counter(),
            final(self).surface_counter() == old(self).surface_counter() + 1,
            id@ == "stream-deck-studio-"@ + decimal(final(self).surface_counter() as nat),
            final(self).dock_map() == old(self).dock_map(),
    {
        self.next_surface_number = self.next_surface_number + 1;
        let mut id = owned("stream-deck-studio-");
        id.push_str(decimal_text(self.next_surface_number).as_str());
        SurfaceId(id)
    }

    /// Whether another device id and another panel id can still be numbered.
    pub fn has_fresh_ids(&self) -> (fresh: bool)
        ensures
            fresh == (self.surface_counter() < u64::MAX && self.panel_counter() < u64::MAX),
    {
        self.next_surface_number < u64::MAX && self.next_panel_number < u64::MAX
    }

    /// A fresh panel id: the next number after the highest handed out.
    pub fn create_panel_id(&mut self) -> (id: PanelId)
        requires
            old(self).wf(),
            old(self).panel_counter() < u64::MAX,
        ensures
            final(self).wf(),
            final(self).rendered_view() == old(self).rendered_view(),
            final(self).keeps_activity(old(self)),
            final(self).devices() == old(self).devices(),
            final(self).panel_map() == old(self).panel_map(),
            final(self).discovered_map() == old(self).discovered_map(),
            final(self).surface_counter() == old(self).surface_counter(),
            final(self).panel_counter() == old(self).panel_counter() + 1,
            id@ == "studio-panel-"@ + decimal(final(self).panel_counter() as nat),
            final(self).dock_map() == old(self).dock_map(),
            final(self).panel_list() == old(self).panel_list(),
    {
        self.next_panel_number = self.next_panel_number + 1;
        let mut id = owned("studio-panel-");
        id.push_str(decimal_text(self.next_panel_number).as_str());
        PanelId(id)
    }

    /// The panel for a grid layout: the first one laid out that way, else a
    /// new one with every key labelled by its index, stored under a fresh id.
    /// Nothing for a layout that is not a grid, or when the new panel cannot
    /// be stored: a side is zero, or a device assigned the new id cannot show
    /// it. Asked again for the same grid it finds the same panel. A key's
    /// index is a `u16` worked out as `row * columns + column`, so a grid of
    /// more keys than that holds is left out.
    pub fn ensure_default_panel_for_layout(&mut self, layout: &SurfaceLayout) -> (found: Option<PanelId>)
        requires
            old(self).wf(),
            old(self).panel_counter() < u64::MAX,
            layout matches SurfaceLayout::Grid { columns, rows } ==> columns as int * rows as int <= u16::MAX + 1,
        ensures
            final(self).wf(),
            final(self).rendered_view() == old(self).rendered_view(),
            final(self).keeps_activity(old(self)),
            final(self).devices() == old(self).devices(),
            final(self).discovered_map() == old(self).discovered_map(),
            final(self).surface_counter() == old(self).surface_counter(),
            final(self).dock_map() == old(self).dock_map(),
            match *layout {
                SurfaceLayout::Grid { columns, rows } => match panel_with_layout(old(self).panel_list(), columns, rows) {
                    Some(i) => found == Some(old(self).panel_list()[i].panel_id) && final(self).panel_map()
                        == old(self).panel_map() && final(self).panel_counter() == old(self).panel_counter(),
                    None => final(self).panel_counter() == old(self).panel_counter() + 1 && {
                        let id = "studio-panel-"@ + decimal(final(self).panel_counter() as nat);
                        &&& (found is Some <==> (columns > 0 && rows > 0 && !auto_panel_refused(
                            old(self).devices(),
                            id,
                            columns,
                            rows,
                        )))
                        &&& match found {
                            Some(panel_id) => panel_id@ == id && final(self).panel_map().dom().contains(id)
                                && final(self).panel_map().remove(id) == old(self).panel_map().remove(id)
                                && is_auto_panel(final(self).panel_map()[id], id, columns, rows),
                            None => final(self).panel_map() == old(self).panel_map(),
                        }
                    },
                },
                SurfaceLayout::Freeform => found is None && final(self).panel_map() == old(self).panel_map()
                    && final(self).panel_counter() == old(self).panel_counter(),
            },
            *layout matches SurfaceLayout::Grid { columns, rows } ==> (found matches Some(panel_id) ==> (panel_with_layout(
                final(self).panel_list(),
                columns,
                rows,
            ) matches Some(i) && final(self).panel_list()[i].panel_id@ == panel_id@)),
    {
        let (columns, rows) = match layout {
            SurfaceLayout::Grid { columns, rows } => (*columns, *rows),
            SurfaceLayout::Freeform => return None,
        };
        let ghost panels = self.panel_list();
        let mut i: usize = 0;
        assert(panels.take(0) =~= Seq::<Panel>::empty());
        while i < self.panels.len()
            invariant
                i <= self.panels@.len(),
                *self == *old(self),
                *layout == (SurfaceLayout::Grid { columns, rows }),
                self.wf(),
                panels == self.panel_list(),
                panels.len() == self.panels@.len(),
                panel_with_layout(panels.take(i as int), columns, rows) is None,
            decreases self.panels.len() - i,
        {
            assert(panels.take(i + 1).drop_last() =~= panels.take(i as int));
            assert(panels.take(i + 1).last() == self.panels@[i as int].1);
            if self.panels[i].1.layout.columns == columns && self.panels[i].1.layout.rows == rows {
                proof {
                    assert(panel_with_layout(panels.take(i + 1), columns, rows) == Some(i as int));
                    lemma_layout_prefix(panels, i + 1, columns, rows);
                    assert(panels[i as int] == self.panels@[i as int].1);
                    assert(old(self).panel_list() == panels);
                    assert(panel_with_layout(old(self).panel_list(), columns, rows) == Some(i as int));
                }
                return Some(self.panels[i].1.panel_id.clone());
            }
            i += 1;
        }
        assert(panels.take(i as int) =~= panels);
        let mut controls: Vec<Control> = Vec::new();
        let mut row: u16 = 0;
        while row < rows
            invariant
                row <= rows,
                columns as int * rows as int <= u16::MAX + 1,
                controls@.len() == row * columns,
                forall|k: int|
                    0 <= k < controls@.len() ==> is_auto_control(
                        #[trigger] controls@[k],
                        (k % columns as int) as u16,
                        (k / columns as int) as u16,
                        columns,
                    ),
            decreases rows - row,
        {
            let mut column: u16 = 0;
            while column < columns
                invariant
                    row < rows,
                    column <= columns,
                    columns as int * rows as int <= u16::MAX + 1,
                    controls@.len() == row * columns + column,
                    forall|k: int|
                        0 <= k < controls@.len() ==> is_auto_control(
                            #[trigger] controls@[k],
                            (k % columns as int) as u16,
                            (k / columns as int) as u16,
                            columns,
                        ),
                decreases columns - column,
            {
                proof {
                    assert((row as int) * (columns as int) + (column as int) < (columns as int) * (rows as int)) by (nonlinear_arith)
                        requires
                            row < rows,
                            column < columns,
                    ;
                }
                let control = auto_control(column, row, columns);
                let ghost k = controls@.len() as int;
                proof {
                    assert(k == row as int * columns as int + column as int);
                    assert(k % columns as int == column as int && k / columns as int == row as int) by (nonlinear_arith)
                        requires
                            k == row as int * columns as int + column as int,
                            column < columns,
                            0 <= row,
                    ;
                }
                controls.push(control);
                column += 1;
            }
            proof {
                assert((row + 1) as int * columns as int == row as int * columns as int + columns as int) by (nonlinear_arith);
            }
            row += 1;
        }
        let panel_id = self.create_panel_id();
        let mut name = owned("Auto ");
        name.push_str(decimal_text(columns as u64).as_str());
        name.push_str("x");
        name.push_str(decimal_text(rows as u64).as_str());
        let panel = Panel {
            panel_id: panel_id.clone(),
            name,
            layout: PanelLayout { columns, rows },
            capabilities: studio_capabilities(),
            controls,
            dial_colors: Vec::new(),
            dial_ring_levels: Vec::new(),
        };
        let ghost made = panel;
        proof {
            assert(controls@.len() == rows as int * columns as int) by (nonlinear_arith)
                requires
                    controls@.len() == row * columns,
                    row == rows,
            ;
        }
        let ghost devices = self.devices();
        proof {
            lemma_auto_panel_sound(made, panel_id@, columns, rows);
            assert(assigned_elsewhere_incompatible(devices, made) == auto_panel_refused(devices, panel_id@, columns, rows));
        }
        let ghost listed = self.panel_list();
        proof {
            assert(listed == panels);
            lemma_layout_found(listed, columns, rows);
        }
        match self.upsert_panel(panel) {
            Ok(_) => {
                proof {
                    let now = self.panel_list();
                    lemma_layout_found(now, columns, rows);
                    let at = if now == listed.push(made) {
                        listed.len() as int
                    } else {
                        choose|i: int| 0 <= i < listed.len() && now == listed.update(i, made)
                    };
                    assert(now[at] == made);
                    assert(panel_with_layout(now, columns, rows) is Some);
                    let i = panel_with_layout(now, columns, rows)->0;
                    if i != at {
                        assert(now[i] == listed[i]);
                        assert(listed[i].layout != (PanelLayout { columns, rows }));
                        assert(false);
                    }
                }
                Some(panel_id)
            },
            Err(_) => None,
        }
    }
}

/// With every key listed once, the keys listed true are exactly the keys
/// the map holds true, each once.
proof fn lemma_true_keys<K: View>(entries: Seq<(K, bool)>)
    requires
        ids_unique(entries),
    ensures
        forall|k: K::V| #[trigger] true_keys(entries).contains(k) <==> (keyed(entries).dom().contains(k) && keyed(entries)[k]),
        true_keys(entries).no_duplicates(),
    decreases entries.len(),
{
    if entries.len() > 0 {
        let prefix = entries.drop_last();
        let last = entries.last();
        assert(ids_unique(prefix));
        lemma_true_keys(prefix);
        lemma_keyed_dom(prefix, last.0@);
        if keyed(prefix).dom().contains(last.0@) {
            let j = choose|j: int| 0 <= j < prefix.len() && (#[trigger] prefix[j]).0@ == last.0@;
            assert(entries[j].0@ != entries[entries.len() - 1].0@);
        }
        let before = true_keys(prefix);
        let after = true_keys(entries);
        if last.1 {
            assert(!before.contains(last.0@));
            assert forall|a: int, b: int| 0 <= a < after.len() && 0 <= b < after.len() && a != b implies after[a]
                != after[b] by {
                if a < before.len() && b < before.len() {
                    assert(after[a] == before[a] && after[b] == before[b]);
                } else if a < before.len() {
                    assert(after[a] == before[a]);
                    assert(before.contains(before[a]));
                } else {
                    assert(after[b] == before[b]);
                    assert(before.contains(before[b]));
                }
            }
        }
        assert forall|k: K::V| #[trigger] after.contains(k) <==> (keyed(entries).dom().contains(k) && keyed(entries)[k]) by {
            if last.1 {
                if after.contains(k) {
                    let i = choose|i: int| 0 <= i < after.len() && after[i] == k;
                    if i < before.len() {
                        assert(before[i] == k);
                    }
                }
                if before.contains(k) {
                    let i = choose|i: int| 0 <= i < before.len() && before[i] == k;
                    assert(after[i] == k);
                }
                if k == last.0@ {
                    assert(after[before.len() as int] == k);
                }
            }
        }
    }
}

/// With every surface listed once, a line is in some surface's log exactly
/// when it is among every log line.
proof fn lemma_all_lines(logs: Seq<(String, Vec<SurfaceLogEntry>)>, line: SurfaceLogEntry)
    requires
        ids_unique(logs),
    ensures
        all_lines(logs).contains(line) <==> exists|k: Seq<char>|
            #[trigger] keyed(logs).dom().contains(k) && keyed(logs)[k]@.contains(line),
    decreases logs.len(),
{
    if logs.len() > 0 {
        let prefix = logs.drop_last();
        let last = logs.last();
        assert(ids_unique(prefix));
        lemma_all_lines(prefix, line);
        lemma_keyed_dom(prefix, last.0@);
        if keyed(prefix).dom().contains(last.0@) {
            let j = choose|j: int| 0 <= j < prefix.len() && (#[trigger] prefix[j]).0@ == last.0@;
            assert(logs[j].0@ != logs[logs.len() - 1].0@);
        }
        let before = all_lines(prefix);
        let after = all_lines(logs);
        assert(after == before + last.1@);
        if after.contains(line) {
            let i = choose|i: int| 0 <= i < after.len() && after[i] == line;
            if i < before.len() {
                assert(before[i] == line);
                let k = choose|k: Seq<char>| #[trigger] keyed(prefix).dom().contains(k) && keyed(prefix)[k]@.contains(line);
                assert(k != last.0@);
                assert(keyed(logs).dom().contains(k));
            } else {
                assert(last.1@[i - before.len()] == line);
                assert(keyed(logs).dom().contains(last.0@));
            }
        }
        if exists|k: Seq<char>| #[trigger] keyed(logs).dom().contains(k) && keyed(logs)[k]@.contains(line) {
            let k = choose|k: Seq<char>| #[trigger] keyed(logs).dom().contains(k) && keyed(logs)[k]@.contains(line);
            if k == last.0@ {
                let i = choose|i: int| 0 <= i < last.1@.len() && last.1@[i] == line;
                assert(after[before.len() + i] == line);
            } else {
                assert(keyed(prefix).dom().contains(k));
                let i = choose|i: int| 0 <= i < before.len() && before[i] == line;
                assert(after[i] == line);
            }
        }
    }
}

impl SurfaceRegistry {
    /// The devices found on the network, in the order the registry keeps
    /// them.
    pub closed spec fn discovered_list(&self) -> Seq<DiscoveredNetworkSurface> {
        self.discovered@.map_values(|entry: (String, DiscoveredNetworkSurface)| entry.1)
    }

    /// Everything the registry knows, for the web page: devices found and
    /// managed and panels, each in order of name; the last key events; the
    /// keys and dials held down; where each turned dial stands; and every log
    /// line, in order of sequence number.
    pub fn inventory(&self) -> (inventory: DeviceInventory<'_>)
        requires
            self.wf(),
        ensures
            derefs(inventory.discovered@).to_multiset() == self.discovered_list().to_multiset(),
            by_name(inventory.discovered@),
            derefs(viewed_devices(inventory.devices@)).to_multiset() == self.device_list().to_multiset(),
            by_name(viewed_devices(inventory.devices@)),
            forall|i: int|
                0 <= i < inventory.devices@.len() ==> (#[trigger] inventory.devices@[i]).dials@ == model_dials(
                    inventory.devices@[i].device.model@,
                ),
            inventory.plugin_instances@.len() == 0,
            derefs(inventory.panels@).to_multiset() == self.panel_list().to_multiset(),
            by_name(inventory.panels@),
            derefs(inventory.recent_key_events@) == self.recent_events(),
            forall|k: (Seq<char>, u8)|
                #[trigger] press_keys(inventory.key_states@).contains(k) <==> (
                self.key_state_map().dom().contains(k) && self.key_state_map()[k]),
            press_keys(inventory.key_states@).no_duplicates(),
            forall|i: int| 0 <= i < inventory.key_states@.len() ==> (#[trigger] inventory.key_states@[i]).is_pressed,
            forall|k: (Seq<char>, u8)|
                #[trigger] dial_press_keys(inventory.dial_presses@).contains(k)
                    <==> (self.dial_press_map().dom().contains(k) && self.dial_press_map()[k]),
            dial_press_keys(inventory.dial_presses@).no_duplicates(),
            forall|i: int| 0 <= i < inventory.dial_presses@.len() ==> (#[trigger] inventory.dial_presses@[i]).is_pressed,
            forall|i: int|
                0 <= i < inventory.dial_states@.len() ==> {
                    let state = #[trigger] inventory.dial_states@[i];
                    let k = (state.surface_id@, state.dial_index);
                    self.dial_position_map().dom().contains(k) && state.level == percent_spec(self.dial_position_map()[k])
                },
            forall|k: (Seq<char>, u8)|
                #[trigger] self.dial_position_map().dom().contains(k) ==> exists|i: int|
                    0 <= i < inventory.dial_states@.len() && (#[trigger] inventory.dial_states@[i]).surface_id@ == k.0
                        && inventory.dial_states@[i].dial_index == k.1,
            by_sequence(inventory.logs@),
            forall|line: SurfaceLogEntry|
                #[trigger] derefs(inventory.logs@).contains(line) <==> exists|k: Seq<char>|
                    #[trigger] self.log_map().dom().contains(k) && self.log_map()[k]@.contains(line),
    {
        let mut discovered: Vec<&DiscoveredNetworkSurface> = Vec::new();
        let mut i: usize = 0;
        while i < self.discovered.len()
            invariant
                i <= self.discovered@.len(),
                derefs(discovered@) == self.discovered@.take(i as int).map_values(
                    |entry: (String, DiscoveredNetworkSurface)| entry.1,
                ),
            decreases self.discovered.len() - i,
        {
            let ghost before = discovered@;
            discovered.push(&self.discovered[i].1);
            assert(derefs(discovered@) =~= derefs(before).push(self.discovered@[i as int].1));
            assert(self.discovered@.take(i + 1) =~= self.discovered@.take(i as int).push(self.discovered@[i as int]));
            assert(derefs(discovered@) =~= self.discovered@.take(i + 1).map_values(
                |entry: (String, DiscoveredNetworkSurface)| entry.1,
            ));
            i += 1;
        }
        assert(self.discovered@.take(i as int) =~= self.discovered@);
        let ghost found = discovered@;
        let discovered = sorted_by_name(discovered);
        let devices = self.managed_surfaces();
        let ghost listed = devices@;
        assert(derefs(listed) =~= self.device_list());
        let devices = device_views(sorted_by_name(devices));
        let panels = self.panels();
        let ghost shown = panels@;
        assert(derefs(shown) =~= self.panel_list());
        let panels = sorted_by_name(panels);
        let mut recent_key_events: Vec<&SurfaceKeyEvent> = Vec::new();
        let mut r: usize = 0;
        while r < self.recent_key_events.len()
            invariant
                r <= self.recent_key_events@.len(),
                derefs(recent_key_events@) == self.recent_key_events@.take(r as int),
            decreases self.recent_key_events.len() - r,
        {
            let ghost before = recent_key_events@;
            recent_key_events.push(&self.recent_key_events[r]);
            assert(derefs(recent_key_events@) =~= derefs(before).push(self.recent_key_events@[r as int]));
            assert(derefs(recent_key_events@) =~= self.recent_key_events@.take(r + 1));
            r += 1;
        }
        assert(self.recent_key_events@.take(r as int) =~= self.recent_key_events@);
        let key_states = held_keys(&self.key_states);
        let dial_presses = held_dials(&self.dial_presses);
        let dial_states = dial_levels(&self.dial_positions);
        let lines = collect_lines(&self.logs);
        let ghost collected = lines@;
        let logs = sorted_by_sequence(lines);
        let inventory = DeviceInventory {
            discovered,
            devices,
            panels,
            plugin_instances: Vec::new(),
            recent_key_events,
            key_states,
            dial_states,
            dial_presses,
            logs,
        };
        proof {
            lemma_true_keys(self.key_states@);
            lemma_true_keys(self.dial_presses@);
            assert forall|i: int| 0 <= i < inventory.dial_states@.len() implies {
                let state = #[trigger] inventory.dial_states@[i];
                let k = (state.surface_id@, state.dial_index);
                self.dial_position_map().dom().contains(k) && state.level == percent_spec(self.dial_position_map()[k])
            } by {
                lemma_keyed_at(self.dial_positions@, i);
            }
            assert forall|k: (Seq<char>, u8)| #[trigger] self.dial_position_map().dom().contains(k) implies exists|i: int|
                0 <= i < inventory.dial_states@.len() && (#[trigger] inventory.dial_states@[i]).surface_id@ == k.0
                    && inventory.dial_states@[i].dial_index == k.1 by {
                lemma_keyed_dom(self.dial_positions@, k);
                let i = choose|i: int| 0 <= i < self.dial_positions@.len() && (#[trigger] self.dial_positions@[i]).0@ == k;
                assert(inventory.dial_states@[i].surface_id@ == k.0);
                assert(inventory.dial_states@[i].dial_index == k.1);
            }
            assert(derefs(collected) == all_lines(self.logs@));
            assert forall|line: SurfaceLogEntry| #[trigger] derefs(inventory.logs@).contains(line) <==> exists|k: Seq<char>|
                #[trigger] self.log_map().dom().contains(k) && self.log_map()[k]@.contains(line) by {
                lemma_all_lines(self.logs@, line);
                lemma_multiset_contains(derefs(collected), derefs(inventory.logs@), line);
                let logs_map = keyed(self.logs@);
                assert(self.log_map() == logs_map);
                if exists|k: Seq<char>| #[trigger] self.log_map().dom().contains(k) && self.log_map()[k]@.contains(line) {
                    let k = choose|k: Seq<char>| #[trigger] self.log_map().dom().contains(k) && self.log_map()[k]@.contains(line);
                    assert(logs_map.dom().contains(k) && logs_map[k]@.contains(line));
                }
                if all_lines(self.logs@).contains(line) {
                    let k = choose|k: Seq<char>| #[trigger] logs_map.dom().contains(k) && logs_map[k]@.contains(line);
                    assert(self.log_map().dom().contains(k) && self.log_map()[k]@.contains(line));
                }
            }
        }
        inventory
    }
}

/// Sequences with the same items hold the same items.
proof fn lemma_multiset_contains<T>(a: Seq<T>, b: Seq<T>, item: T)
    requires
        a.to_multiset() == b.to_multiset(),
    ensures
        a.contains(item) == b.contains(item),
{
    vstd::seq_lib::to_multiset_contains(a, item);
    vstd::seq_lib::to_multiset_contains(b, item);
    if a.contains(item) {
        vstd::seq_lib::to_multiset_contains(a, item);
    }
    assert(a.to_multiset().count(item) > 0 <==> a.contains(item)) by {
        broadcast use vstd::seq_lib::group_to_multiset_ensures;
    }
    assert(b.to_multiset().count(item) > 0 <==> b.contains(item)) by {
        broadcast use vstd::seq_lib::group_to_multiset_ensures;
    }
}

/// The ids a list of names holds.
pub open spec fn id_views(ids: Seq<String>) -> Seq<Seq<char>> {
    ids.map_values(|id: String| id@)
}

/// The devices plugged into a dock.
pub open spec fn children_of(docks: Map<Seq<char>, Vec<String>>, parent: Seq<char>) -> Seq<Seq<char>> {
    if docks.dom().contains(parent) {
        id_views(docks[parent]@)
    } else {
        Seq::empty()
    }
}

/// The devices other than those listed.
pub open spec fn without_devices(devices: Map<Seq<char>, ManagedNetworkSurface>, ids: Seq<Seq<char>>) -> Map<
    Seq<char>,
    ManagedNetworkSurface,
> {
    devices.restrict(Set::new(|id: Seq<char>| !ids.contains(id)))
}

impl SurfaceRegistry {
    /// Starts managing a device plugged into a dock, noting it among the
    /// dock's children. Hands back a copy of it.
    pub fn add_managed_child(&mut self, parent_id: &SurfaceId, surface: ManagedNetworkSurface) -> (added:
        ManagedNetworkSurface)
        requires
            old(self).wf(),
        ensures
            final(self).wf(),
            final(self).rendered_view() == old(self).rendered_view(),
            final(self).keeps_activity(old(self)),
            final(self).panel_map() == old(self).panel_map(),
            final(self).discovered_map() == old(self).discovered_map(),
            final(self).devices() == old(self).devices().insert(surface.surface_id@, surface),
            same_device(added, surface),
            children_of(final(self).dock_map(), parent_id@) == children_of(old(self).dock_map(), parent_id@).push(
                surface.surface_id@,
            ),
            final(self).dock_map().remove(parent_id@) == old(self).dock_map().remove(parent_id@),
            final(self).surface_counter() == old(self).surface_counter(),
            final(self).panel_counter() == old(self).panel_counter(),
    {
        let found = position_of(&self.dock_children, parent_id.0.as_str());
        proof {
            lemma_found(self.dock_children@, parent_id@, found);
        }
        let ghost before = keyed(self.dock_children@);
        let mut children: Vec<String> = match found {
            Some(i) => {
                let (_, children) = remove_at(&mut self.dock_children, i);
                children
            },
            None => Vec::new(),
        };
        let ghost listed = children@;
        children.push(surface.surface_id.0.clone());
        proof {
            assert(id_views(children@) =~= id_views(listed).push(surface.surface_id@));
        }
        put_at(&mut self.dock_children, None, parent_id.0.clone(), children);
        proof {
            assert(keyed(self.dock_children@).remove(parent_id@) =~= before.remove(parent_id@));
        }
        self.add_managed(surface)
    }

    /// Stops managing every device plugged into a dock, forgetting what each
    /// showed. Hands back their ids; the dock then has no children.
    pub fn deactivate_children_of(&mut self, parent_id: &SurfaceId) -> (children: Vec<String>)
        requires
            old(self).wf(),
        ensures
            final(self).wf(),
            id_views(children@) == children_of(old(self).dock_map(), parent_id@),
            final(self).dock_map() == old(self).dock_map().remove(parent_id@),
            final(self).devices() == without_devices(old(self).devices(), id_views(children@)),
            final(self).dial_position_map() == other_surfaces_of(old(self).dial_position_map(), id_views(children@)),
            final(self).dial_press_map() == other_surfaces_of(old(self).dial_press_map(), id_views(children@)),
            forall|key: LedgerKey|
                #[trigger] final(self).rendered_view().contains_key(key) == (old(self).rendered_view().contains_key(key)
                    && !id_views(children@).contains(key.0)),
            forall|key: LedgerKey|
                #[trigger] final(self).rendered_view().contains_key(key) ==> final(self).rendered_view()[key]
                    == old(self).rendered_view()[key],
            final(self).panel_map() == old(self).panel_map(),
            final(self).discovered_map() == old(self).discovered_map(),
            final(self).key_state_map() == old(self).key_state_map(),
            final(self).log_map() == old(self).log_map(),
            final(self).surface_counter() == old(self).surface_counter(),
            final(self).panel_counter() == old(self).panel_counter(),
    {
        let found = position_of(&self.dock_children, parent_id.0.as_str());
        proof {
            lemma_found(self.dock_children@, parent_id@, found);
        }
        let children: Vec<String> = match found {
            Some(i) => {
                let (_, children) = remove_at(&mut self.dock_children, i);
                children
            },
            None => {
                proof {
                    crate::keyed::lemma_keyed_absent(self.dock_children@, parent_id@);
                }
                Vec::new()
            },
        };
        let ghost ids = id_views(children@);
        let ghost devices_before = self.devices();
        let ghost positions_before = self.dial_position_map();
        let ghost presses_before = self.dial_press_map();
        let ghost rendered_before = self.rendered_view();
        let ghost docks = self.dock_map();
        let mut j: usize = 0;
        assert(without_devices(devices_before, ids.take(0)) =~= devices_before);
        assert(other_surfaces_of(positions_before, ids.take(0)) =~= positions_before);
        assert(other_surfaces_of(presses_before, ids.take(0)) =~= presses_before);
        while j < children.len()
            invariant
                j <= children@.len(),
                ids == id_views(children@),
                self.wf(),
                self.dock_map() == docks,
                self.devices() == without_devices(devices_before, ids.take(j as int)),
                self.dial_position_map() == other_surfaces_of(positions_before, ids.take(j as int)),
                self.dial_press_map() == other_surfaces_of(presses_before, ids.take(j as int)),
                forall|key: LedgerKey|
                    #[trigger] self.rendered_view().contains_key(key) == (rendered_before.contains_key(key) && !ids.take(
                        j as int,
                    ).contains(key.0)),
                forall|key: LedgerKey|
                    #[trigger] self.rendered_view().contains_key(key) ==> self.rendered_view()[key] == rendered_before[key],
                self.panel_map() == old(self).panel_map(),
                self.discovered_map() == old(self).discovered_map(),
                self.key_state_map() == old(self).key_state_map(),
                self.log_map() == old(self).log_map(),
                self.surface_counter() == old(self).surface_counter(),
                self.panel_counter() == old(self).panel_counter(),
            decreases children.len() - j,
        {
            let ghost rendered_now = self.rendered_view();
            self.remove_managed(children[j].as_str());
            proof {
                lemma_other_surfaces_step(positions_before, ids, j as int);
                lemma_other_surfaces_step(presses_before, ids, j as int);
                lemma_take_contains_step(ids, j as int);
                assert(self.devices() =~= without_devices(devices_before, ids.take(j + 1)));
            }
            j += 1;
        }
        assert(ids.take(j as int) =~= ids);
        children
    }
}

/// What the first `r + 1` ids hold is what the first `r` hold and one more.
proof fn lemma_take_contains_step(ids: Seq<Seq<char>>, r: int)
    requires
        0 <= r < ids.len(),
    ensures
        forall|s: Seq<char>| #[trigger] ids.take(r + 1).contains(s) <==> (ids.take(r).contains(s) || s == ids[r]),
{
    let longer = ids.take(r + 1);
    let shorter = ids.take(r);
    assert forall|s: Seq<char>| #[trigger] longer.contains(s) <==> (shorter.contains(s) || s == ids[r]) by {
        if longer.contains(s) {
            let j = choose|j: int| 0 <= j < longer.len() && longer[j] == s;
            if j < r {
                assert(shorter[j] == s);
            }
        }
        if shorter.contains(s) {
            let j = choose|j: int| 0 <= j < shorter.len() && shorter[j] == s;
            assert(longer[j] == s);
        }
        if s == ids[r] {
            assert(longer[r] == s);
        }
    }
}

/// What key `key` of a grid `columns` wide shows in a device's
/// presentation: the control of the topmost subpanel that covers it, else
/// the active panel's control at its cell, dimmed while a subpanel is open;
/// with where it is drawn.
pub open spec fn presented(
    device: ManagedNetworkSurface,
    panels: Map<Seq<char>, Panel>,
    root: Panel,
    columns: u16,
    key: u8,
) -> Option<(Control, SurfacePosition, bool)> {
    let column = key as int % columns as int;
    let row = key as int / columns as int;
    let has_overlay = device.open_subpanels@.len() > 0;
    let top = if has_overlay {
        let layer = device.open_subpanels@.last();
        if panels.dom().contains(layer.panel_id@) {
            let panel = panels[layer.panel_id@];
            let panel_column = column - layer.column;
            let panel_row = row - layer.row;
            if panel_column >= 0 && panel_row >= 0 {
                match control_placed_at(panel.controls@, (panel_column as u16) as int, (panel_row as u16) as int) {
                    Some(i) => Some(panel.controls@[i]),
                    None => None,
                }
            } else {
                None
            }
        } else {
            None
        }
    } else {
        None
    };
    match top {
        Some(control) => Some((control, SurfacePosition { column: column as u16, row: row as u16 }, false)),
        None => match control_placed_at(root.controls@, column, row) {
            Some(i) => Some((root.controls@[i], root.controls@[i].position, has_overlay)),
            None => None,
        },
    }
}

/// What the first `count` keys show, in order, leaving out keys that show
/// nothing.
pub open spec fn presented_keys(
    device: ManagedNetworkSurface,
    panels: Map<Seq<char>, Panel>,
    root: Panel,
    columns: u16,
    count: nat,
) -> Seq<(u8, Control, SurfacePosition, bool)>
    decreases count,
{
    if count == 0 {
        Seq::empty()
    } else {
        let before = presented_keys(device, panels, root, columns, (count - 1) as nat);
        match presented(device, panels, root, columns, (count - 1) as u8) {
            Some((control, position, dimmed)) => before.push(((count - 1) as u8, control, position, dimmed)),
            None => before,
        }
    }
}

/// Whether a presentation control is a copy of what a key shows.
pub open spec fn shows(shown: PresentationControl, expected: (u8, Control, SurfacePosition, bool)) -> bool {
    &&& shown.key_index == expected.0
    &&& same_control(Control { position: expected.2, ..expected.1 }, shown.control)
    &&& shown.is_dimmed == expected.3
}

impl SurfaceRegistry {
    /// Everything a device shows, key by key, with its subpanels over its
    /// panel: nothing for a device that is not a key grid or shows no panel.
    pub fn presentation(&self, surface_id: &SurfaceId) -> (shown: Option<SurfacePresentation>)
        requires
            self.wf(),
        ensures
            match shown_panel(self.devices(), self.panel_map(), surface_id@) {
                Some(root) => match self.devices()[surface_id@].layout {
                    SurfaceLayout::Grid { columns, rows } => {
                        let count = if columns * rows > 256 {
                            256nat
                        } else {
                            (columns * rows) as nat
                        };
                        let expected = presented_keys(self.devices()[surface_id@], self.panel_map(), root, columns, count);
                        &&& shown matches Some(p)
                        &&& p.columns == columns && p.rows == rows
                        &&& p.controls@.len() == expected.len()
                        &&& forall|i: int| 0 <= i < expected.len() ==> shows(#[trigger] p.controls@[i], expected[i])
                    },
                    SurfaceLayout::Freeform => shown is None,
                },
                None => shown is None,
            },
    {
        let device = match self.managed(surface_id) {
            Some(device) => device,
            None => return None,
        };
        let (columns, rows) = match device.layout {
            SurfaceLayout::Grid { columns, rows } => (columns, rows),
            SurfaceLayout::Freeform => {
                proof {
                    assert(shown_panel(self.devices(), self.panel_map(), surface_id@) is None
                        || self.devices()[surface_id@].layout is Freeform);
                }
                return None;
            },
        };
        let root = match self.shown(surface_id) {
            Some(root) => root,
            None => return None,
        };
        proof {
            assert((columns as int) * (rows as int) <= 65535 * 65535) by (nonlinear_arith)
                requires
                    columns <= 65535,
                    rows <= 65535,
            ;
        }
        let total: u32 = columns as u32 * rows as u32;
        let count: u32 = if total > 256 {
            256
        } else {
            total
        };
        let has_overlay = device.open_subpanels.len() > 0;
        let top: Option<(&OpenSubpanel, &Panel)> = if has_overlay {
            let layer = &device.open_subpanels[device.open_subpanels.len() - 1];
            match self.panel(layer.panel_id.0.as_str()) {
                Some(panel) => Some((layer, panel)),
                None => None,
            }
        } else {
            None
        };
        let ghost expected = presented_keys(*device, self.panel_map(), *root, columns, count as nat);
        let mut controls: Vec<PresentationControl> = Vec::new();
        let mut index: u32 = 0;
        while index < count
            invariant
                index <= count <= 256,
                count as int == (if columns * rows > 256 {
                    256int
                } else {
                    (columns * rows) as int
                }),
                has_overlay == (device.open_subpanels@.len() > 0),
                has_overlay ==> match top {
                    Some((layer, panel)) => *layer == device.open_subpanels@.last() && self.panel_map().dom().contains(
                        layer.panel_id@,
                    ) && *panel == self.panel_map()[layer.panel_id@],
                    None => !self.panel_map().dom().contains(device.open_subpanels@.last().panel_id@),
                },
                !has_overlay ==> top is None,
                controls@.len() == presented_keys(*device, self.panel_map(), *root, columns, index as nat).len(),
                forall|i: int|
                    0 <= i < controls@.len() ==> shows(
                        #[trigger] controls@[i],
                        presented_keys(*device, self.panel_map(), *root, columns, index as nat)[i],
                    ),
            decreases count - index,
        {
            let key = index as u8;
            proof {
                assert(columns > 0) by (nonlinear_arith)
                    requires
                        (index as int) < count as int,
                        count as int <= columns as int * rows as int,
                ;
            }
            let column: u16 = key as u16 % columns;
            let row: u16 = key as u16 / columns;
            let top_control: Option<&Control> = match top {
                Some((layer, panel)) => {
                    let panel_column: i32 = column as i32 - layer.column as i32;
                    let panel_row: i32 = row as i32 - layer.row as i32;
                    if panel_column >= 0 && panel_row >= 0 {
                        match find_control_at(
                            &panel.controls,
                            #[verifier::truncate] (panel_column as u16),
                            #[verifier::truncate] (panel_row as u16),
                        ) {
                            Some(i) => Some(&panel.controls[i]),
                            None => None,
                        }
                    } else {
                        None
                    }
                },
                None => None,
            };
            let ghost before = controls@;
            match top_control {
                Some(control) => {
                    controls.push(PresentationControl {
                        control: control_copy_at(control, SurfacePosition { column, row }),
                        key_index: key,
                        is_dimmed: false,
                    });
                },
                None => match find_control_at(&root.controls, column, row) {
                    Some(i) => {
                        let position = root.controls[i].position;
                        controls.push(PresentationControl {
                            control: control_copy_at(&root.controls[i], position),
                            key_index: key,
                            is_dimmed: has_overlay,
                        });
                    },
                    None => {},
                },
            }
            proof {
                let next = presented_keys(*device, self.panel_map(), *root, columns, (index + 1) as nat);
                assert(next.len() == controls@.len());
                assert forall|i: int| 0 <= i < controls@.len() implies shows(#[trigger] controls@[i], next[i]) by {
                    if i < before.len() {
                        assert(controls@[i] == before[i]);
                    }
                }
            }
            index += 1;
        }
        Some(SurfacePresentation { columns, rows, controls })
    }
}

/// Closing the subpanel just opened leaves the device as it was, and every
/// other device untouched.
pub proof fn lemma_close_undoes_open(
    before: Map<Seq<char>, ManagedNetworkSurface>,
    opened: Map<Seq<char>, ManagedNetworkSurface>,
    closed: Map<Seq<char>, ManagedNetworkSurface>,
    surface: Seq<char>,
    layer: OpenSubpanel,
)
    requires
        before.dom().contains(surface),
        opened.remove(surface) == before.remove(surface),
        opened.dom().contains(surface),
        with_layers(before[surface], opened[surface]),
        opened[surface].open_subpanels@ == before[surface].open_subpanels@.push(layer),
        with_subpanel_closed(opened, closed, surface),
    ensures
        closed.remove(surface) == before.remove(surface),
        closed.dom().contains(surface),
        same_device(closed[surface], before[surface]),
{
    assert(closed[surface].open_subpanels@ =~= before[surface].open_subpanels@);
}

/// A dial turned some detents and back, without reaching either end of its
/// ring on the way, stands where it started.
pub proof fn lemma_turn_back(current: u8, detents: i8)
    requires
        current <= DIAL_RING_SEGMENTS,
        0 <= current + detents <= DIAL_RING_SEGMENTS,
        detents > i8::MIN,
    ensures
        turned(turned(current, detents), (-detents) as i8) == current,
{
}

/// A dial turned any number of detents stays on its ring.
pub proof fn lemma_turn_stays_on_ring(current: u8, detents: i8)
    ensures
        turned(current, detents) <= DIAL_RING_SEGMENTS,
{
}

/// Once assignments are repaired, a device that shows a panel shows one
/// that is listed and fits it.
pub proof fn lemma_repaired_panel_fits(device: ManagedNetworkSurface, panels: Seq<Panel>)
    ensures
        repaired_id(device, panels) matches Some(id) ==> exists|i: int|
            0 <= i < panels.len() && (#[trigger] panels[i]).panel_id@ == id@ && compatible(
                showing(device, repaired_id(device, panels)),
                panels[i],
            ),
{
    lemma_panel_at_bounds(panels, device.active_panel_id.unwrap()@);
    lemma_first_compatible_bounds(device, panels);
    if assignment_holds(device, panels) {
        let i = panel_at(panels, device.active_panel_id.unwrap()@).unwrap();
        assert(panels[i].panel_id@ == device.active_panel_id.unwrap()@);
    } else if let Some(i) = first_compatible(device, panels) {
        assert(compatible(device, panels[i]));
    }
}

/// Where a panel is found, it is listed there under that id.
proof fn lemma_panel_at_bounds(panels: Seq<Panel>, id: Seq<char>)
    ensures
        panel_at(panels, id) matches Some(i) ==> 0 <= i < panels.len() && panels[i].panel_id@ == id,
    decreases panels.len(),
{
    if panels.len() > 0 {
        lemma_panel_at_bounds(panels.drop_last(), id);
        if let Some(i) = panel_at(panels.drop_last(), id) {
            assert(panels[i] == panels.drop_last()[i]);
        }
    }
}

/// Where a fitting panel is found, it is listed there and fits.
proof fn lemma_first_compatible_bounds(device: ManagedNetworkSurface, panels: Seq<Panel>)
    ensures
        first_compatible(device, panels) matches Some(i) ==> 0 <= i < panels.len() && compatible(device, panels[i]),
    decreases panels.len(),
{
    if panels.len() > 0 {
        lemma_first_compatible_bounds(device, panels.drop_last());
        if let Some(i) = first_compatible(device, panels.drop_last()) {
            assert(panels[i] == panels.drop_last()[i]);
        }
    }
}

/// Whether a device neither shows a panel nor has it open as a subpanel.
pub open spec fn shows_nowhere(device: ManagedNetworkSurface, panel: Seq<char>) -> bool {
    &&& !(device.active_panel_id matches Some(id) && id@ == panel)
    &&& forall|j: int| 0 <= j < device.open_subpanels@.len() ==> (#[trigger] device.open_subpanels@[j]).panel_id@ != panel
}

/// Once a panel's subpanels are closed, none of them is open.
proof fn lemma_without_panel(layers: Seq<OpenSubpanel>, panel: Seq<char>)
    ensures
        forall|j: int| 0 <= j < without_panel(layers, panel).len() ==> (#[trigger] without_panel(layers, panel)[j]).panel_id@ != panel,
    decreases layers.len(),
{
    if layers.len() > 0 {
        lemma_without_panel(layers.drop_last(), panel);
        let before = without_panel(layers.drop_last(), panel);
        assert forall|j: int| 0 <= j < without_panel(layers, panel).len() implies (#[trigger] without_panel(layers, panel)[j]).panel_id@
            != panel by {
            if j < before.len() {
                assert(without_panel(layers, panel)[j] == before[j]);
            }
        }
    }
}

} // verus!
