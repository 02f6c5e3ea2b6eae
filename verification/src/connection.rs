//! What the reports a connected device sends change in the registry: the
//! identity a device reports for itself, the keys it says are down, and the
//! decks a Network Dock says are plugged into it.

use vstd::prelude::*;
use crate::identifiers::SurfaceId;
use crate::panels::{SurfaceCapabilities, SurfaceLayout};
use crate::registry::{
    at_endpoint, children_of, is_auto_panel, panel_with_layout, without_devices, key_state_recorded, KeyOutcome, SurfaceRegistry,
};
use crate::streamdeck::{
    child_device_info_spec, layout_spec, model_name_spec, parse_child_device_info, stream_deck_layout,
    stream_deck_model_name,
};
use crate::surfaces::{same_device, studio_capabilities, ManagedNetworkSurface, NetworkSurfaceStatus};
use crate::text::{decimal, option_view, owned, str_eq};

verus! {

/// The model name a Network Dock is known by.
pub open spec fn dock_model() -> Seq<char> {
    "Stream Deck Network Dock"@
}

/// The identity a device gets from its device-information reply: a dock is
/// a Network Dock with no key grid; anything else is the model and grid of
/// its product id.
pub open spec fn probed_identity_spec(is_dock: bool, product_id: u16) -> (Seq<char>, SurfaceLayout) {
    if is_dock {
        (dock_model(), SurfaceLayout::Freeform)
    } else {
        (
            model_name_spec(product_id),
            SurfaceLayout::Grid { columns: layout_spec(product_id).0, rows: layout_spec(product_id).1 },
        )
    }
}

/// The model name and layout a device's device-information reply gives it.
pub fn probed_identity(is_dock: bool, product_id: u16) -> (identity: (String, SurfaceLayout))
    ensures
        (identity.0@, identity.1) == probed_identity_spec(is_dock, product_id),
{
    if is_dock {
        (owned("Stream Deck Network Dock"), SurfaceLayout::Freeform)
    } else {
        (owned(stream_deck_model_name(product_id)), stream_deck_layout(product_id))
    }
}

/// Whether `steps` is the registry before each key of a report and after the
/// last: key `k` going to `states[k]` takes `steps[k]` to `steps[k + 1]` and
/// comes to `outcomes[k]`, as recording that one key state does.
pub open spec fn key_report_steps(
    steps: Seq<SurfaceRegistry>,
    surface_id: Seq<char>,
    states: Seq<bool>,
    at_ms: u64,
    outcomes: Seq<KeyOutcome>,
) -> bool {
    &&& steps.len() == states.len() + 1
    &&& outcomes.len() == states.len()
    &&& forall|k: int|
        0 <= k < states.len() ==> key_state_recorded(
            #[trigger] steps[k],
            surface_id,
            k as u8,
            states[k],
            at_ms,
            steps[k + 1],
            outcomes[k],
        )
}

impl SurfaceRegistry {
    /// Gives a device the identity its device-information reply reports.
    /// Answers whether that changed anything.
    pub fn apply_probed_identity(&mut self, surface_id: &SurfaceId, is_dock: bool, product_id: u16) -> (changed:
        bool)
        requires
            old(self).wf(),
        ensures
            final(self).wf(),
            final(self).keeps_activity(old(self)),
            final(self).panel_map() == old(self).panel_map(),
            final(self).discovered_map() == old(self).discovered_map(),
            !old(self).devices().dom().contains(surface_id@) ==> !changed && final(self).devices() == old(
                self,
            ).devices(),
            old(self).devices().dom().contains(surface_id@) ==> {
                let device = old(self).devices()[surface_id@];
                let (model, layout) = probed_identity_spec(is_dock, product_id);
                &&& final(self).devices().dom() == old(self).devices().dom()
                &&& final(self).devices().remove(surface_id@) == old(self).devices().remove(surface_id@)
                &&& final(self).devices()[surface_id@].model@ == model
                &&& final(self).devices()[surface_id@] == (ManagedNetworkSurface {
                    model: final(self).devices()[surface_id@].model,
                    layout,
                    ..device
                })
                &&& changed == (device.model@ != model || device.layout != layout)
            },
    {
        let (model, layout) = probed_identity(is_dock, product_id);
        let ghost given = model;
        let changed = self.set_identity(surface_id, model, layout);
        proof {
            if old(self).devices().dom().contains(surface_id@) {
                assert(final(self).devices().remove(surface_id@) =~= old(self).devices().remove(surface_id@));
                assert(final(self).devices()[surface_id@].model == given);
            }
        }
        changed
    }

    /// Records the key states an input report gives, key `k` being down when
    /// `states[k]` is true. Answers what each key's report came to, in key
    /// order.
    pub fn record_key_report(&mut self, surface_id: &SurfaceId, states: &[bool], at_ms: u64) -> (outcomes:
        Vec<KeyOutcome>)
        requires
            old(self).wf(),
            states@.len() <= 256,
        ensures
            final(self).wf(),
            outcomes@.len() == states@.len(),
            forall|k: int|
                0 <= k < states@.len() ==> ((#[trigger] outcomes@[k]) is Unchanged) == (old(self).key_state_map().dom().contains(
                    (surface_id@, k as u8),
                ) && old(self).key_state_map()[(surface_id@, k as u8)] == states@[k]),
            forall|surface: Seq<char>, key: u8|
                #[trigger] final(self).key_state_map().dom().contains((surface, key)) == (old(self).key_state_map().dom().contains(
                    (surface, key),
                ) || (surface == surface_id@ && key < states@.len())),
            forall|surface: Seq<char>, key: u8|
                #[trigger] final(self).key_state_map().dom().contains((surface, key)) ==> final(self).key_state_map()[(
                    surface,
                    key,
                )] == if surface == surface_id@ && key < states@.len() {
                    states@[key as int]
                } else {
                    old(self).key_state_map()[(surface, key)]
                },
            final(self).panel_map() == old(self).panel_map(),
            final(self).discovered_map() == old(self).discovered_map(),
            final(self).rendered_view() == old(self).rendered_view(),
            final(self).surface_counter() == old(self).surface_counter(),
            final(self).panel_counter() == old(self).panel_counter(),
            exists|steps: Seq<SurfaceRegistry>|
                #[trigger] key_report_steps(steps, surface_id@, states@, at_ms, outcomes@) && steps[0] == *old(self)
                    && steps.last() == *final(self),
    {
        let ghost start = *self;
        let ghost mut steps: Seq<SurfaceRegistry> = seq![*self];
        let mut outcomes: Vec<KeyOutcome> = Vec::new();
        let mut k: usize = 0;
        while k < states.len()
            invariant
                self.wf(),
                states@.len() <= 256,
                k <= states@.len(),
                outcomes@.len() == k,
                forall|j: int|
                    0 <= j < k ==> ((#[trigger] outcomes@[j]) is Unchanged) == (start.key_state_map().dom().contains(
                        (surface_id@, j as u8),
                    ) && start.key_state_map()[(surface_id@, j as u8)] == states@[j]),
                forall|surface: Seq<char>, key: u8|
                    #[trigger] self.key_state_map().dom().contains((surface, key)) == (start.key_state_map().dom().contains(
                        (surface, key),
                    ) || (surface == surface_id@ && key < k)),
                forall|surface: Seq<char>, key: u8|
                    #[trigger] self.key_state_map().dom().contains((surface, key)) ==> self.key_state_map()[(
                        surface,
                        key,
                    )] == if surface == surface_id@ && key < k {
                        states@[key as int]
                    } else {
                        start.key_state_map()[(surface, key)]
                    },
                self.panel_map() == start.panel_map(),
                self.discovered_map() == start.discovered_map(),
                self.rendered_view() == start.rendered_view(),
                self.surface_counter() == start.surface_counter(),
                self.panel_counter() == start.panel_counter(),
                steps.len() == k + 1,
                steps[0] == start,
                steps[k as int] == *self,
                forall|j: int|
                    0 <= j < k ==> key_state_recorded(
                        #[trigger] steps[j],
                        surface_id@,
                        j as u8,
                        states@[j],
                        at_ms,
                        steps[j + 1],
                        outcomes@[j],
                    ),
            decreases states@.len() - k,
        {
            let ghost before = *self;
            let key_index = k as u8;
            assert(key_index == k);
            let outcome = self.record_key_state(surface_id, key_index, states[k], at_ms);
            proof {
                assert(before.key_state_map().dom().contains((surface_id@, key_index)) == start.key_state_map().dom().contains(
                    (surface_id@, key_index),
                ));
                if start.key_state_map().dom().contains((surface_id@, key_index)) {
                    assert(before.key_state_map()[(surface_id@, key_index)] == start.key_state_map()[(
                        surface_id@,
                        key_index,
                    )]);
                }
            }
            outcomes.push(outcome);
            proof {
                let next = steps.push(*self);
                assert forall|j: int|
                    0 <= j < k + 1 implies key_state_recorded(
                        #[trigger] next[j],
                        surface_id@,
                        j as u8,
                        states@[j],
                        at_ms,
                        next[j + 1],
                        outcomes@[j],
                    ) by {
                    if j < k {
                        assert(next[j] == steps[j] && next[j + 1] == steps[j + 1]);
                    } else {
                        assert(next[j] == before && next[j + 1] == *self);
                    }
                }
                steps = next;
            }
            k += 1;
        }
        assert(key_report_steps(steps, surface_id@, states@, at_ms, outcomes@));
        outcomes
    }
}

/// A deck plugged into a dock, as the daemon first manages it: numbered
/// `id`, named after the dock, reached at the dock's host on the port the
/// dock gives, with the model and grid of its product, showing
/// `active_panel_id`, and connecting.
pub open spec fn is_dock_child(
    device: ManagedNetworkSurface,
    id: Seq<char>,
    dock: ManagedNetworkSurface,
    dock_id: SurfaceId,
    product_id: u16,
    port: u16,
    serial_number: Option<Seq<char>>,
) -> bool {
    &&& device.surface_id@ == id
    &&& device.name@ == dock.name@ + " child"@
    &&& device.host@ == dock.host@
    &&& device.port == port
    &&& option_view(device.serial_number) == serial_number
    &&& device.model@ == model_name_spec(product_id)
    &&& device.layout == (SurfaceLayout::Grid { columns: layout_spec(product_id).0, rows: layout_spec(product_id).1 })
    &&& device.capabilities == (SurfaceCapabilities {
        supports_color: true,
        supports_images: true,
        supports_text: true,
        supports_brightness: true,
        supports_haptics: false,
    })
    &&& device.open_subpanels@.len() == 0
    &&& device.is_enabled
    &&& device.parent_surface_id == Some(dock_id)
    &&& device.status == NetworkSurfaceStatus::Connecting
    &&& device.last_error is None
}

/// What a report from a managed Network Dock says is plugged into it, when
/// the device is a managed dock and the report is a child report.
pub open spec fn dock_report(
    devices: Map<Seq<char>, ManagedNetworkSurface>,
    dock_id: Seq<char>,
    packet: Seq<u8>,
) -> Option<(u16, u16, Option<Seq<char>>)> {
    if devices.dom().contains(dock_id) && devices[dock_id].model@ == dock_model() {
        child_device_info_spec(packet)
    } else {
        None
    }
}

/// Whether a deck added to the registry `before` to give `after` shows a
/// panel that fits its product's grid: the first panel with that grid, or a
/// fresh one numbered next.
pub open spec fn shows_fitting_panel(
    device: ManagedNetworkSurface,
    before: SurfaceRegistry,
    after: SurfaceRegistry,
    product_id: u16,
) -> bool {
    let (columns, rows) = layout_spec(product_id);
    match panel_with_layout(before.panel_list(), columns, rows) {
        Some(i) => device.active_panel_id == Some(before.panel_list()[i].panel_id) && after.panel_map()
            == before.panel_map() && after.panel_counter() == before.panel_counter(),
        None => after.panel_counter() == before.panel_counter() + 1 && {
            let panel_id = "studio-panel-"@ + decimal(after.panel_counter() as nat);
            match device.active_panel_id {
                Some(shown) => shown@ == panel_id && after.panel_map().dom().contains(panel_id)
                    && after.panel_map().remove(panel_id) == before.panel_map().remove(panel_id) && is_auto_panel(
                    after.panel_map()[panel_id],
                    panel_id,
                    columns,
                    rows,
                ),
                None => after.panel_map() == before.panel_map(),
            }
        },
    }
}

/// Every product's key grid has few enough keys to number them.
proof fn lemma_layout_fits(product_id: u16)
    ensures
        layout_spec(product_id).0 as int * layout_spec(product_id).1 as int <= 65536,
{
}

impl SurfaceRegistry {
    /// Acts on what a dock reports is plugged into it. Port 0 means nothing
    /// is: the decks managed through the dock are let go. A deck already
    /// managed at that address is left alone. Otherwise the deck is managed
    /// as the dock's child, showing a panel that fits its grid, and is
    /// returned so that it can be connected to.
    pub fn register_dock_child(&mut self, dock_id: &SurfaceId, packet: &[u8]) -> (child: Option<
        ManagedNetworkSurface,
    >)
        requires
            old(self).wf(),
            old(self).surface_counter() < u64::MAX,
            old(self).panel_counter() < u64::MAX,
        ensures
            final(self).wf(),
            dock_report(old(self).devices(), dock_id@, packet@) is None ==> child is None && *final(self) == *old(self),
            dock_report(old(self).devices(), dock_id@, packet@) matches Some((product_id, port, serial_number))
                && port == 0 ==> {
                &&& child is None
                &&& final(self).dock_map() == old(self).dock_map().remove(dock_id@)
                &&& final(self).devices() == without_devices(old(self).devices(), children_of(old(self).dock_map(), dock_id@))
                &&& final(self).panel_map() == old(self).panel_map()
                &&& final(self).surface_counter() == old(self).surface_counter()
                &&& final(self).panel_counter() == old(self).panel_counter()
            },
            dock_report(old(self).devices(), dock_id@, packet@) matches Some((product_id, port, serial_number))
                && port != 0 && at_endpoint(old(self).device_list(), old(self).devices()[dock_id@].host@, port) is Some
                ==> child is None && *final(self) == *old(self),
            dock_report(old(self).devices(), dock_id@, packet@) matches Some((product_id, port, serial_number))
                && port != 0 && at_endpoint(old(self).device_list(), old(self).devices()[dock_id@].host@, port) is None
                ==> {
                let (product_id, port, serial_number) = dock_report(old(self).devices(), dock_id@, packet@)->0;
                let dock = old(self).devices()[dock_id@];
                let id = "stream-deck-studio-"@ + decimal(final(self).surface_counter() as nat);
                &&& child matches Some(device) && is_dock_child(device, id, dock, *dock_id, product_id, port, serial_number)
                    && final(self).devices().dom().contains(id) && same_device(final(self).devices()[id], device)
                    && shows_fitting_panel(device, *old(self), *final(self), product_id)
                &&& final(self).devices().remove(id) == old(self).devices().remove(id)
                &&& final(self).surface_counter() == old(self).surface_counter() + 1
                &&& children_of(final(self).dock_map(), dock_id@) == children_of(old(self).dock_map(), dock_id@).push(id)
                &&& final(self).dock_map().remove(dock_id@) == old(self).dock_map().remove(dock_id@)
                &&& final(self).keeps_activity(old(self))
                &&& final(self).discovered_map() == old(self).discovered_map()
            },
    {
        let (dock_name, dock_host) = match self.managed(dock_id) {
            Some(dock) => {
                if !str_eq(dock.model.as_str(), "Stream Deck Network Dock") {
                    return None;
                }
                (owned(dock.name.as_str()), owned(dock.host.as_str()))
            },
            None => return None,
        };
        let (product_id, port, serial_number) = match parse_child_device_info(packet) {
            Some(info) => info,
            None => return None,
        };
        if port == 0 {
            let _ = self.deactivate_children_of(dock_id);
            return None;
        }
        if self.has_managed_endpoint(dock_host.as_str(), port) {
            return None;
        }
        let layout = stream_deck_layout(product_id);
        proof {
            lemma_layout_fits(product_id);
        }
        let active_panel_id = self.ensure_default_panel_for_layout(&layout);
        let surface_id = self.create_surface_id();
        let mut name = dock_name;
        name.push_str(" child");
        let device = ManagedNetworkSurface {
            surface_id,
            name,
            host: dock_host,
            port,
            serial_number,
            model: owned(stream_deck_model_name(product_id)),
            layout,
            capabilities: studio_capabilities(),
            active_panel_id,
            open_subpanels: Vec::new(),
            is_enabled: true,
            parent_surface_id: Some(dock_id.clone()),
            status: NetworkSurfaceStatus::Connecting,
            last_error: None,
        };
        let added = self.add_managed_child(dock_id, device);
        Some(added)
    }
}

} // verus!
