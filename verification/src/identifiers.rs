//! Identifiers of the things the daemon names: plugin instances, surfaces,
//! panels, controls and assets. Each is a string, compared by its characters.

use vstd::prelude::*;

verus! {

/// `<type>.<name>` of one plugin instance, such as `hass.home`.
#[derive(Debug, Eq, Hash)]
pub struct IntegrationId(pub String);

impl Clone for IntegrationId {
    fn clone(&self) -> (copy: Self)
        ensures
            copy == *self,
    {
        IntegrationId(self.0.clone())
    }
}

impl View for IntegrationId {
    type V = Seq<char>;

    open spec fn view(&self) -> Seq<char> {
        self.0@
    }
}

impl PartialEq for IntegrationId {
    fn eq(&self, other: &Self) -> (same: bool) {
        self.0 == other.0
    }
}

impl vstd::std_specs::cmp::PartialEqSpecImpl for IntegrationId {
    open spec fn obeys_eq_spec() -> bool {
        true
    }

    open spec fn eq_spec(&self, other: &IntegrationId) -> bool {
        self.0@ == other.0@
    }
}

/// One physical or network surface, such as `stream-deck-studio-1`.
#[derive(Debug, Eq, Hash)]
pub struct SurfaceId(pub String);

impl Clone for SurfaceId {
    fn clone(&self) -> (copy: Self)
        ensures
            copy == *self,
    {
        SurfaceId(self.0.clone())
    }
}

impl View for SurfaceId {
    type V = Seq<char>;

    open spec fn view(&self) -> Seq<char> {
        self.0@
    }
}

impl PartialEq for SurfaceId {
    fn eq(&self, other: &Self) -> (same: bool) {
        self.0 == other.0
    }
}

impl vstd::std_specs::cmp::PartialEqSpecImpl for SurfaceId {
    open spec fn obeys_eq_spec() -> bool {
        true
    }

    open spec fn eq_spec(&self, other: &SurfaceId) -> bool {
        self.0@ == other.0@
    }
}

/// One panel of controls.
#[derive(Debug, Eq, Hash)]
pub struct PanelId(pub String);

impl Clone for PanelId {
    fn clone(&self) -> (copy: Self)
        ensures
            copy == *self,
    {
        PanelId(self.0.clone())
    }
}

impl View for PanelId {
    type V = Seq<char>;

    open spec fn view(&self) -> Seq<char> {
        self.0@
    }
}

impl PartialEq for PanelId {
    fn eq(&self, other: &Self) -> (same: bool) {
        self.0 == other.0
    }
}

impl vstd::std_specs::cmp::PartialEqSpecImpl for PanelId {
    open spec fn obeys_eq_spec() -> bool {
        true
    }

    open spec fn eq_spec(&self, other: &PanelId) -> bool {
        self.0@ == other.0@
    }
}

/// One control on a panel.
#[derive(Debug, Eq, Hash)]
pub struct ControlId(pub String);

impl Clone for ControlId {
    fn clone(&self) -> (copy: Self)
        ensures
            copy == *self,
    {
        ControlId(self.0.clone())
    }
}

impl View for ControlId {
    type V = Seq<char>;

    open spec fn view(&self) -> Seq<char> {
        self.0@
    }
}

impl PartialEq for ControlId {
    fn eq(&self, other: &Self) -> (same: bool) {
        self.0 == other.0
    }
}

impl vstd::std_specs::cmp::PartialEqSpecImpl for ControlId {
    open spec fn obeys_eq_spec() -> bool {
        true
    }

    open spec fn eq_spec(&self, other: &ControlId) -> bool {
        self.0@ == other.0@
    }
}

/// An image: a built-in icon name, a fetched asset hash, or a `$(...)`
/// reference that resolves to one of those.
#[derive(Debug, Eq, Hash)]
pub struct AssetId(pub String);

impl Clone for AssetId {
    fn clone(&self) -> (copy: Self)
        ensures
            copy == *self,
    {
        AssetId(self.0.clone())
    }
}

impl View for AssetId {
    type V = Seq<char>;

    open spec fn view(&self) -> Seq<char> {
        self.0@
    }
}

impl PartialEq for AssetId {
    fn eq(&self, other: &Self) -> (same: bool) {
        self.0 == other.0
    }
}

impl vstd::std_specs::cmp::PartialEqSpecImpl for AssetId {
    open spec fn obeys_eq_spec() -> bool {
        true
    }

    open spec fn eq_spec(&self, other: &AssetId) -> bool {
        self.0@ == other.0@
    }
}

} // verus!
