//! The panel model: what a key shows, what a press does, and where a control
//! sits on a surface.

use vstd::prelude::*;
use crate::identifiers::{AssetId, ControlId, IntegrationId, PanelId};
use crate::text::owned;

verus! {

/// A colour with straight alpha.
#[derive(Clone, Copy, Debug, PartialEq, Eq, Hash, Structural)]
pub struct RgbaColor {
    pub red: u8,
    pub green: u8,
    pub blue: u8,
    pub alpha: u8,
}

impl RgbaColor {
    /// A fully opaque colour.
    pub fn opaque(red: u8, green: u8, blue: u8) -> (color: RgbaColor)
        ensures
            color == (RgbaColor { red, green, blue, alpha: 255 }),
    {
        RgbaColor { red, green, blue, alpha: 255 }
    }
}

/// A colour written into a panel: a literal, or a `$(...)` reference whose
/// value is a colour.
#[derive(Debug, PartialEq, Eq)]
pub enum ColorBinding {
    Literal(RgbaColor),
    Reference(String),
}

impl Clone for ColorBinding {
    fn clone(&self) -> (copy: Self)
        ensures
            copy == *self,
    {
        match self {
            ColorBinding::Literal(color) => ColorBinding::Literal(*color),
            ColorBinding::Reference(reference) => ColorBinding::Reference(reference.clone()),
        }
    }
}

impl From<RgbaColor> for ColorBinding {
    fn from(color: RgbaColor) -> (binding: Self) {
        ColorBinding::Literal(color)
    }
}

impl vstd::std_specs::convert::FromSpecImpl<RgbaColor> for ColorBinding {
    open spec fn obeys_from_spec() -> bool {
        true
    }

    open spec fn from_spec(color: RgbaColor) -> ColorBinding {
        ColorBinding::Literal(color)
    }
}

/// An outline drawn around a key.
#[derive(Debug, PartialEq, Eq)]
pub struct Border {
    pub color: ColorBinding,
    pub width: u8,
}

impl Clone for Border {
    fn clone(&self) -> (copy: Self)
        ensures
            copy == *self,
    {
        Border { color: self.color.clone(), width: self.width }
    }
}

/// Where an overlay image sits on a key.
#[derive(Clone, Copy, Debug, PartialEq, Eq, Hash, Structural)]
pub enum Anchor9 {
    TopStart,
    TopCenter,
    TopEnd,
    CenterStart,
    Center,
    CenterEnd,
    BottomStart,
    BottomCenter,
    BottomEnd,
}

/// A small image drawn over a key's face, such as a status badge.
#[derive(Debug, PartialEq, Eq)]
pub struct OverlayImage {
    pub image: AssetId,
    pub anchor: Anchor9,
    pub scale_percent: u8,
    /// A colour the image is tinted with.
    pub tint: Option<ColorBinding>,
}

impl Clone for OverlayImage {
    fn clone(&self) -> (copy: Self)
        ensures
            copy == *self,
    {
        OverlayImage {
            image: self.image.clone(),
            anchor: self.anchor,
            scale_percent: self.scale_percent,
            tint: match &self.tint {
                Some(tint) => Some(tint.clone()),
                None => None,
            },
        }
    }
}

/// A number a bar shows: written out, or a reference to a published value.
#[derive(Debug, PartialEq, Eq)]
pub enum ValueBinding {
    Literal(u16),
    Reference(String),
}

impl Clone for ValueBinding {
    fn clone(&self) -> (copy: Self)
        ensures
            copy == *self,
    {
        match self {
            ValueBinding::Literal(value) => ValueBinding::Literal(*value),
            ValueBinding::Reference(reference) => ValueBinding::Reference(reference.clone()),
        }
    }
}

/// The edge of a key a bar grows along.
#[derive(Clone, Copy, Debug, PartialEq, Eq, Hash, Structural)]
pub enum Edge {
    Top,
    Bottom,
    Start,
    End,
}

/// A bar along one edge of a key, filled to `value` out of `maximum`.
#[derive(Debug, PartialEq, Eq)]
pub struct Bar {
    pub value: ValueBinding,
    pub maximum: ValueBinding,
    pub color: ColorBinding,
    pub edge: Edge,
    pub thickness: u8,
}

impl Clone for Bar {
    fn clone(&self) -> (copy: Self)
        ensures
            copy == *self,
    {
        Bar {
            value: self.value.clone(),
            maximum: self.maximum.clone(),
            color: self.color.clone(),
            edge: self.edge,
            thickness: self.thickness,
        }
    }
}

/// What a key shows. Every field that holds text may bind `$(...)` references.
#[derive(Debug, PartialEq, Eq)]
pub struct RenderedState {
    pub text: Option<String>,
    pub image: Option<AssetId>,
    /// A colour the image is tinted with.
    pub image_tint: Option<ColorBinding>,
    pub overlay_image: Option<OverlayImage>,
    pub foreground_color: Option<ColorBinding>,
    pub background_color: Option<ColorBinding>,
    pub border: Option<Border>,
    pub bar: Option<Bar>,
    pub is_pressed: bool,
}

impl Clone for RenderedState {
    fn clone(&self) -> (copy: Self)
        ensures
            copy == *self,
    {
        RenderedState {
            text: match &self.text {
                Some(text) => Some(text.clone()),
                None => None,
            },
            image: match &self.image {
                Some(image) => Some(image.clone()),
                None => None,
            },
            image_tint: match &self.image_tint {
                Some(tint) => Some(tint.clone()),
                None => None,
            },
            overlay_image: match &self.overlay_image {
                Some(overlay) => Some(overlay.clone()),
                None => None,
            },
            foreground_color: match &self.foreground_color {
                Some(color) => Some(color.clone()),
                None => None,
            },
            background_color: match &self.background_color {
                Some(color) => Some(color.clone()),
                None => None,
            },
            border: match &self.border {
                Some(border) => Some(border.clone()),
                None => None,
            },
            bar: match &self.bar {
                Some(bar) => Some(bar.clone()),
                None => None,
            },
            is_pressed: self.is_pressed,
        }
    }
}

impl Default for RenderedState {
    fn default() -> (state: Self)
        ensures
            state.text is None,
            state.image is None,
            state.image_tint is None,
            state.overlay_image is None,
            state.foreground_color is None,
            state.background_color is None,
            state.border is None,
            state.bar is None,
            !state.is_pressed,
    {
        RenderedState {
            text: None,
            image: None,
            image_tint: None,
            overlay_image: None,
            foreground_color: None,
            background_color: None,
            border: None,
            bar: None,
            is_pressed: false,
        }
    }
}

impl RenderedState {
    /// A key that shows a label in one colour on a background of another.
    pub fn labelled(text: &str, foreground: RgbaColor, background: RgbaColor, is_pressed: bool) -> (state:
        RenderedState)
        ensures
            state.text is Some && state.text->0@ == text@,
            state.foreground_color == Some(ColorBinding::Literal(foreground)),
            state.background_color == Some(ColorBinding::Literal(background)),
            state.image is None,
            state.image_tint is None,
            state.overlay_image is None,
            state.border is None,
            state.bar is None,
            state.is_pressed == is_pressed,
    {
        RenderedState {
            text: Some(owned(text)),
            image: None,
            image_tint: None,
            overlay_image: None,
            foreground_color: Some(ColorBinding::Literal(foreground)),
            background_color: Some(ColorBinding::Literal(background)),
            border: None,
            bar: None,
            is_pressed,
        }
    }
}

/// A cell of a surface's key grid.
#[derive(Clone, Copy, Debug, PartialEq, Eq, Hash, Structural)]
pub struct SurfacePosition {
    pub column: u16,
    pub row: u16,
}

/// What a surface can show.
#[derive(Clone, Copy, Debug, PartialEq, Eq, Hash, Structural)]
pub struct SurfaceCapabilities {
    pub supports_color: bool,
    pub supports_images: bool,
    pub supports_text: bool,
    pub supports_brightness: bool,
    pub supports_haptics: bool,
}

impl Default for SurfaceCapabilities {
    fn default() -> (capabilities: Self)
        ensures
            !capabilities.supports_color,
            !capabilities.supports_images,
            !capabilities.supports_text,
            !capabilities.supports_brightness,
            !capabilities.supports_haptics,
    {
        SurfaceCapabilities {
            supports_color: false,
            supports_images: false,
            supports_text: false,
            supports_brightness: false,
            supports_haptics: false,
        }
    }
}

/// How a surface arranges its keys.
#[derive(Clone, Copy, Debug, PartialEq, Eq, Hash, Structural)]
pub enum SurfaceLayout {
    Grid { columns: u16, rows: u16 },
    Freeform,
}

/// What starts an action binding.
#[derive(Clone, Copy, Debug, PartialEq, Eq, Hash, Structural)]
pub enum ActionTrigger {
    Press,
    Release,
    /// Held down for `duration_ms` milliseconds.
    Hold { duration_ms: u64 },
}

/// Where a subpanel opens relative to the key that opened it.
#[derive(Clone, Copy, Debug, PartialEq, Eq, Hash, Structural)]
pub enum SubpanelPlacement {
    TopStart,
    TopCenter,
    TopEnd,
    StartCenter,
    EndCenter,
    BottomStart,
    BottomCenter,
    BottomEnd,
}

/// A JSON document as the library carries it: action parameters and the
/// values a button sets. Object members keep the order they were written in.
#[derive(Debug, PartialEq, Eq)]
pub enum JsonValue {
    Null,
    Bool(bool),
    Integer(i64),
    /// Any other number, as its JSON text: a fraction, an exponent, or a
    /// whole number too large for `Integer`.
    Number(String),
    Text(String),
    Array(Vec<JsonValue>),
    Object(Vec<(String, JsonValue)>),
}

/// Text as a JSON value.
pub fn json_text(text: &str) -> (value: JsonValue)
    ensures
        value matches JsonValue::Text(t) && t@ == text@,
{
    JsonValue::Text(owned(text))
}

/// A JSON object member.
pub fn member(key: &str, value: JsonValue) -> (entry: (String, JsonValue))
    ensures
        entry.0@ == key@,
        entry.1 == value,
{
    (owned(key), value)
}

/// One thing a key press does.
#[derive(Debug, PartialEq, Eq)]
pub enum Action {
    /// Calls an action of a plugin instance.
    InvokeIntegration { integration_id: IntegrationId, action_name: String, parameters: JsonValue },
    /// Writes a value into the `user` namespace.
    SetVariable { name: String, value: JsonValue },
    /// Opens another panel over this one.
    OpenSubpanel { panel_id: PanelId, placement: SubpanelPlacement },
    /// Closes the topmost subpanel.
    CloseSubpanel,
    /// Shows another panel on the device.
    ChangePanel { panel_id: PanelId },
    /// Waits before the next action.
    Wait { duration_ms: u64 },
}

/// The actions one gesture runs, in order.
#[derive(Debug, PartialEq, Eq)]
pub struct ActionBinding {
    pub gesture: ActionTrigger,
    pub actions: Vec<Action>,
}

/// One control on a panel.
#[derive(Debug, PartialEq, Eq)]
pub struct Control {
    pub control_id: ControlId,
    pub name: String,
    pub position: SurfacePosition,
    pub default_state: RenderedState,
    pub pressed_state: Option<RenderedState>,
    pub action_bindings: Vec<ActionBinding>,
}

/// A control without a place: what a preset offers to be dropped on a key.
#[derive(Debug, PartialEq, Eq)]
pub struct ControlTemplate {
    pub name: String,
    pub default_state: RenderedState,
    pub pressed_state: Option<RenderedState>,
    pub action_bindings: Vec<ActionBinding>,
}

/// A panel's key grid.
#[derive(Clone, Copy, Debug, PartialEq, Eq, Hash, Structural)]
pub struct PanelLayout {
    pub columns: u16,
    pub rows: u16,
}

/// A page of controls, shown on every surface whose layout and capabilities
/// fit it.
#[derive(Debug, PartialEq, Eq)]
pub struct Panel {
    pub panel_id: PanelId,
    pub name: String,
    pub layout: PanelLayout,
    pub capabilities: SurfaceCapabilities,
    pub controls: Vec<Control>,
    /// The colour each dial ring starts in, by dial index.
    pub dial_colors: Vec<RgbaColor>,
    /// The level, in percent, each dial ring starts at, by dial index.
    pub dial_ring_levels: Vec<u8>,
}

} // verus!
