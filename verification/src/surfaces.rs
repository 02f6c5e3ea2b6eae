//! Surfaces: the devices the daemon drives, what they report and what they
//! are told to show, and the geometry of keys, dial rings and subpanels.

use vstd::prelude::*;
use crate::identifiers::{AssetId, PanelId, SurfaceId};
use crate::panels::{Control, RgbaColor, SubpanelPlacement, SurfaceCapabilities, SurfacePosition, SurfaceLayout};

verus! {

/// Where a network surface's connection stands.
#[derive(Clone, Copy, Debug, PartialEq, Eq, Structural)]
pub enum NetworkSurfaceStatus {
    Connecting,
    Connected,
    Unavailable,
    Disabled,
}

impl Default for NetworkSurfaceStatus {
    fn default() -> (status: Self)
        ensures
            status == NetworkSurfaceStatus::Connecting,
    {
        NetworkSurfaceStatus::Connecting
    }
}

/// A device found on the network and not yet managed.
#[derive(Clone, Debug)]
pub struct DiscoveredNetworkSurface {
    pub discovery_id: String,
    pub name: String,
    pub host: String,
    pub port: u16,
    pub serial_number: Option<String>,
    pub model: String,
}

/// A subpanel open over a device's panel: which panel, and the key grid
/// cell its top left corner sits on.
#[derive(Debug)]
pub struct OpenSubpanel {
    pub panel_id: PanelId,
    pub column: i16,
    pub row: i16,
}

impl Clone for OpenSubpanel {
    fn clone(&self) -> (copy: Self)
        ensures
            copy == *self,
    {
        OpenSubpanel { panel_id: self.panel_id.clone(), column: self.column, row: self.row }
    }
}

/// A device the daemon drives.
#[derive(Debug)]
pub struct ManagedNetworkSurface {
    pub surface_id: SurfaceId,
    pub name: String,
    pub host: String,
    pub port: u16,
    pub serial_number: Option<String>,
    pub model: String,
    pub layout: SurfaceLayout,
    pub capabilities: SurfaceCapabilities,
    pub active_panel_id: Option<PanelId>,
    /// The subpanels open over the active panel, the topmost last.
    pub open_subpanels: Vec<OpenSubpanel>,
    pub is_enabled: bool,
    /// The dock a device is plugged into, for a device reached through one.
    pub parent_surface_id: Option<SurfaceId>,
    pub status: NetworkSurfaceStatus,
    pub last_error: Option<String>,
}

/// Whether two devices hold the same: every field, and the same subpanels
/// open.
pub open spec fn same_device(a: ManagedNetworkSurface, b: ManagedNetworkSurface) -> bool {
    &&& a.surface_id == b.surface_id
    &&& a.name == b.name
    &&& a.host == b.host
    &&& a.port == b.port
    &&& a.serial_number == b.serial_number
    &&& a.model == b.model
    &&& a.layout == b.layout
    &&& a.capabilities == b.capabilities
    &&& a.active_panel_id == b.active_panel_id
    &&& a.open_subpanels@ == b.open_subpanels@
    &&& a.is_enabled == b.is_enabled
    &&& a.parent_surface_id == b.parent_surface_id
    &&& a.status == b.status
    &&& a.last_error == b.last_error
}

impl Clone for ManagedNetworkSurface {
    fn clone(&self) -> (copy: Self)
        ensures
            same_device(copy, *self),
    {
        let open_subpanels = self.open_subpanels.clone();
        proof {
            assert(open_subpanels@ =~= self.open_subpanels@);
        }
        ManagedNetworkSurface {
            surface_id: self.surface_id.clone(),
            name: self.name.clone(),
            host: self.host.clone(),
            port: self.port,
            serial_number: match &self.serial_number {
                Some(serial) => Some(serial.clone()),
                None => None,
            },
            model: self.model.clone(),
            layout: self.layout,
            capabilities: self.capabilities,
            active_panel_id: match &self.active_panel_id {
                Some(id) => Some(id.clone()),
                None => None,
            },
            open_subpanels,
            is_enabled: self.is_enabled,
            parent_surface_id: match &self.parent_surface_id {
                Some(id) => Some(id.clone()),
                None => None,
            },
            status: self.status,
            last_error: match &self.last_error {
                Some(error) => Some(error.clone()),
                None => None,
            },
        }
    }
}

/// The kind of device a user adds by address.
#[derive(Clone, Copy, Debug, PartialEq, Eq, Structural)]
pub enum SurfaceKind {
    Studio,
    NetworkDock,
}

impl Default for SurfaceKind {
    fn default() -> (kind: Self)
        ensures
            kind == SurfaceKind::Studio,
    {
        SurfaceKind::Studio
    }
}

impl SurfaceKind {
    /// The model name the device is listed under.
    pub fn model_name(self) -> (name: &'static str)
        ensures
            name@ == match self {
                SurfaceKind::Studio => "Stream Deck Studio"@,
                SurfaceKind::NetworkDock => "Stream Deck Network Dock"@,
            },
    {
        match self {
            SurfaceKind::Studio => "Stream Deck Studio",
            SurfaceKind::NetworkDock => "Stream Deck Network Dock",
        }
    }

    /// Whether the device is a dock that other devices are reached through.
    pub fn is_network_dock(self) -> (dock: bool)
        ensures
            dock == (self == SurfaceKind::NetworkDock),
    {
        match self {
            SurfaceKind::NetworkDock => true,
            SurfaceKind::Studio => false,
        }
    }
}

/// A request to manage a device at an address.
#[derive(Clone, Debug)]
pub struct AddNetworkSurface {
    pub name: String,
    pub host: String,
    pub port: Option<u16>,
    pub serial_number: Option<String>,
    pub kind: SurfaceKind,
}

/// A change to a managed device.
#[derive(Clone, Copy, Debug)]
pub struct UpdateNetworkSurface {
    pub is_enabled: bool,
}

/// A key going down or coming up.
#[derive(Debug)]
pub struct SurfaceKeyEvent {
    pub surface_id: SurfaceId,
    pub key_index: u8,
    pub is_pressed: bool,
}

impl Clone for SurfaceKeyEvent {
    fn clone(&self) -> (copy: Self)
        ensures
            copy == *self,
    {
        SurfaceKeyEvent { surface_id: self.surface_id.clone(), key_index: self.key_index, is_pressed: self.is_pressed }
    }
}

/// Where a dial currently stands, as a percentage of its ring. The panel
/// keeps the level the dial starts from, and turning the knob never rewrites
/// it.
#[derive(Clone, Debug)]
pub struct SurfaceDialState {
    pub surface_id: SurfaceId,
    pub dial_index: u8,
    pub level: u8,
}

/// A dial being pressed or released.
#[derive(Clone, Debug)]
pub struct SurfaceDialPress {
    pub surface_id: SurfaceId,
    pub dial_index: u8,
    pub is_pressed: bool,
}

/// How loud a line of a device's activity log is.
#[derive(Clone, Copy, Debug, PartialEq, Eq, Structural)]
pub enum SurfaceLogLevel {
    Input,
    Info,
    Warning,
}

/// One line of a device's activity log: what the daemon saw the device do,
/// and what it did back.
#[derive(Debug)]
pub struct SurfaceLogEntry {
    pub surface_id: SurfaceId,
    /// Per surface and monotonic, so a snapshot can be deduplicated against
    /// the live stream.
    pub sequence: u64,
    pub at_ms: u64,
    pub level: SurfaceLogLevel,
    pub message: String,
}

impl Clone for SurfaceLogEntry {
    fn clone(&self) -> (copy: Self)
        ensures
            copy == *self,
    {
        SurfaceLogEntry {
            surface_id: self.surface_id.clone(),
            sequence: self.sequence,
            at_ms: self.at_ms,
            level: self.level,
            message: self.message.clone(),
        }
    }
}

/// What a person did to a control.
#[derive(Clone, Copy, Debug, PartialEq, Eq, Structural)]
pub enum GestureKind {
    Press,
    Release,
    Hold { duration_ms: u64 },
    Repeat { interval_ms: u64 },
    Rotate { delta: i32 },
    SetValue { value: u16, maximum_value: u16 },
}

/// A gesture on one control of one surface.
#[derive(Clone, Debug)]
pub struct Gesture {
    pub surface_id: SurfaceId,
    pub surface_control_id: String,
    pub kind: GestureKind,
}

/// The capabilities of a Stream Deck Studio: colour keys with images and
/// text, adjustable brightness, no haptics.
pub fn studio_capabilities() -> (capabilities: SurfaceCapabilities)
    ensures
        capabilities == (SurfaceCapabilities {
            supports_color: true,
            supports_images: true,
            supports_text: true,
            supports_brightness: true,
            supports_haptics: false,
        }),
{
    SurfaceCapabilities {
        supports_color: true,
        supports_images: true,
        supports_text: true,
        supports_brightness: true,
        supports_haptics: false,
    }
}

/// The key a grid position is, counted row by row, when it fits in a key
/// index.
pub open spec fn key_index_spec(position: SurfacePosition, columns: u16) -> Option<u8> {
    let index = position.row * columns + position.column;
    if index < 256 {
        Some(index as u8)
    } else {
        None
    }
}

/// The key a control sits on, on a grid `columns` keys wide.
pub fn key_index_for(control: &Control, columns: u16) -> (index: Option<u8>)
    ensures
        index == key_index_spec(control.position, columns),
{
    let row = control.position.row as u32;
    let column = control.position.column as u32;
    assert(row * columns <= 65535 * 65535) by (nonlinear_arith)
        requires
            row <= 65535,
            columns <= 65535,
    ;
    let index = row * (columns as u32) + column;
    if index < 256 {
        Some(index as u8)
    } else {
        None
    }
}

/// Rotary dials on a Stream Deck Studio.
pub const DIAL_COUNT: u8 = 2;

/// The LED segments making up one dial ring. A single detent of the knob is
/// one segment.
pub const DIAL_RING_SEGMENTS: u8 = 24;

/// The segments lit for a level in percent, rounding down; a level above a
/// full ring is a full ring.
pub open spec fn segments_spec(percent: u8) -> u8 {
    let capped = if percent > 100 {
        100
    } else {
        percent
    };
    ((capped * DIAL_RING_SEGMENTS) / 100) as u8
}

/// The level in percent a count of lit segments reads as, rounding up so it
/// converts back to the same count.
pub open spec fn percent_spec(lit_segments: u8) -> u8 {
    let capped = if lit_segments > DIAL_RING_SEGMENTS {
        DIAL_RING_SEGMENTS
    } else {
        lit_segments
    };
    ((capped * 100 + DIAL_RING_SEGMENTS - 1) / (DIAL_RING_SEGMENTS as int)) as u8
}

/// The segments lit for a level in percent.
pub fn segments_from_percent(percent: u8) -> (segments: u8)
    ensures
        segments == segments_spec(percent),
        segments <= DIAL_RING_SEGMENTS,
{
    let capped: u16 = if percent > 100 {
        100
    } else {
        percent as u16
    };
    let segments = capped * (DIAL_RING_SEGMENTS as u16) / 100;
    segments as u8
}

/// The level in percent a count of lit segments reads as. Rounds up, so a
/// level reported to the API converts back to the same segment count the
/// device is lighting: one lit segment reads as 5%, not 4%.
pub fn percent_from_segments(lit_segments: u8) -> (percent: u8)
    ensures
        percent == percent_spec(lit_segments),
        percent <= 100,
{
    let capped: u16 = if lit_segments > DIAL_RING_SEGMENTS {
        DIAL_RING_SEGMENTS as u16
    } else {
        lit_segments as u16
    };
    let percent = (capped * 100 + (DIAL_RING_SEGMENTS as u16) - 1) / (DIAL_RING_SEGMENTS as u16);
    percent as u8
}

/// A level reported for a ring converts back to the segments the ring is
/// lighting.
pub proof fn lemma_dial_level_round_trip(lit_segments: u8)
    requires
        lit_segments <= DIAL_RING_SEGMENTS,
    ensures
        segments_spec(percent_spec(lit_segments)) == lit_segments,
{
    assert(lit_segments <= 24 ==> (((((lit_segments as u16) * 100 + 23) / 24) * 24) / 100) as u8
        == lit_segments) by (bit_vector);
}

/// `value` held between `low` and `high`, for `low <= high`.
pub open spec fn clamped(value: int, low: int, high: int) -> int {
    if value < low {
        low
    } else if value > high {
        high
    } else {
        value
    }
}

/// Where a subpanel's top-left corner lands, before it is held on the
/// surface: placed around the anchor key as asked.
pub open spec fn placed_origin(
    anchor: SurfacePosition,
    panel_columns: int,
    panel_rows: int,
    placement: SubpanelPlacement,
) -> (int, int) {
    let column = anchor.column as int;
    let row = anchor.row as int;
    match placement {
        SubpanelPlacement::TopStart => (column, row - panel_rows),
        SubpanelPlacement::TopCenter => (column - panel_columns / 2, row - panel_rows),
        SubpanelPlacement::TopEnd => (column - panel_columns + 1, row - panel_rows),
        SubpanelPlacement::StartCenter => (column - panel_columns, row - panel_rows / 2),
        SubpanelPlacement::EndCenter => (column + 1, row - panel_rows / 2),
        SubpanelPlacement::BottomStart => (column, row + 1),
        SubpanelPlacement::BottomCenter => (column - panel_columns / 2, row + 1),
        SubpanelPlacement::BottomEnd => (column - panel_columns + 1, row + 1),
    }
}

/// The subpanel's origin: placed around the anchor, moved by the offsets, and
/// then held so it stays on the surface where it fits, or at the surface's
/// origin where it does not.
pub open spec fn subpanel_origin_spec(
    anchor: SurfacePosition,
    panel_columns: u16,
    panel_rows: u16,
    viewport_columns: u16,
    viewport_rows: u16,
    placement: SubpanelPlacement,
    offset_columns: i16,
    offset_rows: i16,
) -> (int, int) {
    let placed = placed_origin(anchor, panel_columns as int, panel_rows as int, placement);
    let max_column = if viewport_columns - panel_columns > 0 {
        viewport_columns - panel_columns
    } else {
        0
    };
    let max_row = if viewport_rows - panel_rows > 0 {
        viewport_rows - panel_rows
    } else {
        0
    };
    (
        clamped(placed.0 + offset_columns, 0, max_column),
        clamped(placed.1 + offset_rows, 0, max_row),
    )
}

/// Where a subpanel opened from a key lands on a surface.
pub fn subpanel_origin(
    anchor: SurfacePosition,
    panel_columns: u16,
    panel_rows: u16,
    viewport_columns: u16,
    viewport_rows: u16,
    placement: SubpanelPlacement,
    offset_columns: i16,
    offset_rows: i16,
) -> (origin: (i16, i16))
    ensures
        origin.0 == subpanel_origin_spec(
            anchor,
            panel_columns,
            panel_rows,
            viewport_columns,
            viewport_rows,
            placement,
            offset_columns,
            offset_rows,
        ).0 as i16,
        origin.1 == subpanel_origin_spec(
            anchor,
            panel_columns,
            panel_rows,
            viewport_columns,
            viewport_rows,
            placement,
            offset_columns,
            offset_rows,
        ).1 as i16,
{
    let anchor_column = anchor.column as i32;
    let anchor_row = anchor.row as i32;
    let columns = panel_columns as i32;
    let rows = panel_rows as i32;
    let (column, row) = match placement {
        SubpanelPlacement::TopStart => (anchor_column, anchor_row - rows),
        SubpanelPlacement::TopCenter => (anchor_column - columns / 2, anchor_row - rows),
        SubpanelPlacement::TopEnd => (anchor_column - columns + 1, anchor_row - rows),
        SubpanelPlacement::StartCenter => (anchor_column - columns, anchor_row - rows / 2),
        SubpanelPlacement::EndCenter => (anchor_column + 1, anchor_row - rows / 2),
        SubpanelPlacement::BottomStart => (anchor_column, anchor_row + 1),
        SubpanelPlacement::BottomCenter => (anchor_column - columns / 2, anchor_row + 1),
        SubpanelPlacement::BottomEnd => (anchor_column - columns + 1, anchor_row + 1),
    };
    let spare_columns = viewport_columns as i32 - columns;
    let spare_rows = viewport_rows as i32 - rows;
    let max_column = if spare_columns > 0 {
        spare_columns
    } else {
        0
    };
    let max_row = if spare_rows > 0 {
        spare_rows
    } else {
        0
    };
    let moved_column = column + offset_columns as i32;
    let moved_row = row + offset_rows as i32;
    let held_column = if moved_column < 0 {
        0
    } else if moved_column > max_column {
        max_column
    } else {
        moved_column
    };
    let held_row = if moved_row < 0 {
        0
    } else if moved_row > max_row {
        max_row
    } else {
        moved_row
    };
    (held_column as i16, held_row as i16)
}

/// A control as a surface shows it, on the key it lands on, dimmed when a
/// subpanel covers the surface and the control is not on it.
#[derive(Debug)]
pub struct PresentationControl {
    pub control: Control,
    pub key_index: u8,
    pub is_dimmed: bool,
}

/// Everything a surface shows, key by key.
#[derive(Debug)]
pub struct SurfacePresentation {
    pub columns: u16,
    pub rows: u16,
    pub controls: Vec<PresentationControl>,
}

/// One layer of what a key is drawn from, bottom first.
#[derive(Debug, PartialEq, Eq, Hash)]
pub enum ResolvedLayer {
    /// The whole key in one colour.
    Fill { color: RgbaColor },
    /// An image.
    Image { image: AssetId },
    /// A label.
    Text { text: String, color: RgbaColor },
}

/// What one key is told to show, every binding already resolved.
#[derive(Debug, PartialEq, Eq, Hash)]
pub struct KeyRendering {
    pub key_index: u8,
    pub layers: Vec<ResolvedLayer>,
    /// Shown darkened, as a key a subpanel covers.
    pub is_dimmed: bool,
}

/// A layer taken by its plain values.
pub enum LayerView {
    Fill(RgbaColor),
    Image(Seq<char>),
    Text(Seq<char>, RgbaColor),
}

impl View for ResolvedLayer {
    type V = LayerView;

    open spec fn view(&self) -> LayerView {
        match self {
            ResolvedLayer::Fill { color } => LayerView::Fill(*color),
            ResolvedLayer::Image { image } => LayerView::Image(image@),
            ResolvedLayer::Text { text, color } => LayerView::Text(text@, *color),
        }
    }
}

impl View for KeyRendering {
    type V = (u8, Seq<LayerView>, bool);

    open spec fn view(&self) -> (u8, Seq<LayerView>, bool) {
        (self.key_index, self.layers@.map_values(|layer: ResolvedLayer| layer@), self.is_dimmed)
    }
}

impl Clone for ResolvedLayer {
    fn clone(&self) -> (copy: Self)
        ensures
            copy == *self,
    {
        match self {
            ResolvedLayer::Fill { color } => ResolvedLayer::Fill { color: *color },
            ResolvedLayer::Image { image } => ResolvedLayer::Image { image: image.clone() },
            ResolvedLayer::Text { text, color } => ResolvedLayer::Text {
                text: text.clone(),
                color: *color,
            },
        }
    }
}

/// The colour of the first fill among `layers`, if there is one.
pub open spec fn first_fill(layers: Seq<LayerView>) -> Option<RgbaColor>
    decreases layers.len(),
{
    if layers.len() == 0 {
        None
    } else if layers[0] is Fill {
        Some(layers[0]->Fill_0)
    } else {
        first_fill(layers.drop_first())
    }
}

impl KeyRendering {
    /// The one colour a palette-only surface can show. The bottom-most fill
    /// is the key's own background; anything above it is detail those
    /// surfaces cannot express.
    pub fn palette_color(&self) -> (color: Option<RgbaColor>)
        ensures
            color == first_fill(self@.1),
    {
        let ghost layers = self@.1;
        assert(layers.skip(0) =~= layers);
        let mut i: usize = 0;
        while i < self.layers.len()
            invariant
                i <= self.layers@.len(),
                layers == self.layers@.map_values(|layer: ResolvedLayer| layer@),
                first_fill(layers) == first_fill(layers.skip(i as int)),
            decreases self.layers.len() - i,
        {
            assert(layers.skip(i as int).drop_first() =~= layers.skip(i + 1));
            match &self.layers[i] {
                ResolvedLayer::Fill { color } => {
                    return Some(*color);
                },
                _ => {},
            }
            i += 1;
        }
        assert(layers.skip(i as int) =~= Seq::<LayerView>::empty());
        None
    }
}

/// What a surface is told to do.
#[derive(Debug)]
pub enum SurfaceCommand {
    RenderKey(KeyRendering),
    RenderDialColor { dial_index: u8, color: RgbaColor, lit_segments: u8 },
}

} // verus!

verus! {

/// Whether `got` is `wanted` kept within `0..=max`: `wanted` itself when it
/// lies there, else the nearer end.
pub open spec fn held_at(wanted: int, got: int, max: int) -> bool {
    &&& 0 <= wanted <= max ==> got == wanted
    &&& wanted < 0 ==> got == 0
    &&& wanted > max ==> got == max
}

/// Where a subpanel lands around its anchor key, moved by the offsets:
/// - a `Top*` placement puts its last row directly above the anchor's row,
///   a `Bottom*` placement its first row directly below it, and
///   `StartCenter` and `EndCenter` centre it on the anchor's row;
/// - a `*Start` placement puts its first column on the anchor's column, a
///   `*End` placement its last column, a `*Center` placement centres it on
///   the anchor's column; `StartCenter` puts its last column directly left
///   of the anchor and `EndCenter` its first column directly right of it.
///
/// Where that would leave the surface the subpanel is held at the nearer
/// edge, so its origin always lies between zero and the room the surface
/// leaves for it.
pub proof fn lemma_subpanel_sits_beside_its_anchor(
    anchor: SurfacePosition,
    panel_columns: u16,
    panel_rows: u16,
    viewport_columns: u16,
    viewport_rows: u16,
    placement: SubpanelPlacement,
    offset_columns: i16,
    offset_rows: i16,
)
    ensures
        ({
            let origin = subpanel_origin_spec(
                anchor,
                panel_columns,
                panel_rows,
                viewport_columns,
                viewport_rows,
                placement,
                offset_columns,
                offset_rows,
            );
            let max_column = if viewport_columns > panel_columns { viewport_columns - panel_columns } else { 0 };
            let max_row = if viewport_rows > panel_rows { viewport_rows - panel_rows } else { 0 };
            let column = anchor.column + offset_columns;
            let row = anchor.row + offset_rows;
            let wanted_row = match placement {
                SubpanelPlacement::TopStart | SubpanelPlacement::TopCenter | SubpanelPlacement::TopEnd => row
                    - panel_rows,
                SubpanelPlacement::BottomStart | SubpanelPlacement::BottomCenter | SubpanelPlacement::BottomEnd => row
                    + 1,
                SubpanelPlacement::StartCenter | SubpanelPlacement::EndCenter => row - panel_rows / 2,
            };
            let wanted_column = match placement {
                SubpanelPlacement::TopStart | SubpanelPlacement::BottomStart => column,
                SubpanelPlacement::TopEnd | SubpanelPlacement::BottomEnd => column - (panel_columns - 1),
                SubpanelPlacement::TopCenter | SubpanelPlacement::BottomCenter => column - panel_columns / 2,
                SubpanelPlacement::StartCenter => column - panel_columns,
                SubpanelPlacement::EndCenter => column + 1,
            };
            &&& 0 <= origin.0 <= max_column
            &&& 0 <= origin.1 <= max_row
            &&& held_at(wanted_row, origin.1, max_row)
            &&& held_at(wanted_column, origin.0, max_column)
        }),
{
}

} // verus!
