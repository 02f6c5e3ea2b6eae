//! What a control resolves to: every binding of its state replaced by the
//! value it names. This is what a key is drawn from, and what the device
//! preview in the browser is drawn from too, so the two cannot drift.

use vstd::prelude::*;
use crate::identifiers::AssetId;
use crate::numbers::digit_value;
use crate::panels::{Anchor9, Border, ColorBinding, Control, Edge, OverlayImage, RenderedState, RgbaColor, ValueBinding};
use crate::template::{
    answers, has_reference, interpolate, lookups_made, render_template, template_references, VariableRef,
};
use crate::text::{chars_of, decimal, decimal_text, option_view};

verus! {

/// The value of a hexadecimal digit.
pub open spec fn hex_value(c: char) -> Option<nat> {
    digit_value(c, 16)
}

/// The byte two hexadecimal digits at `i` and `i + 1` spell.
pub open spec fn hex_byte(text: Seq<char>, i: int) -> Option<u8> {
    match (hex_value(text[i]), hex_value(text[i + 1])) {
        (Some(high), Some(low)) => Some((high * 16 + low) as u8),
        _ => None,
    }
}

/// The colour `#rrggbb` or `#rrggbbaa` spells, the first fully opaque.
pub open spec fn hex_color(text: Seq<char>) -> Option<RgbaColor> {
    if (text.len() == 7 || text.len() == 9) && text[0] == '#' {
        match (hex_byte(text, 1), hex_byte(text, 3), hex_byte(text, 5)) {
            (Some(red), Some(green), Some(blue)) => if text.len() == 7 {
                Some(RgbaColor { red, green, blue, alpha: 255 })
            } else {
                match hex_byte(text, 7) {
                    Some(alpha) => Some(RgbaColor { red, green, blue, alpha }),
                    None => None,
                }
            },
            _ => None,
        }
    } else {
        None
    }
}

fn hex_digit(c: char) -> (value: Option<u8>)
    ensures
        match value {
            Some(v) => hex_value(c) == Some(v as nat),
            None => hex_value(c) is None,
        },
{
    if '0' <= c && c <= '9' {
        Some((c as u32 - '0' as u32) as u8)
    } else if 'a' <= c && c <= 'f' {
        Some((c as u32 - 'a' as u32 + 10) as u8)
    } else if 'A' <= c && c <= 'F' {
        Some((c as u32 - 'A' as u32 + 10) as u8)
    } else {
        None
    }
}

fn byte_at(chars: &Vec<char>, i: usize) -> (byte: Option<u8>)
    requires
        i + 1 < chars@.len(),
    ensures
        byte == hex_byte(chars@, i as int),
{
    let count = chars.len();
    assert(i + 1 < count);
    match (hex_digit(chars[i]), hex_digit(chars[i + 1])) {
        (Some(high), Some(low)) => Some(high * 16 + low),
        _ => None,
    }
}

impl RgbaColor {
    /// The colour `#rrggbb` or `#rrggbbaa` spells; nothing for any other text.
    pub fn from_hex(text: &str) -> (color: Option<RgbaColor>)
        ensures
            color == hex_color(text@),
    {
        let chars = chars_of(text);
        if !((chars.len() == 7 || chars.len() == 9) && chars[0] == '#') {
            return None;
        }
        match (byte_at(&chars, 1), byte_at(&chars, 3), byte_at(&chars, 5)) {
            (Some(red), Some(green), Some(blue)) => if chars.len() == 7 {
                Some(RgbaColor { red, green, blue, alpha: 255 })
            } else {
                match byte_at(&chars, 7) {
                    Some(alpha) => Some(RgbaColor { red, green, blue, alpha }),
                    None => None,
                }
            },
            _ => None,
        }
    }
}

/// Whether `text` is what interpolating `template` gave, asking `lookup`
/// once for each reference in it.
pub open spec fn renders<F: Fn(&VariableRef) -> Option<String>>(lookup: F, template: Seq<char>, text: Seq<char>) -> bool {
    exists|looked: Seq<(VariableRef, Option<String>)>|
        #[trigger] lookups_made(lookup, template_references(template), looked) && text == render_template(
            template,
            answers(looked),
        )
}

/// An overlay badge once its image is resolved.
#[derive(Debug)]
pub struct ResolvedOverlay {
    pub image: AssetId,
    pub anchor: Anchor9,
    pub scale_percent: u8,
    pub tint: Option<RgbaColor>,
}

/// A bar once its colour is resolved and its numbers are read as text: a
/// literal written in decimal, a reference as what it renders to. The
/// drawing reads the numbers.
#[derive(Debug)]
pub struct ResolvedBar {
    pub value: String,
    pub maximum: String,
    pub color: RgbaColor,
    pub edge: Edge,
    pub thickness: u8,
}

/// A border once its colour is resolved.
#[derive(Debug, PartialEq, Eq, Structural)]
pub struct ResolvedBorder {
    pub color: RgbaColor,
    pub width: u8,
}

/// What a control resolved to: every binding replaced by the value it names.
#[derive(Debug)]
pub struct ResolvedState {
    pub text: Option<String>,
    pub image: Option<AssetId>,
    pub image_tint: Option<RgbaColor>,
    pub overlay_image: Option<ResolvedOverlay>,
    pub foreground_color: Option<RgbaColor>,
    pub background_color: Option<RgbaColor>,
    pub border: Option<ResolvedBorder>,
    pub bar: Option<ResolvedBar>,
}

/// Whether `resolved` is the text a bar number reads as.
pub open spec fn value_resolved<F: Fn(&VariableRef) -> Option<String>>(
    lookup: F,
    binding: ValueBinding,
    resolved: Seq<char>,
) -> bool {
    match binding {
        ValueBinding::Literal(n) => resolved == decimal(n as nat),
        ValueBinding::Reference(reference) => renders(lookup, reference@, resolved),
    }
}

fn resolve_value<F: Fn(&VariableRef) -> Option<String>>(binding: &ValueBinding, lookup: &F) -> (text: String)
    requires
        forall|reference: &VariableRef| call_requires(*lookup, (reference,)),
    ensures
        value_resolved(lookup, *binding, text@),
{
    match binding {
        ValueBinding::Literal(n) => decimal_text(*n as u64),
        ValueBinding::Reference(reference) => render(reference.as_str(), lookup),
    }
}

/// Whether `resolved` is what an image slot holding `asset` resolves to: a
/// literal asset id as it is; a reference to what it renders to, or nothing
/// when that is empty.
pub open spec fn asset_resolved<F: Fn(&VariableRef) -> Option<String>>(
    lookup: F,
    asset: Seq<char>,
    resolved: Option<Seq<char>>,
) -> bool {
    if template_references(asset).len() == 0 {
        resolved == Some(asset)
    } else {
        exists|text: Seq<char>|
            #[trigger] renders(lookup, asset, text) && resolved == (if text.len() == 0 {
                None
            } else {
                Some(text)
            })
    }
}

/// Whether `resolved` is what a colour binding resolves to: a literal as it
/// is; a reference to the colour its rendered text spells, or nothing.
pub open spec fn color_resolved<F: Fn(&VariableRef) -> Option<String>>(
    lookup: F,
    binding: Option<ColorBinding>,
    resolved: Option<RgbaColor>,
) -> bool {
    match binding {
        None => resolved is None,
        Some(ColorBinding::Literal(color)) => resolved == Some(color),
        Some(ColorBinding::Reference(reference)) => exists|text: Seq<char>|
            #[trigger] renders(lookup, reference@, text) && resolved == hex_color(text),
    }
}

/// Interpolates a template with `lookup`.
fn render<F: Fn(&VariableRef) -> Option<String>>(template: &str, lookup: &F) -> (text: String)
    requires
        forall|reference: &VariableRef| call_requires(*lookup, (reference,)),
    ensures
        renders(lookup, template@, text@),
{
    let text = interpolate(template, lookup);
    text
}

/// What a colour binding resolves to. A reference that renders to something
/// that is not a colour leaves the colour unset rather than black, so a key
/// whose plugin has not answered yet looks unstyled.
pub fn resolve_color<F: Fn(&VariableRef) -> Option<String>>(binding: Option<&ColorBinding>, lookup: &F) -> (color:
    Option<RgbaColor>)
    requires
        forall|reference: &VariableRef| call_requires(*lookup, (reference,)),
    ensures
        color_resolved(
            lookup,
            match binding {
                Some(b) => Some(*b),
                None => None,
            },
            color,
        ),
{
    match binding {
        None => None,
        Some(ColorBinding::Literal(color)) => Some(*color),
        Some(ColorBinding::Reference(reference)) => {
            let text = render(reference.as_str(), lookup);
            RgbaColor::from_hex(text.as_str())
        },
    }
}

/// What an image slot resolves to.
fn resolve_asset<F: Fn(&VariableRef) -> Option<String>>(asset: &AssetId, lookup: &F) -> (resolved: Option<AssetId>)
    requires
        forall|reference: &VariableRef| call_requires(*lookup, (reference,)),
    ensures
        asset_resolved(
            lookup,
            asset@,
            match resolved {
                Some(a) => Some(a@),
                None => None,
            },
        ),
{
    if !has_reference(asset.0.as_str()) {
        return Some(asset.clone());
    }
    let text = render(asset.0.as_str(), lookup);
    if chars_of(text.as_str()).len() == 0 {
        None
    } else {
        Some(AssetId(text))
    }
}

/// Whether `resolved` is what a state's text resolves to: the rendered text,
/// or nothing when that is empty.
pub open spec fn text_resolved<F: Fn(&VariableRef) -> Option<String>>(
    lookup: F,
    text: Option<String>,
    resolved: Option<Seq<char>>,
) -> bool {
    match text {
        None => resolved is None,
        Some(template) => exists|rendered: Seq<char>|
            #[trigger] renders(lookup, template@, rendered) && resolved == (if rendered.len() == 0 {
                None
            } else {
                Some(rendered)
            }),
    }
}

/// Whether `resolved` is what a state resolves to, field by field: the text
/// and images rendered, the colours resolved; an overlay that resolves to
/// no image or has no size, and a border whose colour does not resolve or
/// has no width, are not drawn.
pub open spec fn state_resolved<F: Fn(&VariableRef) -> Option<String>>(
    lookup: F,
    state: RenderedState,
    resolved: ResolvedState,
) -> bool {
    &&& text_resolved(lookup, state.text, option_view(resolved.text))
    &&& match state.image {
        None => resolved.image is None,
        Some(asset) => asset_resolved(
            lookup,
            asset@,
            match resolved.image {
                Some(a) => Some(a@),
                None => None,
            },
        ),
    }
    &&& match state.overlay_image {
        None => resolved.overlay_image is None,
        Some(overlay) => exists|image: Option<Seq<char>>|
            #[trigger] asset_resolved(lookup, overlay.image@, image) && match (image, resolved.overlay_image) {
                (Some(i), Some(o)) => overlay.scale_percent > 0 && o.image@ == i && o.anchor == overlay.anchor
                    && o.scale_percent == overlay.scale_percent && color_resolved(lookup, overlay.tint, o.tint),
                (Some(_), None) => overlay.scale_percent == 0,
                (None, None) => true,
                (None, Some(_)) => false,
            },
    }
    &&& color_resolved(lookup, state.image_tint, resolved.image_tint)
    &&& color_resolved(lookup, state.foreground_color, resolved.foreground_color)
    &&& color_resolved(lookup, state.background_color, resolved.background_color)
    &&& match state.bar {
        None => resolved.bar is None,
        Some(bar) => exists|color: Option<RgbaColor>|
            #[trigger] color_resolved(lookup, Some(bar.color), color) && match (color, resolved.bar) {
                (Some(c), Some(b)) => b.color == c && b.edge == bar.edge && b.thickness == bar.thickness
                    && value_resolved(lookup, bar.value, b.value@) && value_resolved(lookup, bar.maximum, b.maximum@),
                (None, None) => true,
                _ => false,
            },
    }
    &&& match state.border {
        None => resolved.border is None,
        Some(border) => exists|color: Option<RgbaColor>|
            #[trigger] color_resolved(lookup, Some(border.color), color) && resolved.border == (match color {
                Some(c) => if border.width > 0 {
                    Some(ResolvedBorder { color: c, width: border.width })
                } else {
                    None
                },
                None => None,
            }),
    }
}

/// What a state resolves to.
fn resolve_state<F: Fn(&VariableRef) -> Option<String>>(state: &RenderedState, lookup: &F) -> (resolved: ResolvedState)
    requires
        forall|reference: &VariableRef| call_requires(*lookup, (reference,)),
    ensures
        state_resolved(lookup, *state, resolved),
{
    let text = match &state.text {
        Some(template) => {
            let rendered = render(template.as_str(), lookup);
            if chars_of(rendered.as_str()).len() == 0 {
                None
            } else {
                Some(rendered)
            }
        },
        None => None,
    };
    let image = match &state.image {
        Some(asset) => resolve_asset(asset, lookup),
        None => None,
    };
    let overlay_image = match &state.overlay_image {
        Some(overlay) => match resolve_asset(&overlay.image, lookup) {
            Some(image) => if overlay.scale_percent > 0 {
                Some(
                    ResolvedOverlay {
                        image,
                        anchor: overlay.anchor,
                        scale_percent: overlay.scale_percent,
                        tint: resolve_color(overlay.tint.as_ref(), lookup),
                    },
                )
            } else {
                None
            },
            None => None,
        },
        None => None,
    };
    let foreground_color = resolve_color(state.foreground_color.as_ref(), lookup);
    let background_color = resolve_color(state.background_color.as_ref(), lookup);
    let border = match &state.border {
        Some(border) => match resolve_color(Some(&border.color), lookup) {
            Some(color) => if border.width > 0 {
                Some(ResolvedBorder { color, width: border.width })
            } else {
                None
            },
            None => None,
        },
        None => None,
    };
    let image_tint = resolve_color(state.image_tint.as_ref(), lookup);
    let bar = match &state.bar {
        Some(bar) => match resolve_color(Some(&bar.color), lookup) {
            Some(color) => Some(
                ResolvedBar {
                    value: resolve_value(&bar.value, lookup),
                    maximum: resolve_value(&bar.maximum, lookup),
                    color,
                    edge: bar.edge,
                    thickness: bar.thickness,
                },
            ),
            None => None,
        },
        None => None,
    };
    ResolvedState {
        text,
        image,
        image_tint,
        overlay_image,
        foreground_color,
        background_color,
        border,
        bar,
    }
}

/// The state a key shows: the pressed state while pressed, when the control
/// has one, else the default state.
pub open spec fn shown_state(default_state: RenderedState, pressed_state: Option<RenderedState>, is_pressed: bool) -> RenderedState {
    if is_pressed {
        match pressed_state {
            Some(pressed) => pressed,
            None => default_state,
        }
    } else {
        default_state
    }
}

/// Resolution of a default and an optional pressed state, without a
/// control, so a draft can be previewed by the same code that draws the
/// device.
pub fn resolve_states<F: Fn(&VariableRef) -> Option<String>>(
    default_state: &RenderedState,
    pressed_state: Option<&RenderedState>,
    is_pressed: bool,
    lookup: &F,
) -> (resolved: ResolvedState)
    requires
        forall|reference: &VariableRef| call_requires(*lookup, (reference,)),
    ensures
        state_resolved(
            lookup,
            shown_state(
                *default_state,
                match pressed_state {
                    Some(p) => Some(*p),
                    None => None,
                },
                is_pressed,
            ),
            resolved,
        ),
{
    let state = if is_pressed {
        match pressed_state {
            Some(pressed) => pressed,
            None => default_state,
        }
    } else {
        default_state
    };
    resolve_state(state, lookup)
}

/// What a control resolves to, pressed or not.
pub fn resolve<F: Fn(&VariableRef) -> Option<String>>(control: &Control, is_pressed: bool, lookup: &F) -> (resolved:
    ResolvedState)
    requires
        forall|reference: &VariableRef| call_requires(*lookup, (reference,)),
    ensures
        state_resolved(lookup, shown_state(control.default_state, control.pressed_state, is_pressed), resolved),
{
    resolve_states(&control.default_state, control.pressed_state.as_ref(), is_pressed, lookup)
}

} // verus!
