//! The Stream Deck wire formats and key images: what a device's identity and
//! dock reports say, which model and layout a product id is, and the pixel
//! work on a key image before it is encoded.

use vstd::prelude::*;
use crate::panels::{RgbaColor, SurfaceLayout};
use crate::text::owned;

verus! {

/// The vendor id every Elgato device reports.
pub const ELGATO_VENDOR_ID: u16 = 0x0fd9;

/// The product id of a Stream Deck Studio.
pub const STREAM_DECK_STUDIO_PRODUCT_ID: u16 = 0x00aa;

/// The device type a Network Dock announces itself with.
pub const NETWORK_DOCK_DEVICE_TYPE: u16 = 215;

/// The product id a Network Dock reports for itself.
pub const NETWORK_DOCK_PRODUCT_ID: u16 = 0xffff;

/// The port a network Stream Deck listens on unless it says otherwise.
pub const DEFAULT_STREAM_DECK_PORT: u16 = 5343;

/// The side of a Studio key image, in pixels.
pub const STUDIO_KEY_IMAGE_SIZE: usize = 96;

/// The bytes of an RGB key image.
pub const KEY_IMAGE_BYTES: usize = 27648;

/// The port a network Stream Deck listens on unless it says otherwise.
pub fn default_port() -> (port: u16)
    ensures
        port == DEFAULT_STREAM_DECK_PORT,
{
    DEFAULT_STREAM_DECK_PORT
}

/// A little-endian 16-bit value.
pub open spec fn le16(low: u8, high: u8) -> u16 {
    (low + high * 256) as u16
}

fn read_le16(bytes: &[u8], at: usize) -> (value: u16)
    requires
        at + 1 < bytes@.len(),
    ensures
        value == le16(bytes@[at as int], bytes@[at + 1]),
{
    bytes[at] as u16 + (bytes[at + 1] as u16) * 256
}

/// The vendor and product id of a primary device-information reply: a report
/// of at least 16 bytes that starts `03 80`.
pub open spec fn primary_device_info_spec(payload: Seq<u8>) -> Option<(u16, u16)> {
    if payload.len() < 16 || payload[0] != 0x03 || payload[1] != 0x80 {
        None
    } else {
        Some((le16(payload[12], payload[13]), le16(payload[14], payload[15])))
    }
}

/// Reads the vendor and product id out of a primary device-information reply.
pub fn parse_primary_device_info(payload: &[u8]) -> (info: Option<(u16, u16)>)
    ensures
        info == primary_device_info_spec(payload@),
{
    if payload.len() < 16 || payload[0] != 0x03 || payload[1] != 0x80 {
        return None;
    }
    let vendor_id = read_le16(payload, 12);
    let product_id = read_le16(payload, 14);
    Some((vendor_id, product_id))
}

/// What `String::from_utf8_lossy` makes of a run of bytes.
pub uninterp spec fn utf8_lossy(bytes: Seq<u8>) -> Seq<char>;

/// `String::from_utf8_lossy`, owned: the text the bytes encode, with every
/// malformed sequence replaced. Bytes below 128 are ASCII, which decodes to
/// the characters with those codes.
#[verifier::external_body]
pub(crate) fn lossy_text(bytes: &[u8]) -> (text: String)
    ensures
        text@ == utf8_lossy(bytes@),
        (forall|i: int| 0 <= i < bytes@.len() ==> bytes@[i] < 128) ==> text@ == bytes@.map_values(
            |b: u8| b as char,
        ),
{
    String::from_utf8_lossy(bytes).into_owned()
}

/// `s` without trailing NUL characters.
pub open spec fn trim_nul(s: Seq<char>) -> Seq<char> {
    crate::text::trim_end_char(s, '\0')
}

/// What a dock's child-information report says: the child's product id, the
/// port it is reached on, and its serial number when it has one. The report
/// is at least 128 bytes, starts `03 1c` or `01 0b`, has `02` in its fifth
/// byte and names the Elgato vendor.
pub open spec fn child_device_info_spec(payload: Seq<u8>) -> Option<(u16, u16, Option<Seq<char>>)> {
    if payload.len() < 128 {
        None
    } else if !((payload[0] == 0x03 && payload[1] == 0x1c) || (payload[0] == 0x01 && payload[1]
        == 0x0b)) || payload[4] != 0x02 {
        None
    } else if le16(payload[26], payload[27]) != ELGATO_VENDOR_ID {
        None
    } else {
        let serial = trim_nul(utf8_lossy(payload.subrange(94, 125)));
        Some(
            (
                le16(payload[28], payload[29]),
                le16(payload[126], payload[127]),
                if serial.len() == 0 {
                    None
                } else {
                    Some(serial)
                },
            ),
        )
    }
}

/// Reads a dock's report about the device plugged into it.
pub fn parse_child_device_info(payload: &[u8]) -> (info: Option<(u16, u16, Option<String>)>)
    ensures
        match info {
            Some((product_id, port, serial)) => child_device_info_spec(payload@) == Some(
                (product_id, port, crate::text::option_view(serial)),
            ),
            None => child_device_info_spec(payload@) is None,
        },
{
    if payload.len() < 128 {
        return None;
    }
    let is_child_info = (payload[0] == 0x03 && payload[1] == 0x1c) || (payload[0] == 0x01
        && payload[1] == 0x0b);
    if !is_child_info || payload[4] != 0x02 {
        return None;
    }
    let vendor_id = read_le16(payload, 26);
    if vendor_id != ELGATO_VENDOR_ID {
        return None;
    }
    let product_id = read_le16(payload, 28);
    let child_port = read_le16(payload, 126);
    let serial_bytes = slice_copy(payload, 94, 125);
    let decoded = lossy_text(serial_bytes.as_slice());
    let chars = crate::text::chars_of(decoded.as_str());
    let end = crate::text::trim_end_bound(&chars, 0, chars.len(), '\0');
    proof {
        assert(chars@.subrange(0, chars@.len() as int) =~= chars@);
    }
    let serial = if end == 0 {
        None
    } else {
        Some(crate::text::string_of(&chars, 0, end))
    };
    Some((product_id, child_port, serial))
}

/// A copy of `bytes[start..end]`.
fn slice_copy(bytes: &[u8], start: usize, end: usize) -> (part: Vec<u8>)
    requires
        start <= end <= bytes@.len(),
    ensures
        part@ == bytes@.subrange(start as int, end as int),
{
    let mut part: Vec<u8> = Vec::new();
    let mut i = start;
    while i < end
        invariant
            start <= i <= end <= bytes@.len(),
            part@ == bytes@.subrange(start as int, i as int),
        decreases end - i,
    {
        part.push(bytes[i]);
        i += 1;
    }
    part
}

/// The model name a product id is sold under.
pub open spec fn model_name_spec(product_id: u16) -> Seq<char> {
    if product_id == 0x0060 || product_id == 0x006d {
        "Stream Deck"@
    } else if product_id == 0x0063 || product_id == 0x0090 || product_id == 0x00b3 {
        "Stream Deck Mini"@
    } else if product_id == 0x006c || product_id == 0x008f {
        "Stream Deck XL"@
    } else if product_id == 0x0080 || product_id == 0x00a5 {
        "Stream Deck Mk.2"@
    } else if product_id == 0x0084 {
        "Stream Deck Plus"@
    } else if product_id == 0x009a {
        "Stream Deck Neo"@
    } else if product_id == 0x00aa {
        "Stream Deck Studio"@
    } else if product_id == NETWORK_DOCK_PRODUCT_ID {
        "Stream Deck Network Dock"@
    } else {
        "Stream Deck"@
    }
}

/// The model name a product id is sold under; an unknown product is a
/// Stream Deck.
pub fn stream_deck_model_name(product_id: u16) -> (name: &'static str)
    ensures
        name@ == model_name_spec(product_id),
{
    if product_id == 0x0060 || product_id == 0x006d {
        "Stream Deck"
    } else if product_id == 0x0063 || product_id == 0x0090 || product_id == 0x00b3 {
        "Stream Deck Mini"
    } else if product_id == 0x006c || product_id == 0x008f {
        "Stream Deck XL"
    } else if product_id == 0x0080 || product_id == 0x00a5 {
        "Stream Deck Mk.2"
    } else if product_id == 0x0084 {
        "Stream Deck Plus"
    } else if product_id == 0x009a {
        "Stream Deck Neo"
    } else if product_id == 0x00aa {
        "Stream Deck Studio"
    } else if product_id == NETWORK_DOCK_PRODUCT_ID {
        "Stream Deck Network Dock"
    } else {
        "Stream Deck"
    }
}

/// The key grid of a product: columns and rows.
pub open spec fn layout_spec(product_id: u16) -> (u16, u16) {
    if product_id == 0x006c || product_id == 0x008f {
        (8, 4)
    } else if product_id == 0x0063 || product_id == 0x0090 || product_id == 0x00b3 {
        (3, 2)
    } else if product_id == 0x0084 || product_id == 0x009a {
        (4, 2)
    } else if product_id == 0x00aa {
        (16, 2)
    } else {
        (5, 3)
    }
}

/// The key grid of a product; an unknown product has the original fifteen
/// keys.
pub fn stream_deck_layout(product_id: u16) -> (layout: SurfaceLayout)
    ensures
        layout == (SurfaceLayout::Grid { columns: layout_spec(product_id).0, rows: layout_spec(product_id).1 }),
{
    if product_id == 0x006c || product_id == 0x008f {
        SurfaceLayout::Grid { columns: 8, rows: 4 }
    } else if product_id == 0x0063 || product_id == 0x0090 || product_id == 0x00b3 {
        SurfaceLayout::Grid { columns: 3, rows: 2 }
    } else if product_id == 0x0084 || product_id == 0x009a {
        SurfaceLayout::Grid { columns: 4, rows: 2 }
    } else if product_id == 0x00aa {
        SurfaceLayout::Grid { columns: 16, rows: 2 }
    } else {
        SurfaceLayout::Grid { columns: 5, rows: 3 }
    }
}

/// A colour premultiplied by its alpha, as the opaque RGB a key shows.
pub open spec fn rgb_spec(color: RgbaColor) -> (u8, u8, u8) {
    (
        (color.red * color.alpha / 255) as u8,
        (color.green * color.alpha / 255) as u8,
        (color.blue * color.alpha / 255) as u8,
    )
}

/// The opaque RGB a colour shows as on a key.
pub fn rgb(color: &RgbaColor) -> (channels: (u8, u8, u8))
    ensures
        channels == rgb_spec(*color),
{
    let alpha = color.alpha as u16;
    proof {
        assert(color.red * color.alpha <= 255 * 255) by (nonlinear_arith)
            requires
                color.red <= 255,
                color.alpha <= 255,
        ;
        assert(color.green * color.alpha <= 255 * 255) by (nonlinear_arith)
            requires
                color.green <= 255,
                color.alpha <= 255,
        ;
        assert(color.blue * color.alpha <= 255 * 255) by (nonlinear_arith)
            requires
                color.blue <= 255,
                color.alpha <= 255,
        ;
        assert(color.red * color.alpha / 255 <= 255) by (nonlinear_arith)
            requires
                color.red <= 255,
                color.alpha <= 255,
        ;
        assert(color.green * color.alpha / 255 <= 255) by (nonlinear_arith)
            requires
                color.green <= 255,
                color.alpha <= 255,
        ;
        assert(color.blue * color.alpha / 255 <= 255) by (nonlinear_arith)
            requires
                color.blue <= 255,
                color.alpha <= 255,
        ;
    }
    (
        ((color.red as u16) * alpha / 255) as u8,
        ((color.green as u16) * alpha / 255) as u8,
        ((color.blue as u16) * alpha / 255) as u8,
    )
}

/// Whether `after` is `before` turned half a circle: pixel `p` of the first
/// `pixel_count` three-byte pixels holds what pixel `pixel_count - 1 - p`
/// held, and every byte past them is kept.
pub open spec fn is_flipped(before: Seq<u8>, after: Seq<u8>, pixel_count: int) -> bool {
    &&& after.len() == before.len()
    &&& forall|p: int, c: int|
        0 <= p < pixel_count && 0 <= c < 3 ==> #[trigger] after[p * 3 + c] == before[(pixel_count - 1
            - p) * 3 + c]
    &&& forall|i: int| pixel_count * 3 <= i < before.len() ==> #[trigger] after[i] == before[i]
}

fn swap_bytes(pixels: &mut Vec<u8>, a: usize, b: usize)
    requires
        a < old(pixels)@.len(),
        b < old(pixels)@.len(),
    ensures
        final(pixels)@ == old(pixels)@.update(a as int, old(pixels)@[b as int]).update(
            b as int,
            old(pixels)@[a as int],
        ),
{
    let first = pixels[a];
    let second = pixels[b];
    pixels.set(a, second);
    pixels.set(b, first);
}

/// Turns a `width` by `height` RGB image half a circle in place, for a device
/// mounted upside down.
pub fn flip_pixels_180(pixels: &mut Vec<u8>, width: usize, height: usize)
    requires
        width * height * 3 <= old(pixels)@.len(),
    ensures
        is_flipped(old(pixels)@, final(pixels)@, width * height),
{
    let ghost before = pixels@;
    let len = pixels.len();
    assert(width * height * 3 <= usize::MAX) by (nonlinear_arith)
        requires
            width * height * 3 <= len,
            len <= usize::MAX,
    ;
    let pixel_count = width * height;
    let ghost n = pixel_count as int;
    let mut pixel_index: usize = 0;
    while pixel_index < pixel_count / 2
        invariant
            pixel_count == n,
            n * 3 <= before.len(),
            before.len() <= usize::MAX,
            pixels@.len() == before.len(),
            pixel_index <= n / 2,
            forall|p: int, c: int|
                0 <= p < n && 0 <= c < 3 ==> #[trigger] pixels@[p * 3 + c] == if p < pixel_index || p
                    >= n - pixel_index {
                    before[(n - 1 - p) * 3 + c]
                } else {
                    before[p * 3 + c]
                },
            forall|i: int| n * 3 <= i < before.len() ==> #[trigger] pixels@[i] == before[i],
        decreases pixel_count / 2 - pixel_index,
    {
        let opposite_index = pixel_count - pixel_index - 1;
        let ghost k = pixel_index as int;
        let ghost o = opposite_index as int;
        let ghost start = pixels@;
        let mut channel: usize = 0;
        while channel < 3
            invariant
                pixel_count == n,
                n * 3 <= before.len(),
                before.len() <= usize::MAX,
                k == pixel_index,
                o == opposite_index,
                o == n - 1 - k,
                k < o,
                pixels@.len() == before.len(),
                channel <= 3,
                forall|p: int, c: int|
                    0 <= p < n && 0 <= c < 3 ==> #[trigger] pixels@[p * 3 + c] == if (p == k || p == o)
                        && c < channel {
                        start[(n - 1 - p) * 3 + c]
                    } else {
                        start[p * 3 + c]
                    },
                forall|i: int| n * 3 <= i < before.len() ==> #[trigger] pixels@[i] == start[i],
            decreases 3 - channel,
        {
            proof {
                lemma_pixel_byte(k, channel as int, n);
                lemma_pixel_byte(o, channel as int, n);
            }
            let a = pixel_index * 3 + channel;
            let b = opposite_index * 3 + channel;
            swap_bytes(pixels, a, b);
            proof {
                assert forall|p: int, c: int| 0 <= p < n && 0 <= c < 3 implies #[trigger] pixels@[p * 3 + c]
                    == if (p == k || p == o) && c < channel + 1 {
                    start[(n - 1 - p) * 3 + c]
                } else {
                    start[p * 3 + c]
                } by {
                    lemma_pixel_byte(p, c, n);
                    lemma_pixel_index_unique(p, c, k, channel as int);
                    lemma_pixel_index_unique(p, c, o, channel as int);
                }
                assert forall|i: int| n * 3 <= i < before.len() implies #[trigger] pixels@[i] == start[i] by {
                    lemma_pixel_byte(k, channel as int, n);
                    lemma_pixel_byte(o, channel as int, n);
                }
            }
            channel += 1;
        }
        proof {
            assert forall|p: int, c: int| 0 <= p < n && 0 <= c < 3 implies #[trigger] pixels@[p * 3 + c]
                == if p < pixel_index + 1 || p >= n - (pixel_index + 1) {
                before[(n - 1 - p) * 3 + c]
            } else {
                before[p * 3 + c]
            } by {
                lemma_pixel_byte(p, c, n);
                lemma_pixel_byte(n - 1 - p, c, n);
                assert(start[p * 3 + c] == if p < k || p >= n - k {
                    before[(n - 1 - p) * 3 + c]
                } else {
                    before[p * 3 + c]
                });
                if p == k || p == o {
                    let q = n - 1 - p;
                    assert(start[q * 3 + c] == if q < k || q >= n - k {
                        before[(n - 1 - q) * 3 + c]
                    } else {
                        before[q * 3 + c]
                    });
                }
            }
        }
        pixel_index += 1;
    }
    proof {
        assert forall|p: int, c: int| 0 <= p < n && 0 <= c < 3 implies #[trigger] pixels@[p * 3 + c]
            == before[(n - 1 - p) * 3 + c] by {
            if !(p < pixel_index || p >= n - pixel_index) {
                assert(n - 1 - p == p);
            }
        }
    }
}

/// The byte of channel `c` of pixel `p` lies inside an image of `n` pixels.
proof fn lemma_pixel_byte(p: int, c: int, n: int)
    requires
        0 <= p < n,
        0 <= c < 3,
    ensures
        0 <= p * 3 + c < n * 3,
        p * 3 + c + 3 <= n * 3 || p == n - 1,
{
    assert(p * 3 + c < n * 3) by (nonlinear_arith)
        requires
            0 <= p < n,
            0 <= c < 3,
    ;
    assert(p * 3 + c + 3 <= n * 3 || p == n - 1) by (nonlinear_arith)
        requires
            0 <= p < n,
            0 <= c < 3,
    ;
}

/// Different pixels or channels are different bytes.
proof fn lemma_pixel_index_unique(p: int, c: int, q: int, d: int)
    requires
        0 <= c < 3,
        0 <= d < 3,
    ensures
        (p * 3 + c == q * 3 + d) == (p == q && c == d),
{
    if p * 3 + c == q * 3 + d {
        assert(p == q && c == d) by (nonlinear_arith)
            requires
                0 <= c < 3,
                0 <= d < 3,
                p * 3 + c == q * 3 + d,
        ;
    }
}

/// Turning an image half a circle twice gives it back.
pub proof fn lemma_flip_twice_is_identity(first: Seq<u8>, second: Seq<u8>, third: Seq<u8>, pixel_count: int)
    requires
        0 <= pixel_count,
        pixel_count * 3 <= first.len(),
        is_flipped(first, second, pixel_count),
        is_flipped(second, third, pixel_count),
    ensures
        third == first,
{
    assert forall|i: int| 0 <= i < first.len() implies #[trigger] third[i] == first[i] by {
        if i < pixel_count * 3 {
            let p = i / 3;
            let c = i % 3;
            assert(i == p * 3 + c && 0 <= c < 3) by (nonlinear_arith)
                requires
                    0 <= i,
                    p == i / 3,
                    c == i % 3,
            ;
            assert(0 <= p < pixel_count) by (nonlinear_arith)
                requires
                    0 <= i < pixel_count * 3,
                    p == i / 3,
            ;
            let q = pixel_count - 1 - p;
            assert(third[p * 3 + c] == second[q * 3 + c]);
            assert(second[q * 3 + c] == first[(pixel_count - 1 - q) * 3 + c]);
        }
    }
    assert(third =~= first);
}

} // verus!
