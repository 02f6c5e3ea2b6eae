//! A Studio key face from background to JPEG: the blank canvas in the key's
//! background colour, the half turn for a device mounted upside down, and the
//! JPEG the device is sent. The label and icon are drawn onto the canvas in
//! between, outside this library.

use vstd::prelude::*;
use crate::panels::RgbaColor;
use crate::streamdeck::{flip_pixels_180, rgb, rgb_spec, KEY_IMAGE_BYTES, STUDIO_KEY_IMAGE_SIZE};

verus! {

/// The JPEG quality key faces are encoded at.
pub const KEY_IMAGE_QUALITY: u8 = 85;

#[verifier::external_type_specification]
#[verifier::external_body]
pub struct ExEncodingError(jpeg_encoder::EncodingError);

/// The bytes jpeg-encoder writes for `pixels` taken as a `width` by `height`
/// RGB image at `quality`.
pub uninterp spec fn jpeg_encoding(pixels: Seq<u8>, width: u16, height: u16, quality: u8) -> Seq<u8>;

/// Whether `bytes` open with the start-of-image marker and close with the
/// end-of-image marker of a JPEG stream.
pub open spec fn is_jpeg_stream(bytes: Seq<u8>) -> bool {
    &&& bytes.len() >= 4
    &&& bytes[0] == 0xff
    &&& bytes[1] == 0xd8
    &&& bytes[bytes.len() - 2] == 0xff
    &&& bytes[bytes.len() - 1] == 0xd9
}

/// `jpeg_encoder::Encoder::new` over a fresh `Vec<u8>` at `quality`, then
/// `encode` with `ColorType::Rgb`. Its source refuses fewer than
/// `width * height * 3` bytes and a zero side, and nothing else: writing into a
/// `Vec` does not fail. A stream it writes opens with the marker `FF D8` and
/// closes with `FF D9`, and is otherwise left unsaid here.
#[verifier::external_body]
fn encode_rgb(pixels: &[u8], width: u16, height: u16, quality: u8) -> (encoded: Result<Vec<u8>, jpeg_encoder::EncodingError>)
    requires
        width * height * 3 <= usize::MAX,
    ensures
        encoded is Ok <==> (pixels@.len() >= width * height * 3 && width > 0 && height > 0),
        encoded matches Ok(bytes) ==> bytes@ == jpeg_encoding(pixels@, width, height, quality),
        encoded matches Ok(bytes) ==> is_jpeg_stream(bytes@),
{
    let mut encoded = Vec::new();
    match jpeg_encoder::Encoder::new(&mut encoded, quality).encode(pixels, width, height, jpeg_encoder::ColorType::Rgb) {
        Ok(()) => Ok(encoded),
        Err(error) => Err(error),
    }
}

/// The three channels a key shows for its background: the colour's opaque RGB,
/// black where the key names none.
pub open spec fn background_channels(background: Option<RgbaColor>) -> (u8, u8, u8) {
    match background {
        Some(color) => rgb_spec(color),
        None => (0, 0, 0),
    }
}

/// Channel `c` (0 red, 1 green, 2 blue) of a colour.
pub open spec fn channel(colour: (u8, u8, u8), c: int) -> u8 {
    if c == 0 {
        colour.0
    } else if c == 1 {
        colour.1
    } else {
        colour.2
    }
}

/// A blank Studio key face: every pixel the background's colour.
pub fn key_canvas(background: &Option<RgbaColor>) -> (pixels: Vec<u8>)
    ensures
        pixels@.len() == KEY_IMAGE_BYTES,
        forall|p: int, c: int|
            0 <= p < KEY_IMAGE_BYTES / 3 && 0 <= c < 3 ==> #[trigger] pixels@[p * 3 + c] == channel(
                background_channels(*background),
                c,
            ),
{
    let colour = match background {
        Some(color) => rgb(color),
        None => (0u8, 0u8, 0u8),
    };
    let mut pixels: Vec<u8> = Vec::new();
    let mut p: usize = 0;
    while p < KEY_IMAGE_BYTES / 3
        invariant
            colour == background_channels(*background),
            p <= KEY_IMAGE_BYTES / 3,
            pixels@.len() == p * 3,
            forall|q: int, c: int|
                0 <= q < p && 0 <= c < 3 ==> #[trigger] pixels@[q * 3 + c] == channel(colour, c),
        decreases KEY_IMAGE_BYTES / 3 - p,
    {
        let ghost before = pixels@;
        pixels.push(colour.0);
        pixels.push(colour.1);
        pixels.push(colour.2);
        proof {
            assert forall|q: int, c: int| 0 <= q < p + 1 && 0 <= c < 3 implies #[trigger] pixels@[q * 3
                + c] == channel(colour, c) by {
                if q < p {
                    assert(q * 3 + c < p * 3) by (nonlinear_arith)
                        requires
                            q < p,
                            c < 3,
                    ;
                    assert(pixels@[q * 3 + c] == before[q * 3 + c]);
                } else {
                    assert(q * 3 + c == p * 3 + c);
                }
            }
        }
        p += 1;
    }
    pixels
}

/// The glyphs a key can show above its label.
#[derive(Clone, Copy, Debug, PartialEq, Eq, Structural)]
pub enum KeyIcon {
    Circle,
    Diamond,
    Pause,
    Play,
    Square,
    Triangle,
}

/// The byte of channel `c` of the pixel at column `x`, row `y` of a key face.
pub open spec fn at(x: int, y: int, c: int) -> int {
    (y * 96 + x) * 3 + c
}

/// The distance of `v` from zero.
pub open spec fn magnitude(v: int) -> int {
    if v < 0 {
        -v
    } else {
        v
    }
}

/// Whether the icon covers the pixel at column `x`, row `y`. Each shape is
/// centred on column 48, row 40.
pub open spec fn icon_covers(icon: KeyIcon, x: int, y: int) -> bool {
    let dx = x - 48;
    let dy = y - 40;
    match icon {
        KeyIcon::Circle => dx * dx + dy * dy <= 18 * 18,
        KeyIcon::Diamond => magnitude(dx) + magnitude(dy) <= 22,
        KeyIcon::Pause => (28 <= x < 40) || (56 <= x < 68),
        KeyIcon::Play => 30 <= x <= 68 && magnitude(dy) <= (x - 30) / 2,
        KeyIcon::Square => 28 <= x < 68 && 20 <= y < 60,
        KeyIcon::Triangle => 20 <= y <= 62 && magnitude(dx) <= (y - 20) / 2,
    }
}

/// Whether the icon paints the pixel: it lies in the icon's box, columns 20 to
/// 75 and rows 20 to 61, and the shape covers it.
pub open spec fn icon_paints(icon: KeyIcon, x: int, y: int) -> bool {
    20 <= x < 76 && 20 <= y < 62 && icon_covers(icon, x, y)
}

fn covers(icon: KeyIcon, x: i32, y: i32) -> (covered: bool)
    requires
        0 <= x < 96,
        0 <= y < 96,
    ensures
        covered == icon_covers(icon, x as int, y as int),
{
    let dx = x - 48;
    let dy = y - 40;
    let adx = if dx < 0 { -dx } else { dx };
    let ady = if dy < 0 { -dy } else { dy };
    assert(adx * adx <= 2304) by (nonlinear_arith)
        requires
            0 <= adx <= 48,
    ;
    assert(ady * ady <= 3136) by (nonlinear_arith)
        requires
            0 <= ady <= 56,
    ;
    assert(adx * adx == dx * dx && ady * ady == dy * dy) by (nonlinear_arith)
        requires
            adx == dx || adx == -dx,
            ady == dy || ady == -dy,
    ;
    match icon {
        KeyIcon::Circle => adx * adx + ady * ady <= 18 * 18,
        KeyIcon::Diamond => adx + ady <= 22,
        KeyIcon::Pause => (28 <= x && x < 40) || (56 <= x && x < 68),
        KeyIcon::Play => x >= 30 && x <= 68 && ady <= (x - 30) / 2,
        KeyIcon::Square => 28 <= x && x < 68 && 20 <= y && y < 60,
        KeyIcon::Triangle => y >= 20 && y <= 62 && adx <= (y - 20) / 2,
    }
}

fn set_pixel(pixels: &mut Vec<u8>, x: usize, y: usize, colour: (u8, u8, u8))
    requires
        old(pixels)@.len() == KEY_IMAGE_BYTES,
        x < 96,
        y < 96,
    ensures
        final(pixels)@ == old(pixels)@.update(at(x as int, y as int, 0), colour.0).update(
            at(x as int, y as int, 1),
            colour.1,
        ).update(at(x as int, y as int, 2), colour.2),
{
    let offset = (y * 96 + x) * 3;
    pixels.set(offset, colour.0);
    pixels.set(offset + 1, colour.1);
    pixels.set(offset + 2, colour.2);
}

/// Paints the icon onto a key face in `colour`; every pixel it does not paint
/// keeps its bytes.
pub fn draw_icon(pixels: &mut Vec<u8>, icon: KeyIcon, colour: (u8, u8, u8))
    requires
        old(pixels)@.len() == KEY_IMAGE_BYTES,
    ensures
        final(pixels)@.len() == KEY_IMAGE_BYTES,
        forall|x: int, y: int, c: int|
            0 <= x < 96 && 0 <= y < 96 && 0 <= c < 3 ==> #[trigger] final(pixels)@[at(x, y, c)] == if icon_paints(
                icon,
                x,
                y,
            ) {
                channel(colour, c)
            } else {
                old(pixels)@[at(x, y, c)]
            },
{
    let ghost before = pixels@;
    let mut y: usize = 20;
    while y < 62
        invariant
            20 <= y <= 62,
            pixels@.len() == KEY_IMAGE_BYTES,
            before.len() == KEY_IMAGE_BYTES,
            forall|px: int, py: int, c: int|
                0 <= px < 96 && 0 <= py < 96 && 0 <= c < 3 ==> #[trigger] pixels@[at(px, py, c)] == if py < y
                    && icon_paints(icon, px, py) {
                    channel(colour, c)
                } else {
                    before[at(px, py, c)]
                },
        decreases 62 - y,
    {
        let mut x: usize = 20;
        while x < 76
            invariant
                20 <= y < 62,
                20 <= x <= 76,
                pixels@.len() == KEY_IMAGE_BYTES,
                before.len() == KEY_IMAGE_BYTES,
                forall|px: int, py: int, c: int|
                    0 <= px < 96 && 0 <= py < 96 && 0 <= c < 3 ==> #[trigger] pixels@[at(px, py, c)] == if (py
                        < y || (py == y && px < x)) && icon_paints(icon, px, py) {
                        channel(colour, c)
                    } else {
                        before[at(px, py, c)]
                    },
            decreases 76 - x,
        {
            if covers(icon, x as i32, y as i32) {
                let ghost prior = pixels@;
                set_pixel(pixels, x, y, colour);
                proof {
                    assert forall|px: int, py: int, c: int|
                        0 <= px < 96 && 0 <= py < 96 && 0 <= c < 3 implies #[trigger] pixels@[at(px, py, c)]
                        == if (py < y || (py == y && px < x + 1)) && icon_paints(icon, px, py) {
                        channel(colour, c)
                    } else {
                        before[at(px, py, c)]
                    } by {
                        if px == x && py == y {
                            assert(at(px, py, c) == at(x as int, y as int, c));
                        } else {
                            assert(at(px, py, c) != at(x as int, y as int, 0));
                            assert(at(px, py, c) != at(x as int, y as int, 1));
                            assert(at(px, py, c) != at(x as int, y as int, 2));
                            assert(pixels@[at(px, py, c)] == prior[at(px, py, c)]);
                        }
                    }
                }
            }
            x += 1;
        }
        y += 1;
    }
    proof {
        assert forall|px: int, py: int, c: int|
            0 <= px < 96 && 0 <= py < 96 && 0 <= c < 3 implies #[trigger] pixels@[at(px, py, c)] == if icon_paints(
            icon,
            px,
            py,
        ) {
            channel(colour, c)
        } else {
            before[at(px, py, c)]
        } by {
            assert(pixels@[at(px, py, c)] == if py < 62 && icon_paints(icon, px, py) {
                channel(colour, c)
            } else {
                before[at(px, py, c)]
            });
        }
    }
}

/// The face a key is sent: turned half a circle first where the device is
/// mounted upside down (pixel `p` of the 96 by 96 takes what pixel
/// `9215 - p` held), the canvas as drawn otherwise.
pub open spec fn face_sent(drawn: Seq<u8>, flip_image: bool) -> Seq<u8> {
    if flip_image {
        let n = (STUDIO_KEY_IMAGE_SIZE * STUDIO_KEY_IMAGE_SIZE) as int;
        Seq::new(
            drawn.len(),
            |i: int|
                if i < n * 3 {
                    drawn[(n - 1 - i / 3) * 3 + i % 3]
                } else {
                    drawn[i]
                },
        )
    } else {
        drawn
    }
}

/// The JPEG a drawn Studio key face is sent as: the face, turned half a circle
/// when `flip_image` holds, encoded as a 96 by 96 RGB image at quality 85.
pub fn encode_key_image(pixels: Vec<u8>, flip_image: bool) -> (encoded: Vec<u8>)
    requires
        pixels@.len() == KEY_IMAGE_BYTES,
    ensures
        encoded@ == jpeg_encoding(face_sent(pixels@, flip_image), 96, 96, 85),
        is_jpeg_stream(encoded@),
{
    let ghost drawn = pixels@;
    let mut face = pixels;
    if flip_image {
        flip_pixels_180(&mut face, STUDIO_KEY_IMAGE_SIZE, STUDIO_KEY_IMAGE_SIZE);
        proof {
            let n = (STUDIO_KEY_IMAGE_SIZE * STUDIO_KEY_IMAGE_SIZE) as int;
            assert forall|i: int| 0 <= i < face@.len() implies face@[i] == face_sent(drawn, true)[i] by {
                if i < n * 3 {
                    let p = i / 3;
                    let c = i % 3;
                    assert(i == p * 3 + c);
                    assert(0 <= p < n);
                    assert(face@[p * 3 + c] == drawn[(n - 1 - p) * 3 + c]);
                }
            }
            assert(face@ == face_sent(drawn, true));
        }
    }
    let side: u16 = 96;
    match encode_rgb(face.as_slice(), side, side, KEY_IMAGE_QUALITY) {
        Ok(bytes) => bytes,
        Err(_) => {
            assert(false);
            Vec::new()
        },
    }
}

} // verus!
