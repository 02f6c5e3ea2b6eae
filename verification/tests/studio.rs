use launchpi::panels::{RgbaColor, SurfaceLayout};
use launchpi::streamdeck::{
    default_port, flip_pixels_180, parse_child_device_info, parse_primary_device_info, rgb,
    stream_deck_layout, stream_deck_model_name, ELGATO_VENDOR_ID, NETWORK_DOCK_PRODUCT_ID,
};

#[test]
fn parses_vendor_and_product_from_a_primary_device_info_reply() {
    let mut payload = [0_u8; 64];
    payload[0] = 0x03;
    payload[1] = 0x80;
    payload[12..14].copy_from_slice(&ELGATO_VENDOR_ID.to_le_bytes());
    payload[14..16].copy_from_slice(&NETWORK_DOCK_PRODUCT_ID.to_le_bytes());
    assert_eq!(
        parse_primary_device_info(&payload),
        Some((ELGATO_VENDOR_ID, NETWORK_DOCK_PRODUCT_ID))
    );
    assert_eq!(parse_primary_device_info(&[0x03, 0x80]), None);
    assert_eq!(parse_primary_device_info(&[0_u8; 64]), None);
}

#[test]
fn maps_product_ids_to_the_correct_model_and_layout() {
    assert_eq!(stream_deck_model_name(0x0084), "Stream Deck Plus");
    assert_eq!(
        stream_deck_layout(0x0084),
        SurfaceLayout::Grid {
            columns: 4,
            rows: 2
        }
    );
    assert_eq!(stream_deck_model_name(0x006c), "Stream Deck XL");
    assert_eq!(
        stream_deck_layout(0x006c),
        SurfaceLayout::Grid {
            columns: 8,
            rows: 4
        }
    );
    assert_eq!(stream_deck_model_name(0x00aa), "Stream Deck Studio");
    assert_eq!(
        stream_deck_layout(0x00aa),
        SurfaceLayout::Grid {
            columns: 16,
            rows: 2
        }
    );
    assert_eq!(
        stream_deck_model_name(NETWORK_DOCK_PRODUCT_ID),
        "Stream Deck Network Dock"
    );
}

#[test]
fn an_unknown_product_is_the_original_stream_deck() {
    assert_eq!(stream_deck_model_name(0x1234), "Stream Deck");
    assert_eq!(
        stream_deck_layout(0x1234),
        SurfaceLayout::Grid {
            columns: 5,
            rows: 3
        }
    );
    assert_eq!(default_port(), 5343);
}

#[test]
fn parses_a_network_dock_child_report() {
    let mut payload = [0_u8; 512];
    payload[0..5].copy_from_slice(&[0x01, 0x0b, 0x7c, 0x00, 0x02]);
    payload[26..28].copy_from_slice(&ELGATO_VENDOR_ID.to_le_bytes());
    payload[28..30].copy_from_slice(&0x008f_u16.to_le_bytes());
    payload[94..108].copy_from_slice(b"A00NA33330CRSJ");
    payload[126..128].copy_from_slice(&20004_u16.to_le_bytes());

    assert_eq!(
        parse_child_device_info(&payload),
        Some((0x008f, 20004, Some("A00NA33330CRSJ".to_string())))
    );
}

#[test]
fn a_child_without_a_serial_reports_none() {
    let mut payload = [0_u8; 128];
    payload[0..5].copy_from_slice(&[0x03, 0x1c, 0x00, 0x00, 0x02]);
    payload[26..28].copy_from_slice(&ELGATO_VENDOR_ID.to_le_bytes());
    payload[28..30].copy_from_slice(&0x00aa_u16.to_le_bytes());
    assert_eq!(parse_child_device_info(&payload), Some((0x00aa, 0, None)));
}

#[test]
fn rejects_non_child_and_truncated_reports() {
    assert_eq!(parse_child_device_info(&[0_u8; 127]), None);

    let mut payload = [0_u8; 128];
    payload[0..5].copy_from_slice(&[0x01, 0x0b, 0x7c, 0x00, 0x01]);
    assert_eq!(parse_child_device_info(&payload), None);
}

#[test]
fn flips_xl_pixels_by_180_degrees() {
    let mut pixels = vec![1, 0, 0, 2, 0, 0, 3, 0, 0, 4, 0, 0];

    flip_pixels_180(&mut pixels, 2, 2);

    assert_eq!(pixels, vec![4, 0, 0, 3, 0, 0, 2, 0, 0, 1, 0, 0]);
}

#[test]
fn flipping_twice_gives_the_image_back_and_keeps_trailing_bytes() {
    let original: Vec<u8> = (0..30).collect();
    let mut pixels = original.clone();
    flip_pixels_180(&mut pixels, 3, 3);
    assert_eq!(&pixels[0..3], &[24, 25, 26]);
    assert_eq!(&pixels[12..15], &[12, 13, 14]);
    assert_eq!(&pixels[27..30], &[27, 28, 29]);
    flip_pixels_180(&mut pixels, 3, 3);
    assert_eq!(pixels, original);
}

#[test]
fn a_colour_is_premultiplied_by_its_alpha() {
    assert_eq!(rgb(&RgbaColor::opaque(10, 20, 30)), (10, 20, 30));
    let half = RgbaColor {
        red: 255,
        green: 100,
        blue: 0,
        alpha: 128,
    };
    assert_eq!(rgb(&half), (128, 50, 0));
}
