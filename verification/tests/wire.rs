use launchpi::discovery::{discovered_surface, parse_device_id, ServiceRecord};
use launchpi::wire::{
    child_device_request, classify_packet, cora_message, decode_input_report, device_info_requests,
    handshake_reply, is_cora_magic, key_image_messages, parse_cora_header, InputReport, PacketKind,
    TransportMode, CORA_CHILD_INFO_MESSAGE_ID, CORA_VERBATIM, LEGACY_RESPONSE_SIZE,
};

#[test]
fn a_cora_message_frames_its_payload_behind_a_sixteen_byte_header() {
    let message = cora_message(CORA_VERBATIM, 0x02, 0x0102_0304, &[0xaa, 0xbb]);
    assert_eq!(
        message,
        vec![
            0x43, 0x93, 0x8a, 0x41, 0x00, 0x80, 0x02, 0x00, 0x04, 0x03, 0x02, 0x01, 0x02, 0x00, 0x00,
            0x00, 0xaa, 0xbb
        ]
    );
    assert!(is_cora_magic(&message[..4]));
    assert!(!is_cora_magic(&[0x01, 0x0a, 0x00, 0x00]));
    assert!(!is_cora_magic(&[0x43, 0x93]));
}

#[test]
fn a_cora_header_reads_back_what_was_framed() {
    let message = cora_message(CORA_VERBATIM, 0x02, 7, &[1, 2, 3]);
    let header = parse_cora_header(&message[4..16]).expect("a small payload");
    assert!(header.is_verbatim);
    assert_eq!(header.hid_operation, 0x02);
    assert_eq!(header.message_id, 7);
    assert_eq!(header.payload_size, 3);

    let plain = cora_message(0x0200, 0x00, 1, &[]);
    assert!(!parse_cora_header(&plain[4..16]).expect("empty").is_verbatim);
}

#[test]
fn an_oversized_cora_payload_is_refused() {
    let mut header = [0_u8; 12];
    header[8..12].copy_from_slice(&(1_048_577_u32).to_le_bytes());
    assert_eq!(
        parse_cora_header(&header),
        Err("Cora payload exceeded 1048576 bytes".to_string())
    );
    header[8..12].copy_from_slice(&(1_048_576_u32).to_le_bytes());
    assert!(parse_cora_header(&header).is_ok());
}

#[test]
fn reports_are_told_apart_by_their_first_two_bytes() {
    let mut greeting = [0_u8; 512];
    greeting[0] = 1;
    greeting[1] = 10;
    greeting[5] = 0x2a;
    assert_eq!(classify_packet(&greeting, false), PacketKind::Handshake);

    let mut keys = [0_u8; 512];
    keys[0] = 1;
    assert_eq!(classify_packet(&keys, false), PacketKind::Input);

    let mut child = [0_u8; 512];
    child[0] = 1;
    child[1] = 0x0b;
    assert_eq!(classify_packet(&child, true), PacketKind::DockChild);
    assert_eq!(classify_packet(&child, false), PacketKind::Input);

    let mut reply = [0_u8; 512];
    reply[0] = 3;
    reply[1] = 0x80;
    assert_eq!(classify_packet(&reply, false), PacketKind::Report);
    assert_eq!(classify_packet(&[1, 10, 0, 0, 0], false), PacketKind::Report);
    assert_eq!(classify_packet(&[], false), PacketKind::Empty);
}

#[test]
fn a_greeting_is_acknowledged_with_its_sixth_byte() {
    let mut greeting = [0_u8; 512];
    greeting[0] = 1;
    greeting[1] = 10;
    greeting[5] = 0x2a;
    let legacy = handshake_reply(TransportMode::Legacy, &greeting, 0, 0);
    assert_eq!(legacy.len(), LEGACY_RESPONSE_SIZE);
    assert_eq!(&legacy[..4], &[3, 26, 0x2a, 0]);
    assert!(legacy[3..].iter().all(|byte| *byte == 0));

    let cora = handshake_reply(TransportMode::Cora, &greeting, 0x01, 9);
    let header = parse_cora_header(&cora[4..16]).expect("framed");
    assert_eq!(&cora[4..6], &[0x00, 0x02]);
    assert_eq!(header.hid_operation, 0x01);
    assert_eq!(header.message_id, 9);
    assert_eq!(header.payload_size, 32);
    assert_eq!(&cora[16..19], &[3, 26, 0x2a]);
    assert_eq!(cora.len(), 48);
}

#[test]
fn the_identity_requests_go_out_in_order() {
    let legacy = device_info_requests(TransportMode::Legacy);
    assert_eq!(legacy.len(), 3);
    assert_eq!(&legacy[0][..2], &[0x03, 0x80]);
    assert_eq!(legacy[1][0], 0x08);
    assert_eq!(legacy[2][0], 0xa1);
    assert!(legacy.iter().all(|request| request.len() == 1024));

    let cora = device_info_requests(TransportMode::Cora);
    assert_eq!(cora[0], cora_message(0, 0x02, 1, &[0x03, 0x80]));
    assert_eq!(cora[1], cora_message(CORA_VERBATIM, 0x02, 2, &[0x08]));
    assert_eq!(cora[2], cora_message(CORA_VERBATIM, 0x02, 3, &[0xa1]));

    assert_eq!(
        child_device_request(TransportMode::Cora, CORA_CHILD_INFO_MESSAGE_ID),
        cora_message(0, 0x02, 4, &[0x03, 0x1c])
    );
    let legacy_child = child_device_request(TransportMode::Legacy, CORA_CHILD_INFO_MESSAGE_ID);
    assert_eq!(legacy_child.len(), 1024);
    assert_eq!(&legacy_child[..3], &[0x03, 0x1c, 0]);
}

#[test]
fn a_key_image_is_sent_in_numbered_pages() {
    let image: Vec<u8> = (0..2100_u32).map(|i| (i % 251) as u8).collect();
    let pages = key_image_messages(TransportMode::Legacy, &image, 5).expect("small image");
    assert_eq!(pages.len(), 3);
    for (page, report) in pages.iter().enumerate() {
        assert_eq!(report.len(), 1024);
        assert_eq!(report[0], 0x02);
        assert_eq!(report[1], 0x07);
        assert_eq!(report[2], 5);
        assert_eq!(report[3], u8::from(page == 2));
        let length = if page < 2 { 1016 } else { 2100 - 2 * 1016 };
        assert_eq!(u16::from_le_bytes([report[4], report[5]]) as usize, length);
        assert_eq!(u16::from_le_bytes([report[6], report[7]]) as usize, page);
        assert_eq!(&report[8..8 + length], &image[page * 1016..page * 1016 + length]);
        assert!(report[8 + length..].iter().all(|byte| *byte == 0));
    }

    let cora = key_image_messages(TransportMode::Cora, &image, 5).expect("small image");
    assert_eq!(cora[1], cora_message(CORA_VERBATIM, 0x00, 0, &pages[1]));
    assert!(key_image_messages(TransportMode::Legacy, &[], 0)
        .expect("empty")
        .is_empty());
}

#[test]
fn a_key_report_says_which_keys_are_down() {
    let mut packet = [0_u8; 512];
    packet[0] = 1;
    packet[4] = 1;
    packet[4 + 31] = 1;
    match decode_input_report(&packet) {
        InputReport::Keys(states) => {
            assert_eq!(states.len(), 32);
            assert!(states[0] && states[31]);
            assert!(states[1..31].iter().all(|down| !down));
        }
        other => panic!("not a key report: {other:?}"),
    }
}

#[test]
fn a_dial_report_says_which_dials_were_pressed_or_turned() {
    let mut packet = [0_u8; 512];
    packet[0] = 1;
    packet[1] = 3;
    packet[6] = 1;
    assert!(matches!(
        decode_input_report(&packet),
        InputReport::DialPresses(pressed) if pressed == vec![false, true]
    ));
    packet[4] = 1;
    packet[5] = 0xff;
    packet[6] = 2;
    assert!(matches!(
        decode_input_report(&packet),
        InputReport::DialTurns(deltas) if deltas == vec![-1, 2]
    ));
}

#[test]
fn an_nfc_report_carries_the_tag_identifier() {
    let mut packet = [0_u8; 512];
    packet[0] = 1;
    packet[1] = 4;
    packet[2] = 5;
    packet[4..9].copy_from_slice(b"tag-1");
    assert!(matches!(
        decode_input_report(&packet),
        InputReport::Nfc(identifier) if identifier == "tag-1"
    ));
    assert!(matches!(
        decode_input_report(&[1, 4, 10, 0, b'a']),
        InputReport::Ignored
    ));
    assert!(matches!(decode_input_report(&[1]), InputReport::Ignored));
}

#[test]
fn device_ids_read_as_hexadecimal_or_decimal() {
    assert_eq!(parse_device_id("0x0fd9"), Some(0x0fd9));
    assert_eq!(parse_device_id(" 4057 "), Some(4057));
    assert_eq!(parse_device_id("215"), Some(215));
    assert_eq!(parse_device_id("0x"), None);
    assert_eq!(parse_device_id("65536"), None);
    assert_eq!(parse_device_id("dock"), None);
}

fn record(dt: Option<&str>, vid: Option<&str>, pid: Option<&str>) -> ServiceRecord {
    ServiceRecord {
        fullname: "Studio._elg._tcp.local.".to_string(),
        first_address: Some("192.168.1.20".to_string()),
        port: 5343,
        device_type: dt.map(str::to_string),
        vendor_id: vid.map(str::to_string),
        product_id: pid.map(str::to_string),
        serial_number: Some("A1B2".to_string()),
    }
}

#[test]
fn a_studio_and_a_dock_are_recognised_on_the_network() {
    let studio = discovered_surface(&record(None, Some("0x0fd9"), Some("0x00aa"))).expect("a studio");
    assert_eq!(studio.model, "Stream Deck Studio");
    assert_eq!(studio.discovery_id, "Studio._elg._tcp.local.");
    assert_eq!(studio.host, "192.168.1.20");
    assert_eq!(studio.port, 5343);
    assert_eq!(studio.serial_number.as_deref(), Some("A1B2"));

    let dock = discovered_surface(&record(Some("215"), None, None)).expect("a dock");
    assert_eq!(dock.model, "Stream Deck Network Dock");

    assert!(discovered_surface(&record(None, Some("0x0fd9"), Some("0x0084"))).is_none());
    assert!(discovered_surface(&record(None, None, None)).is_none());
    let mut unreachable = record(Some("215"), None, None);
    unreachable.first_address = None;
    assert!(discovered_surface(&unreachable).is_none());
}
