//! The network protocol a Stream Deck speaks over TCP: the Cora framing of
//! newer firmware and the fixed-size reports of older firmware, the replies
//! and requests the daemon writes, the key-image pages it sends, and what an
//! input report says was pressed, turned or scanned.

use vstd::prelude::*;
use crate::streamdeck::le16;

verus! {

/// The size of a report read from a device speaking the older protocol.
pub const LEGACY_PACKET_SIZE: usize = 512;

/// The size of a report written to a device speaking the older protocol.
pub const LEGACY_RESPONSE_SIZE: usize = 1024;

/// The size of a Cora header: the magic bytes and twelve bytes of fields.
pub const CORA_HEADER_SIZE: usize = 16;

/// The largest Cora payload a device may announce.
pub const MAX_CORA_PAYLOAD_SIZE: usize = 1048576;

/// The Cora flag of an acknowledgement.
pub const CORA_ACK_NAK: u16 = 0x0200;

/// The Cora flag of a report passed on as it is.
pub const CORA_VERBATIM: u16 = 0x8000;

/// The Cora HID operation that writes a report.
pub const CORA_WRITE: u8 = 0x00;

/// The Cora HID operation that asks for a report.
pub const CORA_GET_REPORT: u8 = 0x02;

/// The message id under which the primary device information is asked for.
pub const CORA_PRIMARY_INFO_MESSAGE_ID: u32 = 1;

/// The message id under which a dock is asked what is plugged into it.
pub const CORA_CHILD_INFO_MESSAGE_ID: u32 = 4;

/// The header in front of each page of a key image.
pub const IMAGE_REPORT_HEADER_SIZE: usize = 8;

/// The image bytes one page carries.
pub const IMAGE_PAGE_SIZE: usize = 1016;

/// The two ways a device frames its reports.
#[derive(Clone, Copy, Debug, PartialEq, Eq, Structural)]
pub enum TransportMode {
    Cora,
    Legacy,
}

/// The four bytes a Cora message starts with.
pub open spec fn cora_magic() -> Seq<u8> {
    seq![0x43u8, 0x93u8, 0x8au8, 0x41u8]
}

/// A 16-bit value as its two bytes, low byte first.
pub open spec fn le16_bytes(value: u16) -> Seq<u8> {
    seq![(value % 256) as u8, (value / 256) as u8]
}

/// A 32-bit value as its four bytes, low byte first.
pub open spec fn le32_bytes(value: u32) -> Seq<u8> {
    seq![
        (value % 256) as u8,
        ((value / 256) % 256) as u8,
        ((value / 65536) % 256) as u8,
        (value / 16777216) as u8,
    ]
}

/// The 32-bit value of four bytes, low byte first.
pub open spec fn le32(b0: u8, b1: u8, b2: u8, b3: u8) -> u32 {
    (b0 + b1 * 256 + b2 * 65536 + b3 * 16777216) as u32
}

/// Whether a report's first four bytes are the Cora magic.
pub fn is_cora_magic(first_bytes: &[u8]) -> (cora: bool)
    ensures
        cora == (first_bytes@.len() >= 4 && first_bytes@.take(4) == cora_magic()),
{
    if first_bytes.len() < 4 {
        return false;
    }
    let cora = first_bytes[0] == 0x43 && first_bytes[1] == 0x93 && first_bytes[2] == 0x8a
        && first_bytes[3] == 0x41;
    proof {
        if cora {
            assert(first_bytes@.take(4) =~= cora_magic());
        } else {
            assert(first_bytes@.take(4)[0] == first_bytes@[0]);
            assert(first_bytes@.take(4)[1] == first_bytes@[1]);
            assert(first_bytes@.take(4)[2] == first_bytes@[2]);
            assert(first_bytes@.take(4)[3] == first_bytes@[3]);
        }
    }
    cora
}

fn push_byte(bytes: &mut Vec<u8>, byte: u8)
    ensures
        final(bytes)@ == old(bytes)@ + seq![byte],
{
    bytes.push(byte);
}

fn push_le16(bytes: &mut Vec<u8>, value: u16)
    ensures
        final(bytes)@ == old(bytes)@ + le16_bytes(value),
{
    bytes.push((value % 256) as u8);
    bytes.push((value / 256) as u8);
    assert(final(bytes)@ =~= old(bytes)@ + le16_bytes(value));
}

fn push_le32(bytes: &mut Vec<u8>, value: u32)
    ensures
        final(bytes)@ == old(bytes)@ + le32_bytes(value),
{
    bytes.push((value % 256) as u8);
    bytes.push(((value / 256) % 256) as u8);
    bytes.push(((value / 65536) % 256) as u8);
    bytes.push((value / 16777216) as u8);
    assert(final(bytes)@ =~= old(bytes)@ + le32_bytes(value));
}

fn push_all(bytes: &mut Vec<u8>, more: &[u8])
    ensures
        final(bytes)@ == old(bytes)@ + more@,
{
    let ghost start = bytes@;
    let mut i: usize = 0;
    while i < more.len()
        invariant
            i <= more@.len(),
            bytes@ == start + more@.take(i as int),
        decreases more.len() - i,
    {
        bytes.push(more[i]);
        i += 1;
        assert(bytes@ =~= start + more@.take(i as int));
    }
    assert(more@.take(more@.len() as int) =~= more@);
}

fn push_zeros(bytes: &mut Vec<u8>, count: usize)
    ensures
        final(bytes)@ == old(bytes)@ + Seq::new(count as nat, |i: int| 0u8),
{
    let ghost start = bytes@;
    let mut i: usize = 0;
    while i < count
        invariant
            i <= count,
            bytes@ == start + Seq::new(i as nat, |j: int| 0u8),
        decreases count - i,
    {
        bytes.push(0);
        i += 1;
        assert(bytes@ =~= start + Seq::new(i as nat, |j: int| 0u8));
    }
}

/// A Cora message: the magic, the flags, the HID operation and a zero byte,
/// the message id, the payload's length and the payload.
pub open spec fn cora_message_spec(flags: u16, hid_operation: u8, message_id: u32, payload: Seq<u8>) -> Seq<u8> {
    cora_magic() + le16_bytes(flags) + seq![hid_operation, 0u8] + le32_bytes(message_id) + le32_bytes(
        payload.len() as u32,
    ) + payload
}

/// Frames `payload` as a Cora message.
pub fn cora_message(flags: u16, hid_operation: u8, message_id: u32, payload: &[u8]) -> (message: Vec<u8>)
    ensures
        message@ == cora_message_spec(flags, hid_operation, message_id, payload@),
{
    let mut message: Vec<u8> = Vec::new();
    push_byte(&mut message, 0x43);
    push_byte(&mut message, 0x93);
    push_byte(&mut message, 0x8a);
    push_byte(&mut message, 0x41);
    push_le16(&mut message, flags);
    push_byte(&mut message, hid_operation);
    push_byte(&mut message, 0);
    push_le32(&mut message, message_id);
    push_le32(&mut message, payload.len() as u32);
    push_all(&mut message, payload);
    assert(message@ =~= cora_message_spec(flags, hid_operation, message_id, payload@));
    message
}

/// The fields of a Cora header that follow the magic.
#[derive(Clone, Copy, Debug, PartialEq, Eq, Structural)]
pub struct CoraHeader {
    pub is_verbatim: bool,
    pub hid_operation: u8,
    pub message_id: u32,
    pub payload_size: u32,
}

/// What the twelve header bytes after the magic say: the flags in bytes 0
/// and 1, the HID operation in byte 2, the message id in bytes 4 to 7 and
/// the payload's size in bytes 8 to 11.
pub open spec fn cora_header_spec(header: Seq<u8>) -> CoraHeader {
    CoraHeader {
        is_verbatim: le16(header[0], header[1]) & CORA_VERBATIM != 0,
        hid_operation: header[2],
        message_id: le32(header[4], header[5], header[6], header[7]),
        payload_size: le32(header[8], header[9], header[10], header[11]),
    }
}

fn read_le32(bytes: &[u8], at: usize) -> (value: u32)
    requires
        at + 3 < bytes@.len(),
    ensures
        value == le32(bytes@[at as int], bytes@[at + 1], bytes@[at + 2], bytes@[at + 3]),
{
    bytes[at] as u32 + (bytes[at + 1] as u32) * 256 + (bytes[at + 2] as u32) * 65536 + (bytes[at
        + 3] as u32) * 16777216
}

/// Reads the twelve header bytes that follow the magic. A payload larger
/// than a mebibyte is refused.
pub fn parse_cora_header(header: &[u8]) -> (parsed: Result<CoraHeader, String>)
    requires
        header@.len() >= 12,
    ensures
        match parsed {
            Ok(fields) => fields == cora_header_spec(header@) && fields.payload_size <= MAX_CORA_PAYLOAD_SIZE,
            Err(message) => cora_header_spec(header@).payload_size > MAX_CORA_PAYLOAD_SIZE
                && message@ == "Cora payload exceeded 1048576 bytes"@,
        },
{
    let flags = header[0] as u16 + (header[1] as u16) * 256;
    let fields = CoraHeader {
        is_verbatim: flags & CORA_VERBATIM != 0,
        hid_operation: header[2],
        message_id: read_le32(header, 4),
        payload_size: read_le32(header, 8),
    };
    if fields.payload_size as usize > MAX_CORA_PAYLOAD_SIZE {
        return Err(crate::text::owned("Cora payload exceeded 1048576 bytes"));
    }
    Ok(fields)
}

/// What a report read from a device is.
#[derive(Clone, Copy, Debug, PartialEq, Eq, Structural)]
pub enum PacketKind {
    /// Nothing: a Cora message without a payload.
    Empty,
    /// A reply to a request: device information, or a dock's report on
    /// what is plugged into it.
    Report,
    /// A dock's unprompted report on what is plugged into it.
    DockChild,
    /// Keys, dials or a scanned tag.
    Input,
    /// The device's greeting, which the daemon acknowledges.
    Handshake,
}

/// What a report is, as the connection tells them apart. A report that does
/// not start with `01`, or is too short to hold an input report, is a reply;
/// `01 0b` from a dock is a child report; `01 0a` is the greeting; any other
/// report starting `01` is input.
pub open spec fn packet_kind_spec(packet: Seq<u8>, is_dock: bool) -> PacketKind {
    if packet.len() == 0 {
        PacketKind::Empty
    } else if packet.len() <= 5 || packet[0] != 1 {
        PacketKind::Report
    } else if packet[1] == 0x0b && is_dock {
        PacketKind::DockChild
    } else if packet[1] != 10 {
        PacketKind::Input
    } else {
        PacketKind::Handshake
    }
}

/// Tells what a report read from a device is; `is_dock` says whether the
/// device is a Network Dock.
pub fn classify_packet(packet: &[u8], is_dock: bool) -> (kind: PacketKind)
    ensures
        kind == packet_kind_spec(packet@, is_dock),
{
    if packet.len() == 0 {
        PacketKind::Empty
    } else if packet.len() <= 5 || packet[0] != 1 {
        PacketKind::Report
    } else if packet[1] == 0x0b && is_dock {
        PacketKind::DockChild
    } else if packet[1] != 10 {
        PacketKind::Input
    } else {
        PacketKind::Handshake
    }
}

/// A report of `size` bytes that starts with `head` and is zero after it.
pub open spec fn padded(head: Seq<u8>, size: nat) -> Seq<u8> {
    head + Seq::new((size - head.len()) as nat, |i: int| 0u8)
}

fn padded_report(head: &[u8], size: usize) -> (report: Vec<u8>)
    requires
        head@.len() <= size,
    ensures
        report@ == padded(head@, size as nat),
{
    let mut report: Vec<u8> = Vec::new();
    push_all(&mut report, head);
    push_zeros(&mut report, size - head.len());
    report
}

/// The acknowledgement of a greeting: `03 1a`, the greeting's sixth byte,
/// and zeros up to `size` bytes.
pub open spec fn acknowledgement_spec(greeting: Seq<u8>, size: nat) -> Seq<u8> {
    padded(seq![3u8, 26u8, greeting[5]], size)
}

/// What the daemon answers a greeting with: over the older protocol a
/// 1024-byte acknowledgement; over Cora a 32-byte one, framed as an
/// acknowledgement of the greeting's HID operation and message id.
pub open spec fn handshake_reply_spec(
    transport: TransportMode,
    greeting: Seq<u8>,
    hid_operation: u8,
    message_id: u32,
) -> Seq<u8> {
    match transport {
        TransportMode::Legacy => acknowledgement_spec(greeting, LEGACY_RESPONSE_SIZE as nat),
        TransportMode::Cora => cora_message_spec(
            CORA_ACK_NAK,
            hid_operation,
            message_id,
            acknowledgement_spec(greeting, 32),
        ),
    }
}

/// The bytes that acknowledge a device's greeting.
pub fn handshake_reply(transport: TransportMode, greeting: &[u8], hid_operation: u8, message_id: u32) -> (reply:
    Vec<u8>)
    requires
        greeting@.len() > 5,
    ensures
        reply@ == handshake_reply_spec(transport, greeting@, hid_operation, message_id),
{
    let head: [u8; 3] = [3, 26, greeting[5]];
    assert(head@ =~= seq![3u8, 26u8, greeting@[5]]);
    match transport {
        TransportMode::Legacy => padded_report(&head, LEGACY_RESPONSE_SIZE),
        TransportMode::Cora => {
            let acknowledgement = padded_report(&head, 32);
            cora_message(CORA_ACK_NAK, hid_operation, message_id, acknowledgement.as_slice())
        },
    }
}

/// The requests for a device's identity: the primary information `03 80`,
/// then `08` and `a1`. Over the older protocol each is a 1024-byte report;
/// over Cora each is a get-report message, the first under the primary
/// information's message id and the others, passed on verbatim, under 2 and 3.
pub open spec fn device_info_requests_spec(transport: TransportMode) -> Seq<Seq<u8>> {
    match transport {
        TransportMode::Legacy => seq![
            padded(seq![0x03u8, 0x80u8], LEGACY_RESPONSE_SIZE as nat),
            padded(seq![0x08u8], LEGACY_RESPONSE_SIZE as nat),
            padded(seq![0xa1u8], LEGACY_RESPONSE_SIZE as nat),
        ],
        TransportMode::Cora => seq![
            cora_message_spec(0, CORA_GET_REPORT, CORA_PRIMARY_INFO_MESSAGE_ID, seq![0x03u8, 0x80u8]),
            cora_message_spec(CORA_VERBATIM, CORA_GET_REPORT, 2, seq![0x08u8]),
            cora_message_spec(CORA_VERBATIM, CORA_GET_REPORT, 3, seq![0xa1u8]),
        ],
    }
}

/// The requests that ask a device who it is, in the order they are sent.
pub fn device_info_requests(transport: TransportMode) -> (requests: Vec<Vec<u8>>)
    ensures
        requests@.len() == 3,
        forall|i: int| 0 <= i < 3 ==> #[trigger] requests@[i]@ == device_info_requests_spec(transport)[i],
{
    let primary: [u8; 2] = [0x03, 0x80];
    let secondary: [u8; 1] = [0x08];
    let mini: [u8; 1] = [0xa1];
    assert(primary@ =~= seq![0x03u8, 0x80u8]);
    assert(secondary@ =~= seq![0x08u8]);
    assert(mini@ =~= seq![0xa1u8]);
    let mut requests: Vec<Vec<u8>> = Vec::new();
    match transport {
        TransportMode::Legacy => {
            requests.push(padded_report(&primary, LEGACY_RESPONSE_SIZE));
            requests.push(padded_report(&secondary, LEGACY_RESPONSE_SIZE));
            requests.push(padded_report(&mini, LEGACY_RESPONSE_SIZE));
        },
        TransportMode::Cora => {
            requests.push(cora_message(0, CORA_GET_REPORT, CORA_PRIMARY_INFO_MESSAGE_ID, &primary));
            requests.push(cora_message(CORA_VERBATIM, CORA_GET_REPORT, 2, &secondary));
            requests.push(cora_message(CORA_VERBATIM, CORA_GET_REPORT, 3, &mini));
        },
    }
    requests
}

/// The request that asks a dock what is plugged into it: `03 1c`, as a
/// 1024-byte report or as a get-report message under `message_id`.
pub open spec fn child_device_request_spec(transport: TransportMode, message_id: u32) -> Seq<u8> {
    match transport {
        TransportMode::Legacy => padded(seq![0x03u8, 0x1cu8], LEGACY_RESPONSE_SIZE as nat),
        TransportMode::Cora => cora_message_spec(0, CORA_GET_REPORT, message_id, seq![0x03u8, 0x1cu8]),
    }
}

/// The bytes that ask a dock what is plugged into it.
pub fn child_device_request(transport: TransportMode, message_id: u32) -> (request: Vec<u8>)
    ensures
        request@ == child_device_request_spec(transport, message_id),
{
    let head: [u8; 2] = [0x03, 0x1c];
    assert(head@ =~= seq![0x03u8, 0x1cu8]);
    match transport {
        TransportMode::Legacy => padded_report(&head, LEGACY_RESPONSE_SIZE),
        TransportMode::Cora => cora_message(0, CORA_GET_REPORT, message_id, &head),
    }
}

/// How many pages an image of `len` bytes is sent in.
pub open spec fn page_count(len: nat) -> nat {
    ((len + 1015) / 1016) as nat
}

/// The image bytes page `page` carries: the next 1016, or what is left.
pub open spec fn page_bytes(image: Seq<u8>, page: int) -> Seq<u8> {
    let start = page * 1016;
    let end = if start + 1016 <= image.len() {
        start + 1016
    } else {
        image.len() as int
    };
    image.subrange(start, end)
}

/// Page `page` of a key image as the device takes it: `02 07`, the key, 1
/// on the last page and 0 before it, the number of image bytes and the
/// page number, both low byte first, then the image bytes, in a report of
/// 1024 bytes.
pub open spec fn image_report_spec(image: Seq<u8>, key_index: u8, page: int) -> Seq<u8> {
    let chunk = page_bytes(image, page);
    let last: u8 = if page + 1 == page_count(image.len()) {
        1
    } else {
        0
    };
    padded(
        seq![2u8, 7u8, key_index, last] + le16_bytes(chunk.len() as u16) + le16_bytes(page as u16) + chunk,
        LEGACY_RESPONSE_SIZE as nat,
    )
}

/// A page as it is written: the report itself over the older protocol, or
/// the report framed as a verbatim write over Cora.
pub open spec fn image_message_spec(transport: TransportMode, image: Seq<u8>, key_index: u8, page: int) -> Seq<
    u8,
> {
    match transport {
        TransportMode::Legacy => image_report_spec(image, key_index, page),
        TransportMode::Cora => cora_message_spec(CORA_VERBATIM, CORA_WRITE, 0, image_report_spec(image, key_index, page)),
    }
}

proof fn lemma_page_bounds(len: int, count: int, page: int)
    requires
        0 <= len,
        count == len / 1016 + if len % 1016 == 0 { 0int } else { 1int },
        0 <= page < count,
    ensures
        count == page_count(len as nat),
        page * 1016 < len,
        page * 1016 + 1016 <= len || page + 1 == count,
{
    assert(count == (len + 1015) / 1016) by (nonlinear_arith)
        requires
            0 <= len,
            count == len / 1016 + if len % 1016 == 0 { 0int } else { 1int },
    ;
    assert(page * 1016 < len) by (nonlinear_arith)
        requires
            0 <= len,
            count == (len + 1015) / 1016,
            0 <= page < count,
    ;
    assert(page * 1016 + 1016 <= len || page + 1 == count) by (nonlinear_arith)
        requires
            0 <= len,
            count == (len + 1015) / 1016,
            0 <= page < count,
    ;
}

fn push_range(bytes: &mut Vec<u8>, source: &[u8], start: usize, end: usize)
    requires
        start <= end <= source@.len(),
    ensures
        final(bytes)@ == old(bytes)@ + source@.subrange(start as int, end as int),
{
    let ghost before = bytes@;
    let mut i = start;
    while i < end
        invariant
            start <= i <= end <= source@.len(),
            bytes@ == before + source@.subrange(start as int, i as int),
        decreases end - i,
    {
        bytes.push(source[i]);
        i += 1;
        assert(bytes@ =~= before + source@.subrange(start as int, i as int));
    }
}

/// The messages that put `image` on key `key_index`, in the order they are
/// written. An image of more than 65536 pages cannot be numbered and is
/// refused.
pub fn key_image_messages(transport: TransportMode, image: &[u8], key_index: u8) -> (messages: Result<
    Vec<Vec<u8>>,
    String,
>)
    ensures
        match messages {
            Ok(pages) => page_count(image@.len()) <= 65536 && pages@.len() == page_count(image@.len())
                && forall|p: int| 0 <= p < pages@.len() ==> #[trigger] pages@[p]@ == image_message_spec(
                transport,
                image@,
                key_index,
                p,
            ),
            Err(message) => page_count(image@.len()) > 65536 && message@ == "key image has too many pages"@,
        },
{
    let len = image.len();
    let count: usize = len / IMAGE_PAGE_SIZE + if len % IMAGE_PAGE_SIZE == 0 {
        0
    } else {
        1
    };
    if count > 65536 {
        proof {
            if count > 0 {
                lemma_page_bounds(len as int, count as int, 0);
            } else {
                assert(page_count(len as nat) == 0);
            }
        }
        return Err(crate::text::owned("key image has too many pages"));
    }
    proof {
        if count == 0 {
            assert(len == 0);
        } else {
            lemma_page_bounds(len as int, count as int, 0);
        }
    }
    let mut pages: Vec<Vec<u8>> = Vec::new();
    let mut page: usize = 0;
    while page < count
        invariant
            len == image@.len(),
            count == page_count(len as nat),
            count <= 65536,
            count == len / 1016 + if len % 1016 == 0 { 0int } else { 1int },
            page <= count,
            pages@.len() == page,
            forall|p: int| 0 <= p < page ==> #[trigger] pages@[p]@ == image_message_spec(transport, image@, key_index, p),
        decreases count - page,
    {
        proof {
            lemma_page_bounds(len as int, count as int, page as int);
        }
        let start = page * IMAGE_PAGE_SIZE;
        let end = if start + IMAGE_PAGE_SIZE <= len {
            start + IMAGE_PAGE_SIZE
        } else {
            len
        };
        let chunk_len = end - start;
        let last: u8 = if page + 1 == count {
            1
        } else {
            0
        };
        let mut report: Vec<u8> = Vec::new();
        push_byte(&mut report, 2);
        push_byte(&mut report, 7);
        push_byte(&mut report, key_index);
        push_byte(&mut report, last);
        push_le16(&mut report, chunk_len as u16);
        push_le16(&mut report, page as u16);
        push_range(&mut report, image, start, end);
        push_zeros(&mut report, LEGACY_RESPONSE_SIZE - IMAGE_REPORT_HEADER_SIZE - chunk_len);
        proof {
            let chunk = page_bytes(image@, page as int);
            assert(chunk == image@.subrange(start as int, end as int));
            assert(report@ =~= image_report_spec(image@, key_index, page as int));
        }
        let message = match transport {
            TransportMode::Legacy => report,
            TransportMode::Cora => cora_message(CORA_VERBATIM, CORA_WRITE, 0, report.as_slice()),
        };
        pages.push(message);
        page += 1;
    }
    Ok(pages)
}

/// What an input report says.
#[derive(Debug)]
pub enum InputReport {
    /// Whether each of the 32 keys is down.
    Keys(Vec<bool>),
    /// Whether each of the two dials is pressed in.
    DialPresses(Vec<bool>),
    /// How far each of the two dials turned, clockwise positive.
    DialTurns(Vec<i8>),
    /// The identifier of a scanned NFC tag.
    Nfc(String),
    /// A report that says none of these.
    Ignored,
}

/// Whether `packet` is a dial report too short to hold both dials, which the
/// decoder does not read.
pub open spec fn truncated_dial_report(packet: Seq<u8>) -> bool {
    packet.len() == 6 && packet[1] == 3 && packet[4] <= 1
}

/// The length an NFC report gives its identifier: bytes 2 and 3, low first.
pub open spec fn nfc_end(packet: Seq<u8>) -> int {
    4 + packet[2] + packet[3] * 256
}

/// Reads an input report: byte 1 says what it holds. `00` with at least 36
/// bytes is the state of 32 keys from byte 4 on; `03` is the two dials,
/// pressed when byte 4 is 0 and turned when it is 1, from byte 5 on; `04`
/// is an NFC identifier whose length bytes 2 and 3 give, read as UTF-8 with
/// malformed sequences replaced, when the report holds all of it.
pub fn decode_input_report(packet: &[u8]) -> (report: InputReport)
    requires
        !truncated_dial_report(packet@),
    ensures
        match report {
            InputReport::Keys(states) => packet@.len() >= 36 && packet@[1] == 0 && states@ == Seq::new(
                32,
                |k: int| packet@[4 + k] != 0,
            ),
            InputReport::DialPresses(pressed) => packet@.len() >= 7 && packet@[1] == 3 && packet@[4] == 0
                && pressed@ == seq![packet@[5] != 0, packet@[6] != 0],
            InputReport::DialTurns(deltas) => packet@.len() >= 7 && packet@[1] == 3 && packet@[4] == 1
                && deltas@ == seq![packet@[5] as i8, packet@[6] as i8],
            InputReport::Nfc(identifier) => packet@.len() >= 4 && packet@[1] == 4 && packet@.len() >= nfc_end(
                packet@,
            ) && identifier@ == crate::streamdeck::utf8_lossy(packet@.subrange(4, nfc_end(packet@))),
            InputReport::Ignored => !(packet@.len() >= 36 && packet@[1] == 0) && !(packet@.len() >= 6
                && packet@[1] == 3 && packet@[4] <= 1) && !(packet@.len() >= 4 && packet@[1] == 4
                && packet@.len() >= nfc_end(packet@)),
        },
{
    let len = packet.len();
    if len < 2 {
        return InputReport::Ignored;
    }
    if packet[1] == 0 && len >= 36 {
        let mut states: Vec<bool> = Vec::new();
        let mut k: usize = 0;
        while k < 32
            invariant
                len == packet@.len(),
                len >= 36,
                k <= 32,
                states@ == Seq::new(k as nat, |j: int| packet@[4 + j] != 0),
            decreases 32 - k,
        {
            states.push(packet[4 + k] != 0);
            k += 1;
            assert(states@ =~= Seq::new(k as nat, |j: int| packet@[4 + j] != 0));
        }
        return InputReport::Keys(states);
    }
    if packet[1] == 3 && len >= 6 && packet[4] == 0 {
        let mut pressed: Vec<bool> = Vec::new();
        pressed.push(packet[5] != 0);
        pressed.push(packet[6] != 0);
        assert(pressed@ =~= seq![packet@[5] != 0, packet@[6] != 0]);
        return InputReport::DialPresses(pressed);
    }
    if packet[1] == 3 && len >= 6 && packet[4] == 1 {
        let mut deltas: Vec<i8> = Vec::new();
        deltas.push(packet[5] as i8);
        deltas.push(packet[6] as i8);
        assert(deltas@ =~= seq![packet@[5] as i8, packet@[6] as i8]);
        return InputReport::DialTurns(deltas);
    }
    if packet[1] == 4 && len >= 4 {
        let end: usize = 4 + packet[2] as usize + (packet[3] as usize) * 256;
        if len >= end {
            let mut identifier_bytes: Vec<u8> = Vec::new();
            push_range(&mut identifier_bytes, packet, 4, end);
            assert(identifier_bytes@ =~= packet@.subrange(4, nfc_end(packet@)));
            return InputReport::Nfc(crate::streamdeck::lossy_text(identifier_bytes.as_slice()));
        }
    }
    InputReport::Ignored
}

} // verus!
