use pcap_file::pcap::{PcapPacket, PcapWriter};
use pcap_file::pcapng::blocks::enhanced_packet::EnhancedPacketBlock;
use pcap_file::pcapng::blocks::interface_description::InterfaceDescriptionBlock;
use pcap_file::pcapng::PcapNgWriter;
use pcap_file::DataLink;
use std::borrow::Cow;
use profinet_rt::capture::{detect_capture_format, read_capture, CaptureError, CaptureFormat};
use profinet_rt::dcp::{handle_dcp_frame, DeviceConfig, DeviceProperties};
use profinet_rt::eth::MacAddr;
use std::time::Duration;

// Golden Identify REQUEST frame (56 bytes).
const REQ_FRAME: &[u8] = &[
    0x01, 0x0e, 0xcf, 0x00, 0x00, 0x00, 0xec, 0x1c, 0x5d, 0x61, 0xe7, 0x3f, 0x88, 0x92, 0xfe, 0xfe,
    0x05, 0x00, 0x03, 0x00, 0x01, 0x52, 0x00, 0x01, 0x00, 0x0c, 0x02, 0x02, 0x00, 0x08, 0x69, 0x2d,
    0x64, 0x65, 0x76, 0x69, 0x63, 0x65, 0x00, 0x00, 0x00, 0x00, 0x00, 0x00, 0x00, 0x00, 0x00, 0x00,
    0x00, 0x00, 0x00, 0x00, 0x00, 0x00, 0x00, 0x00,
];

// Golden Identify RESPONSE frame (114 bytes).
const RESP_FRAME: &[u8] = &[
    0xec, 0x1c, 0x5d, 0x61, 0xe7, 0x3f, 0x02, 0xc0, 0xa8, 0x01, 0x0f, 0x02, 0x88, 0x92, 0xfe, 0xff,
    0x05, 0x01, 0x03, 0x00, 0x01, 0x52, 0x00, 0x00, 0x00, 0x58, 0x02, 0x02, 0x00, 0x0a, 0x00, 0x00,
    0x69, 0x2d, 0x64, 0x65, 0x76, 0x69, 0x63, 0x65, 0x02, 0x05, 0x00, 0x04, 0x00, 0x00, 0x02, 0x07,
    0x02, 0x01, 0x00, 0x12, 0x00, 0x00, 0x53, 0x37, 0x2d, 0x31, 0x35, 0x30, 0x30, 0x20, 0x28, 0x50,
    0x4c, 0x43, 0x53, 0x49, 0x4d, 0x29, 0x02, 0x03, 0x00, 0x06, 0x00, 0x00, 0x00, 0x2a, 0x01, 0x0e,
    0x02, 0x04, 0x00, 0x04, 0x00, 0x00, 0x00, 0x00, 0x02, 0x07, 0x00, 0x04, 0x00, 0x00, 0x10, 0x64,
    0x01, 0x02, 0x00, 0x0e, 0x00, 0x01, 0xc0, 0xa8, 0x01, 0x3d, 0xff, 0xff, 0xff, 0x00, 0xc0, 0xa8,
    0x01, 0x3d,
];

fn make_pcap(frames: &[&[u8]]) -> Vec<u8> {
    let mut buf = Vec::new();
    {
        let mut w = PcapWriter::new(&mut buf).unwrap();
        for f in frames {
            w.write_packet(&PcapPacket::new(Duration::ZERO, f.len() as u32, f))
                .unwrap();
        }
    }
    buf
}

/// Build an in-memory pcapng holding the given Ethernet frames:
/// InterfaceDescriptionBlock(ETHERNET) + EnhancedPacketBlock per frame.
fn make_pcapng(frames: &[&[u8]]) -> Vec<u8> {
    let mut buf = Vec::new();
    {
        let mut w = PcapNgWriter::new(&mut buf).unwrap();
        let iface = InterfaceDescriptionBlock {
            linktype: DataLink::ETHERNET,
            snaplen: 0xFFFF,
            options: vec![],
        };
        w.write_pcapng_block(iface).unwrap();
        for f in frames {
            let pkt = EnhancedPacketBlock {
                interface_id: 0,
                timestamp: Duration::ZERO,
                original_len: f.len() as u32,
                data: Cow::Borrowed(f),
                options: vec![],
            };
            w.write_pcapng_block(pkt).unwrap();
        }
    }
    buf
}

fn device_cfg() -> DeviceConfig {
    DeviceConfig {
        mac: MacAddr([0x02, 0xc0, 0xa8, 0x01, 0x0f, 0x02]),
        properties: DeviceProperties {
            name_of_station: "i-device".to_string(),
            type_of_station: "S7-1500 (PLCSIM)".to_string(),
            vendor_id: 0x002a,
            device_id: 0x010e,
            device_role: 0x0000,
            device_instance: 0x1064,
            device_options: vec![0x02, 0x07],
            ip: [192, 168, 1, 61],
            subnet: [255, 255, 255, 0],
            gateway: [192, 168, 1, 61],
            ip_block_info: 0x0001,
        },
    }
}

#[test]
fn reads_all_frames_in_order() {
    let bytes = make_pcap(&[&[0xaa, 0xbb], &[0xcc]]);
    let c = read_capture(&bytes).unwrap();
    assert!(c.error.is_none());
    assert_eq!(c.frames, vec![vec![0xaa, 0xbb], vec![0xcc]]);
}

#[test]
fn reads_pcapng_frames_in_order() {
    let bytes = make_pcapng(&[&[0xaa, 0xbb], &[0xcc]]);
    let c = read_capture(&bytes).unwrap();
    assert!(c.error.is_none());
    assert_eq!(c.frames, vec![vec![0xaa, 0xbb], vec![0xcc]]);
}

#[test]
fn unknown_format_errors() {
    let err = read_capture(&[0x00, 0x01, 0x02, 0x03, 0x04]);
    assert!(matches!(err, Err(CaptureError::UnknownFormat(_))));
}

#[test]
fn capture_shorter_than_magic_is_io_error() {
    assert_eq!(
        read_capture(&[0x0a, 0x0d]).err(),
        Some(CaptureError::Io("failed to fill whole buffer".to_string()))
    );
}

#[test]
fn detects_formats_by_magic() {
    assert_eq!(detect_capture_format(&[0x0a, 0x0d, 0x0d, 0x0a]), Ok(CaptureFormat::PcapNg));
    assert_eq!(detect_capture_format(&[0xd4, 0xc3, 0xb2, 0xa1, 9]), Ok(CaptureFormat::Pcap));
    assert_eq!(detect_capture_format(&[0xa1, 0xb2, 0x3c, 0x4d]), Ok(CaptureFormat::Pcap));
    assert_eq!(
        detect_capture_format(&[1, 2, 3, 4]),
        Err(CaptureError::UnknownFormat([1, 2, 3, 4]))
    );
}

#[test]
fn truncated_record_is_reported_after_the_good_frames() {
    let mut bytes = make_pcap(&[&[0xaa, 0xbb], &[0xcc, 0xdd, 0xee]]);
    bytes.truncate(bytes.len() - 1);
    let c = read_capture(&bytes).unwrap();
    assert_eq!(c.frames, vec![vec![0xaa, 0xbb]]);
    assert!(matches!(c.error, Some(CaptureError::Pcap(_))));
}

#[test]
fn truncated_pcap_header_is_error() {
    let bytes = make_pcap(&[]);
    assert!(matches!(read_capture(&bytes[..10]), Err(CaptureError::Pcap(_))));
}

/// Overwrites the 32-bit field at `off` in the byte order of the pcap magic.
fn patch_pcap_u32(bytes: &mut [u8], off: usize, v: u32) {
    let enc = if bytes[0] == 0xa1 { v.to_be_bytes() } else { v.to_le_bytes() };
    bytes[off..off + 4].copy_from_slice(&enc);
}

#[test]
fn record_longer_than_snaplen_is_reported() {
    let mut bytes = make_pcap(&[&[0xaa], &[0xbb, 0xcc]]);
    patch_pcap_u32(&mut bytes, 16, 1);
    let c = read_capture(&bytes).unwrap();
    assert_eq!(c.frames, vec![vec![0xaa]]);
    assert!(matches!(c.error, Some(CaptureError::Pcap(_))));
}

#[test]
fn microsecond_fraction_of_a_full_second_is_reported() {
    let mut bytes = make_pcap(&[&[0xaa], &[0xbb]]);
    // ts_frac of the second record (24-byte header, 17-byte first record).
    patch_pcap_u32(&mut bytes, 24 + 17 + 4, 1_000_000);
    let c = read_capture(&bytes).unwrap();
    assert_eq!(c.frames, vec![vec![0xaa]]);
    assert!(matches!(c.error, Some(CaptureError::Pcap(_))));
    patch_pcap_u32(&mut bytes, 24 + 17 + 4, 999_999);
    let c = read_capture(&bytes).unwrap();
    assert!(c.error.is_none());
    assert_eq!(c.frames, vec![vec![0xaa], vec![0xbb]]);
}

#[test]
fn pcap_header_only_gives_no_frames() {
    let bytes = make_pcap(&[]);
    let c = read_capture(&bytes).unwrap();
    assert!(c.error.is_none());
    assert!(c.frames.is_empty());
}

/// A big-endian Section Header Block without options.
fn shb_be() -> Vec<u8> {
    let mut b = vec![0x0a, 0x0d, 0x0d, 0x0a, 0, 0, 0, 28, 0x1a, 0x2b, 0x3c, 0x4d, 0, 1, 0, 0];
    b.extend_from_slice(&[0xff; 8]);
    b.extend_from_slice(&[0, 0, 0, 28]);
    b
}

#[test]
fn pcapng_simple_packet_block_gives_its_data() {
    let mut bytes = shb_be();
    bytes.extend_from_slice(&[0, 0, 0, 3, 0, 0, 0, 20, 0, 0, 0, 4, 0xde, 0xad, 0xbe, 0xef, 0, 0, 0, 20]);
    let c = read_capture(&bytes).unwrap();
    assert!(c.error.is_none());
    assert_eq!(c.frames, vec![vec![0xde, 0xad, 0xbe, 0xef]]);
}

#[test]
fn pcapng_little_endian_section_is_read() {
    let mut bytes = vec![0x0a, 0x0d, 0x0d, 0x0a, 28, 0, 0, 0, 0x4d, 0x3c, 0x2b, 0x1a, 1, 0, 0, 0];
    bytes.extend_from_slice(&[0xff; 8]);
    bytes.extend_from_slice(&[28, 0, 0, 0]);
    // Enhanced Packet Block: interface 0, timestamp 0, captured 2, original 2.
    bytes.extend_from_slice(&[6, 0, 0, 0, 36, 0, 0, 0, 0, 0, 0, 0, 0, 0, 0, 0, 0, 0, 0, 0]);
    bytes.extend_from_slice(&[2, 0, 0, 0, 2, 0, 0, 0, 0xaa, 0xbb, 0, 0, 36, 0, 0, 0]);
    let c = read_capture(&bytes).unwrap();
    assert!(c.error.is_none());
    assert_eq!(c.frames, vec![vec![0xaa, 0xbb]]);
}

#[test]
fn pcapng_badly_framed_block_is_reported_after_the_good_frames() {
    let mut bytes = make_pcapng(&[&[0xaa, 0xbb], &[0xcc]]);
    let n = bytes.len();
    bytes[n - 1] ^= 0x01; // trailing length of the last block no longer matches
    let c = read_capture(&bytes).unwrap();
    assert_eq!(c.frames, vec![vec![0xaa, 0xbb]]);
    assert!(matches!(c.error, Some(CaptureError::Pcap(_))));
}

#[test]
fn pcapng_captured_length_near_u32_max_is_refused() {
    let mut bytes = shb_be();
    bytes.extend_from_slice(&[0, 0, 0, 6, 0, 0, 0, 32, 0, 0, 0, 0, 0, 0, 0, 0, 0, 0, 0, 0]);
    bytes.extend_from_slice(&[0xff, 0xff, 0xff, 0xff, 0, 0, 0, 0, 0, 0, 0, 32]);
    let c = read_capture(&bytes).unwrap();
    assert!(c.frames.is_empty());
    assert!(matches!(c.error, Some(CaptureError::Pcap(_))));
}

#[test]
fn pcapng_with_section_and_interface_options_is_read() {
    // Section Header Block with a user-application option "abc" and the end option.
    let mut bytes = vec![0x0a, 0x0d, 0x0d, 0x0a, 0, 0, 0, 40, 0x1a, 0x2b, 0x3c, 0x4d, 0, 1, 0, 0];
    bytes.extend_from_slice(&[0xff; 8]);
    bytes.extend_from_slice(&[0, 4, 0, 3, b'a', b'b', b'c', 0, 0, 0, 0, 0, 0, 0, 0, 40]);
    // Interface Description Block (Ethernet) with an if_name option "eth0".
    bytes.extend_from_slice(&[0, 0, 0, 1, 0, 0, 0, 32, 0, 1, 0, 0, 0, 0, 0xff, 0xff]);
    bytes.extend_from_slice(&[0, 2, 0, 4, b'e', b't', b'h', b'0', 0, 0, 0, 0, 0, 0, 0, 32]);
    // Enhanced Packet Block with one 3-byte frame and a comment option "x".
    bytes.extend_from_slice(&[0, 0, 0, 6, 0, 0, 0, 48, 0, 0, 0, 0, 0, 0, 0, 0, 0, 0, 0, 0]);
    bytes.extend_from_slice(&[0, 0, 0, 3, 0, 0, 0, 3, 0x01, 0x02, 0x03, 0]);
    bytes.extend_from_slice(&[0, 1, 0, 1, b'x', 0, 0, 0, 0, 0, 0, 0, 0, 0, 0, 48]);
    let c = read_capture(&bytes).unwrap();
    assert!(c.error.is_none());
    assert_eq!(c.frames, vec![vec![0x01, 0x02, 0x03]]);
}

#[test]
fn pcapng_packet_block_of_the_obsolete_kind_gives_no_frame() {
    let mut bytes = shb_be();
    // Packet Block (type 2): interface 0, drops 0, timestamp 0, captured 1, original 1.
    bytes.extend_from_slice(&[0, 0, 0, 2, 0, 0, 0, 36, 0, 0, 0, 0, 0, 0, 0, 0, 0, 0, 0, 0]);
    bytes.extend_from_slice(&[0, 0, 0, 1, 0, 0, 0, 1, 0x77, 0, 0, 0, 0, 0, 0, 36]);
    bytes.extend_from_slice(&[0, 0, 0, 3, 0, 0, 0, 20, 0, 0, 0, 4, 0xde, 0xad, 0xbe, 0xef, 0, 0, 0, 20]);
    let c = read_capture(&bytes).unwrap();
    assert!(c.error.is_none());
    assert_eq!(c.frames, vec![vec![0xde, 0xad, 0xbe, 0xef]]);
}

#[test]
fn pcapng_shorter_than_a_block_is_error() {
    assert!(matches!(read_capture(&[0x0a, 0x0d, 0x0d, 0x0a, 0, 0]), Err(CaptureError::Pcap(_))));
}

#[test]
fn replay_identify_request_produces_golden_response() {
    let pcapng = make_pcapng(&[REQ_FRAME]);
    let cfg = device_cfg();

    let capture = read_capture(&pcapng).unwrap();
    assert!(capture.error.is_none(), "frame read");
    let mut responses = Vec::new();
    for frame in capture.frames {
        if let Some(resp) = handle_dcp_frame(&frame, &cfg).unwrap() {
            responses.push(resp);
        }
    }

    assert_eq!(responses.len(), 1, "exactly one Identify response expected");
    assert_eq!(
        responses[0], RESP_FRAME,
        "response must be byte-exact golden"
    );
}

#[test]
fn nanosecond_pcap_accepts_fractions_below_a_second() {
    let mut bytes = make_pcap(&[&[0xaa]]);
    let nano_magic: u32 = 0xa1b2_3c4d;
    patch_pcap_u32(&mut bytes, 0, nano_magic);
    patch_pcap_u32(&mut bytes, 24 + 4, 999_999_999);
    let c = read_capture(&bytes).unwrap();
    assert!(c.error.is_none());
    assert_eq!(c.frames, vec![vec![0xaa]]);
    patch_pcap_u32(&mut bytes, 24 + 4, 1_000_000_000);
    let c = read_capture(&bytes).unwrap();
    assert!(c.frames.is_empty());
    assert!(matches!(c.error, Some(CaptureError::Pcap(_))));
}
