use profinet_rt::dcp::{
    build_identify_response, parse_blocks, parse_identify_request, DcpError, DcpHeader,
    DeviceProperties,
};
use profinet_rt::eth::{EthHeader, MacAddr};

// Golden Identify REQUEST block bytes (after the DCP header): the NameOfStation filter.
const REQ_BLOCKS: &[u8] = &[
    0x02, 0x02, 0x00, 0x08, 0x69, 0x2d, 0x64, 0x65, 0x76, 0x69, 0x63, 0x65,
];

// Full golden Identify RESPONSE frame (114 bytes).
const RESP_FRAME: &[u8] = &[
    0xec, 0x1c, 0x5d, 0x61, 0xe7, 0x3f, 0x02, 0xc0, 0xa8, 0x01, 0x0f, 0x02, 0x88, 0x92, 0xfe,
    0xff, 0x05, 0x01, 0x03, 0x00, 0x01, 0x52, 0x00, 0x00, 0x00, 0x58, 0x02, 0x02, 0x00, 0x0a,
    0x00, 0x00, 0x69, 0x2d, 0x64, 0x65, 0x76, 0x69, 0x63, 0x65, 0x02, 0x05, 0x00, 0x04, 0x00,
    0x00, 0x02, 0x07, 0x02, 0x01, 0x00, 0x12, 0x00, 0x00, 0x53, 0x37, 0x2d, 0x31, 0x35, 0x30,
    0x30, 0x20, 0x28, 0x50, 0x4c, 0x43, 0x53, 0x49, 0x4d, 0x29, 0x02, 0x03, 0x00, 0x06, 0x00,
    0x00, 0x00, 0x2a, 0x01, 0x0e, 0x02, 0x04, 0x00, 0x04, 0x00, 0x00, 0x00, 0x00, 0x02, 0x07,
    0x00, 0x04, 0x00, 0x00, 0x10, 0x64, 0x01, 0x02, 0x00, 0x0e, 0x00, 0x01, 0xc0, 0xa8, 0x01,
    0x3d, 0xff, 0xff, 0xff, 0x00, 0xc0, 0xa8, 0x01, 0x3d,
];

fn golden_props() -> DeviceProperties {
    DeviceProperties {
        name_of_station: "i-device".to_string(),
        type_of_station: "S7-1500 (PLCSIM)".to_string(),
        vendor_id: 0x002a,
        device_id: 0x010e,
        device_role: 0x0000,
        device_instance: 0x1064,
        device_options: vec![0x02, 0x07],
        ip: [192, 168, 1, 61],
        subnet: [255, 255, 255, 0],
        gateway: [192, 168, 1, 61],
        ip_block_info: 0x0001,
    }
}

#[test]
fn parse_request_filter_name() {
    let f = parse_identify_request(REQ_BLOCKS).unwrap();
    assert_eq!(f.name_of_station.as_deref(), Some("i-device"));
    assert!(!f.all_selector);
    assert!(f.other_filters.is_empty());
}

#[test]
fn parse_all_selector() {
    // AllSelector: option 0xff suboption 0xff, length 0
    let f = parse_identify_request(&[0xff, 0xff, 0x00, 0x00]).unwrap();
    assert!(f.all_selector);
    assert_eq!(f.name_of_station, None);
}

#[test]
fn parse_other_filter_is_recorded() {
    // DeviceID filter (2,3), 4-byte value, no name block
    let f = parse_identify_request(&[0x02, 0x03, 0x00, 0x04, 0x00, 0x2a, 0x01, 0x0e]).unwrap();
    assert_eq!(f.name_of_station, None);
    assert_eq!(f.other_filters, vec![(2, 3)]);
}

#[test]
fn build_response_is_byte_exact() {
    let dst = MacAddr([0xec, 0x1c, 0x5d, 0x61, 0xe7, 0x3f]);
    let src = MacAddr([0x02, 0xc0, 0xa8, 0x01, 0x0f, 0x02]);
    let frame = build_identify_response(dst, src, 0x0300_0152, &golden_props());
    assert_eq!(frame, RESP_FRAME);
}

#[test]
fn parse_empty_request_has_no_filter() {
    let f = parse_identify_request(&[]).unwrap();
    assert_eq!(f.name_of_station, None);
    assert!(!f.all_selector);
    assert!(f.other_filters.is_empty());
}

#[test]
fn non_utf8_name_is_malformed() {
    assert!(matches!(
        parse_identify_request(&[0x02, 0x02, 0x00, 0x02, 0xff, 0xfe]),
        Err(DcpError::Malformed(_))
    ));
}

#[test]
fn last_name_block_wins_and_other_filters_keep_order() {
    let f = parse_identify_request(&[
        0x02, 0x02, 0x00, 0x01, b'a', 0x00, // name "a" (odd, padded)
        0x01, 0x02, 0x00, 0x00, // IP filter
        0x02, 0x02, 0x00, 0x02, b'b', b'c', // name "bc"
        0x02, 0x03, 0x00, 0x00, // DeviceID filter
    ])
    .unwrap();
    assert_eq!(f.name_of_station.as_deref(), Some("bc"));
    assert_eq!(f.other_filters, vec![(1, 2), (2, 3)]);
}

#[test]
fn response_reads_back_as_built() {
    let dst = MacAddr([1, 2, 3, 4, 5, 6]);
    let src = MacAddr([6, 5, 4, 3, 2, 1]);
    let mut props = golden_props();
    props.name_of_station = "dévice".to_string(); // odd UTF-8 length, padded
    props.device_options = vec![1, 2, 3];
    let frame = build_identify_response(dst, src, 0xdead_beef, &props);
    let (eth, off) = EthHeader::parse(&frame).unwrap();
    assert_eq!((eth.dst, eth.src, eth.vlan, off), (dst, src, None, 14));
    assert_eq!(&frame[14..16], &[0xfe, 0xff]);
    let (h, blocks) = DcpHeader::parse(&frame[16..]).unwrap();
    assert_eq!(h.xid, 0xdead_beef);
    assert_eq!(h.data_length as usize, blocks.len());
    assert_eq!(16 + 10 + blocks.len(), frame.len());
    let blocks = parse_blocks(blocks, true).unwrap();
    assert_eq!(blocks.len(), 7);
    assert_eq!(blocks[0].value, "dévice".as_bytes());
    assert_eq!(blocks[1].value, vec![1, 2, 3]);
    assert_eq!(blocks[6].value, vec![192, 168, 1, 61, 255, 255, 255, 0, 192, 168, 1, 61]);
}
