use profinet_rt::dcp::{handle_dcp_frame, DcpError, DeviceConfig, DeviceProperties};
use profinet_rt::eth::MacAddr;

// Golden Identify REQUEST frame (56 bytes).
const REQ_FRAME: &[u8] = &[
    0x01, 0x0e, 0xcf, 0x00, 0x00, 0x00, 0xec, 0x1c, 0x5d, 0x61, 0xe7, 0x3f, 0x88, 0x92, 0xfe,
    0xfe, 0x05, 0x00, 0x03, 0x00, 0x01, 0x52, 0x00, 0x01, 0x00, 0x0c, 0x02, 0x02, 0x00, 0x08,
    0x69, 0x2d, 0x64, 0x65, 0x76, 0x69, 0x63, 0x65, 0x00, 0x00, 0x00, 0x00, 0x00, 0x00, 0x00,
    0x00, 0x00, 0x00, 0x00, 0x00, 0x00, 0x00, 0x00, 0x00, 0x00, 0x00,
];

fn cfg() -> DeviceConfig {
    DeviceConfig {
        mac: MacAddr([0x02, 0xc0, 0xa8, 0x01, 0x0f, 0x02]),
        properties: DeviceProperties {
            name_of_station: "i-device".to_string(),
            type_of_station: "S7-1500 (PLCSIM)".to_string(),
            vendor_id: 0x002a,
            device_id: 0x010e,
            device_role: 0x0000,
            device_instance: 0x1064,
            device_options: vec![0x02, 0x07],
            ip: [192, 168, 1, 61],
            subnet: [255, 255, 255, 0],
            gateway: [192, 168, 1, 61],
            ip_block_info: 0x0001,
        },
    }
}

#[test]
fn responds_to_matching_identify() {
    let resp = handle_dcp_frame(REQ_FRAME, &cfg())
        .unwrap()
        .expect("expected a response");
    // dst must be the requester (controller), src must be our device
    assert_eq!(&resp[0..6], &[0xec, 0x1c, 0x5d, 0x61, 0xe7, 0x3f]);
    assert_eq!(&resp[6..12], &[0x02, 0xc0, 0xa8, 0x01, 0x0f, 0x02]);
    assert_eq!(&resp[14..16], &[0xfe, 0xff]); // Identify response FrameID
    // echoes the request Xid
    assert_eq!(&resp[18..22], &[0x03, 0x00, 0x01, 0x52]);
}

#[test]
fn ignores_other_device_name() {
    let mut c = cfg();
    c.properties.name_of_station = "other".to_string();
    assert_eq!(handle_dcp_frame(REQ_FRAME, &c).unwrap(), None);
}

#[test]
fn ignores_non_profinet_frame() {
    let mut f = REQ_FRAME.to_vec();
    f[12] = 0x08;
    f[13] = 0x00; // ethertype IPv4
    assert_eq!(handle_dcp_frame(&f, &cfg()).unwrap(), None);
}

// Wrap raw DCP filter blocks into a full Identify-request Ethernet frame.
fn req_frame(blocks: &[u8]) -> Vec<u8> {
    let mut f = vec![
        0x01, 0x0e, 0xcf, 0x00, 0x00, 0x00, // dst multicast
        0xec, 0x1c, 0x5d, 0x61, 0xe7, 0x3f, // src controller
        0x88, 0x92, // ethertype
        0xfe, 0xfe, // FrameID Identify request
        0x05, 0x00, 0x03, 0x00, 0x01, 0x52, 0x00, 0x01, // svc/type/xid/respdelay
    ];
    f.extend_from_slice(&(blocks.len() as u16).to_be_bytes()); // DCPDataLength
    f.extend_from_slice(blocks);
    f
}

#[test]
fn responds_to_all_selector() {
    let f = req_frame(&[0xff, 0xff, 0x00, 0x00]);
    assert!(handle_dcp_frame(&f, &cfg()).unwrap().is_some());
}

#[test]
fn ignores_identify_by_other_filter() {
    // DeviceID filter only, no NameOfStation -> must NOT respond (over-response fix)
    let f = req_frame(&[0x02, 0x03, 0x00, 0x04, 0x00, 0x2a, 0x01, 0x0e]);
    assert_eq!(handle_dcp_frame(&f, &cfg()).unwrap(), None);
}

#[test]
fn ignores_matching_name_with_extra_filter() {
    let f = req_frame(&[
        0x02, 0x02, 0x00, 0x08, 0x69, 0x2d, 0x64, 0x65, 0x76, 0x69, 0x63, 0x65, // name
        0x02, 0x03, 0x00, 0x04, 0x00, 0x2a, 0x01, 0x0e, // DeviceID
    ]);
    assert_eq!(handle_dcp_frame(&f, &cfg()).unwrap(), None);
}

#[test]
fn ignores_request_without_filter() {
    let f = req_frame(&[]);
    assert_eq!(handle_dcp_frame(&f, &cfg()).unwrap(), None);
}

#[test]
fn ignores_other_dcp_frame_ids() {
    let mut f = REQ_FRAME.to_vec();
    f[15] = 0xfd; // Get/Set
    assert_eq!(handle_dcp_frame(&f, &cfg()).unwrap(), None);
}

#[test]
fn vlan_tagged_request_is_answered_untagged() {
    let mut f = REQ_FRAME[..12].to_vec();
    f.extend_from_slice(&[0x81, 0x00, 0xe0, 0x00]);
    f.extend_from_slice(&REQ_FRAME[12..]);
    let resp = handle_dcp_frame(&f, &cfg()).unwrap().unwrap();
    assert_eq!(resp, handle_dcp_frame(REQ_FRAME, &cfg()).unwrap().unwrap());
}

#[test]
fn short_frame_is_malformed() {
    assert_eq!(
        handle_dcp_frame(&REQ_FRAME[..10], &cfg()),
        Err(DcpError::Malformed("bad Ethernet header"))
    );
}

#[test]
fn missing_frame_id_is_too_short() {
    assert_eq!(
        handle_dcp_frame(&REQ_FRAME[..15], &cfg()),
        Err(DcpError::TooShort { need: 16, have: 15 })
    );
}

#[test]
fn bad_service_id_is_reported() {
    let mut f = REQ_FRAME.to_vec();
    f[16] = 0x01;
    assert_eq!(handle_dcp_frame(&f, &cfg()), Err(DcpError::BadServiceId(1)));
}

#[test]
fn truncated_dcp_data_is_too_short() {
    assert_eq!(
        handle_dcp_frame(&REQ_FRAME[..30], &cfg()),
        Err(DcpError::TooShort { need: 22, have: 14 })
    );
}
