use profinet_rt::eth::{EthError, EthHeader, MacAddr, ETHERTYPE_PROFINET};

// dst=01:0e:cf:00:00:00, src=00:11:22:33:44:55, ethertype=0x8892, payload=[0xfe,0xfe]
const FRAME_NO_VLAN: [u8; 16] = [
    0x01, 0x0e, 0xcf, 0x00, 0x00, 0x00, 0x00, 0x11, 0x22, 0x33, 0x44, 0x55, 0x88, 0x92, 0xfe,
    0xfe,
];

// same frame with a VLAN tag 0x8100, TCI=0xE000 (prio 7), before the ethertype
const FRAME_VLAN: [u8; 20] = [
    0x01, 0x0e, 0xcf, 0x00, 0x00, 0x00, 0x00, 0x11, 0x22, 0x33, 0x44, 0x55, 0x81, 0x00, 0xe0,
    0x00, 0x88, 0x92, 0xfe, 0xfe,
];

#[test]
fn parse_without_vlan() {
    let (h, off) = EthHeader::parse(&FRAME_NO_VLAN).unwrap();
    assert_eq!(h.dst, MacAddr([0x01, 0x0e, 0xcf, 0x00, 0x00, 0x00]));
    assert_eq!(h.src, MacAddr([0x00, 0x11, 0x22, 0x33, 0x44, 0x55]));
    assert_eq!(h.vlan, None);
    assert_eq!(h.ethertype, ETHERTYPE_PROFINET);
    assert_eq!(off, 14);
    assert_eq!(&FRAME_NO_VLAN[off..], &[0xfe, 0xfe]);
}

#[test]
fn parse_with_vlan() {
    let (h, off) = EthHeader::parse(&FRAME_VLAN).unwrap();
    assert_eq!(h.vlan, Some(0xe000));
    assert_eq!(h.ethertype, ETHERTYPE_PROFINET);
    assert_eq!(off, 18);
}

#[test]
fn round_trip_no_vlan() {
    let (h, _) = EthHeader::parse(&FRAME_NO_VLAN).unwrap();
    let mut out = Vec::new();
    h.write(&mut out);
    assert_eq!(out, &FRAME_NO_VLAN[..14]);
}

#[test]
fn too_short_is_error() {
    assert!(matches!(
        EthHeader::parse(&[0u8; 8]),
        Err(EthError::TooShort)
    ));
}

#[test]
fn round_trip_with_vlan() {
    let (h, off) = EthHeader::parse(&FRAME_VLAN).unwrap();
    let mut out = Vec::new();
    h.write(&mut out);
    assert_eq!(out, &FRAME_VLAN[..off]);
}

#[test]
fn write_then_parse_gives_header_back() {
    let h = EthHeader {
        dst: MacAddr([1, 2, 3, 4, 5, 6]),
        src: MacAddr([7, 8, 9, 10, 11, 12]),
        vlan: Some(0x0123),
        ethertype: 0x0800,
    };
    let mut out = Vec::new();
    h.write(&mut out);
    out.extend_from_slice(&[0xaa, 0xbb]);
    assert_eq!(EthHeader::parse(&out).unwrap(), (h, 18));
}

#[test]
fn truncated_vlan_tag_is_error() {
    assert_eq!(EthHeader::parse(&FRAME_VLAN[..16]), Err(EthError::TooShort));
    assert_eq!(EthHeader::parse(&FRAME_NO_VLAN[..13]), Err(EthError::TooShort));
}
