//! PROFINET DCP (Discovery & Configuration Protocol), device side.
use vstd::prelude::*;
use vstd::slice::slice_subrange;
use vstd::utf8::{encode_utf8, encode_utf8_decode_utf8, encode_utf8_valid_utf8};

pub mod block;
pub mod frame;
pub mod identify;

pub use block::{blocks_encoded_len, parse_blocks, write_blocks, DcpBlock};
pub use frame::{dcp_multicast_mac, DcpHeader, FrameId, ServiceId, ServiceType};
pub use identify::{
    build_identify_response, parse_identify_request, DeviceProperties, IdentifyFilter,
};

use crate::dcp::block::{
    block_fits, blocks_wf, encode_blocks, lemma_blocks_fit_within, lemma_blocks_roundtrip,
    spec_parse_blocks, DcpBlockView,
};
use crate::dcp::frame::{
    dcp_header_bytes, frame_id_of, frame_id_value, lemma_dcp_header_roundtrip,
    spec_parse_dcp_header,
};
use crate::dcp::identify::{
    filter_of, identify_response_blocks, identify_response_fits, identify_response_frame,
    identify_response_header, spec_parse_identify_request, DevicePropertiesView,
    IdentifyFilterView,
};
use crate::eth::header::{eth_header_bytes, lemma_eth_header_roundtrip, spec_parse_eth};
use crate::eth::{EthHeader, EthHeaderView, MacAddr, ETHERTYPE_PROFINET};
use crate::wire::{be16, be16_at, lemma_be16_roundtrip, read_be16};

verus! {

/// Errors from parsing/serializing DCP frames.
#[derive(Debug, Clone, Copy, PartialEq, Eq)]
pub enum DcpError {
    TooShort { need: usize, have: usize },
    BadServiceId(u8),
    BadServiceType(u8),
    Malformed(&'static str),
}

/// Reason given when a block is too short to hold its BlockInfo.
pub const MSG_SHORT_BLOCK_INFO: &'static str = "block too short for BlockInfo";

/// Reason given when a frame does not start with a complete Ethernet header.
pub const MSG_BAD_ETH: &'static str = "bad Ethernet header";

/// Identity + address this device answers DCP for.
#[derive(Debug, Clone)]
pub struct DeviceConfig {
    pub mac: MacAddr,
    pub properties: DeviceProperties,
}

/// Mathematical model of a [`DeviceConfig`].
pub struct DeviceConfigView {
    pub mac: Seq<u8>,
    pub properties: DevicePropertiesView,
}

impl View for DeviceConfig {
    type V = DeviceConfigView;

    open spec fn view(&self) -> DeviceConfigView {
        DeviceConfigView { mac: self.mac.0@, properties: self.properties@ }
    }
}

/// Whether a device named `name` answers an Identify request with filter `f`: only on
/// a confirmable full match, i.e. a matching NameOfStation, or an explicit
/// AllSelector, and never when an unrecognized filter block is present.
pub open spec fn should_respond(f: IdentifyFilterView, name: Seq<char>) -> bool {
    if f.other_filters.len() > 0 {
        false
    } else {
        match f.name_of_station {
            Some(n) => n == name,
            None => f.all_selector,
        }
    }
}

/// What handling one received Ethernet frame gives: the response frame to send,
/// `None` when the frame is not a DCP Identify request this device should answer,
/// or the error that made the frame unreadable.
pub open spec fn spec_handle_dcp_frame(frame: Seq<u8>, cfg: DeviceConfigView) -> Result<
    Option<Seq<u8>>,
    DcpError,
> {
    match spec_parse_eth(frame) {
        Err(_) => Err(DcpError::Malformed(MSG_BAD_ETH)),
        Ok((eth, off)) => {
            if eth.ethertype != ETHERTYPE_PROFINET {
                Ok(None)
            } else if frame.len() - off < 2 {
                Err(DcpError::TooShort { need: (off + 2) as usize, have: frame.len() as usize })
            } else if frame_id_of(be16_at(frame, off)) != Some(FrameId::IdentifyRequest) {
                Ok(None)
            } else {
                match spec_parse_dcp_header(frame.skip(off + 2)) {
                    Err(e) => Err(e),
                    Ok((h, blocks)) => match spec_parse_identify_request(blocks) {
                        Err(e) => Err(e),
                        Ok(f) => if should_respond(f, cfg.properties.name_of_station) {
                            Ok(
                                Some(
                                    identify_response_frame(eth.src, cfg.mac, h.xid, cfg.properties),
                                ),
                            )
                        } else {
                            Ok(None)
                        },
                    },
                }
            }
        },
    }
}

/// Handle one received Ethernet frame. Returns the response frame to send, or
/// `None` if the frame is not a DCP request this device should answer.
///
/// When a response is due, the device properties must fit a DCP response (their
/// encoded blocks at most 65535 bytes long).
pub fn handle_dcp_frame(frame: &[u8], cfg: &DeviceConfig) -> (r: Result<Option<Vec<u8>>, DcpError>)
    requires
        frame@.len() <= isize::MAX,
        spec_handle_dcp_frame(frame@, cfg@) matches Ok(Some(_)) ==> identify_response_fits(
            cfg.properties@,
        ),
    ensures
        match r {
            Ok(Some(resp)) => spec_handle_dcp_frame(frame@, cfg@) == Ok::<_, DcpError>(
                Some(resp@),
            ),
            Ok(None) => spec_handle_dcp_frame(frame@, cfg@) == Ok::<Option<Seq<u8>>, DcpError>(
                None,
            ),
            Err(e) => spec_handle_dcp_frame(frame@, cfg@) == Err::<Option<Seq<u8>>, _>(e),
        },
{
    let (eth, payload_off) = match EthHeader::parse(frame) {
        Ok(parsed) => parsed,
        Err(_) => {
            return Err(DcpError::Malformed(MSG_BAD_ETH));
        },
    };
    if eth.ethertype != ETHERTYPE_PROFINET {
        return Ok(None);
    }
    let payload = slice_subrange(frame, payload_off, frame.len());
    if payload.len() < 2 {
        return Err(DcpError::TooShort { need: payload_off + 2, have: frame.len() });
    }
    let frame_id = read_be16(payload, 0);
    assert(be16_at(payload@, 0) == be16_at(frame@, payload_off as int));
    match FrameId::from_u16(frame_id) {
        Some(FrameId::IdentifyRequest) => {
            let rest = slice_subrange(payload, 2, payload.len());
            assert(rest@ =~= frame@.skip(payload_off + 2));
            let (header, blocks) = DcpHeader::parse(rest)?;
            let filter = parse_identify_request(blocks)?;
            // Respond only on a confirmable full match: a matching NameOfStation,
            // or an explicit AllSelector. Any unrecognized filter block => stay silent
            // (we cannot confirm it matches this device).
            let respond = if filter.other_filters.len() > 0 {
                false
            } else {
                match &filter.name_of_station {
                    Some(name) => name.eq(&cfg.properties.name_of_station),
                    None => filter.all_selector,
                }
            };
            if respond {
                Ok(Some(build_identify_response(eth.src, cfg.mac, header.xid, &cfg.properties)))
            } else {
                Ok(None)
            }
        },
        _ => Ok(None),
    }
}

/// The Ethernet frame of a DCP Identify request from `src` to `dst` with DCP header
/// `h` and filter blocks `bs`.
pub open spec fn identify_request_frame(
    dst: Seq<u8>,
    src: Seq<u8>,
    h: DcpHeader,
    bs: Seq<DcpBlockView>,
) -> Seq<u8> {
    eth_header_bytes(EthHeaderView { dst, src, vlan: None, ethertype: ETHERTYPE_PROFINET }) + be16(
        frame_id_value(FrameId::IdentifyRequest),
    ) + dcp_header_bytes(h) + encode_blocks(bs)
}

/// Law: an Identify request (whatever trails it, such as the minimum-frame padding)
/// is answered with this device's Identify response, sent back to the requester and
/// echoing the request's Xid, exactly when its filter names this station or selects
/// all stations and holds no other filter; otherwise it gets no answer, and a
/// rejected filter is reported as that error.
pub proof fn lemma_identify_request_handled(
    dst: Seq<u8>,
    src: Seq<u8>,
    h: DcpHeader,
    bs: Seq<DcpBlockView>,
    padding: Seq<u8>,
    cfg: DeviceConfigView,
)
    requires
        dst.len() == 6,
        src.len() == 6,
        blocks_wf(bs, false),
        h.data_length == encode_blocks(bs).len(),
    ensures
        spec_handle_dcp_frame(identify_request_frame(dst, src, h, bs) + padding, cfg) == match filter_of(bs) {
            Ok(f) => Ok::<_, DcpError>(
                if should_respond(f, cfg.properties.name_of_station) {
                    Some(identify_response_frame(src, cfg.mac, h.xid, cfg.properties))
                } else {
                    None
                },
            ),
            Err(e) => Err(e),
        },
{
    let eh = EthHeaderView { dst, src, vlan: None, ethertype: ETHERTYPE_PROFINET };
    let fid = be16(frame_id_value(FrameId::IdentifyRequest));
    let blocks = encode_blocks(bs);
    let frame = identify_request_frame(dst, src, h, bs) + padding;
    let after_eth = fid + dcp_header_bytes(h) + blocks + padding;
    assert(frame =~= eth_header_bytes(eh) + after_eth);
    lemma_eth_header_roundtrip(eh, after_eth);
    assert(eth_header_bytes(eh).len() == 14);
    lemma_be16_roundtrip(frame_id_value(FrameId::IdentifyRequest));
    assert(frame[14] == fid[0]);
    assert(frame[15] == fid[1]);
    assert(frame.skip(16) =~= dcp_header_bytes(h) + blocks + padding);
    lemma_dcp_header_roundtrip(h, blocks, padding);
    lemma_blocks_roundtrip(bs, false);
}

/// Law: an Identify response reads back as what was built: an untagged PROFINET
/// header from `src` to `dst`, the Identify-response FrameID, a DCP Identify
/// response header carrying `xid`, and the device's seven property blocks.
pub proof fn lemma_identify_response_decodes(
    dst: Seq<u8>,
    src: Seq<u8>,
    xid: u32,
    p: DevicePropertiesView,
)
    requires
        dst.len() == 6,
        src.len() == 6,
        identify_response_fits(p),
    ensures
        ({
            let resp = identify_response_frame(dst, src, xid, p);
            let blocks = encode_blocks(identify_response_blocks(p));
            &&& spec_parse_eth(resp) == Ok::<_, crate::eth::EthError>(
                (EthHeaderView { dst, src, vlan: None, ethertype: ETHERTYPE_PROFINET }, 14int),
            )
            &&& be16_at(resp, 14) == frame_id_value(FrameId::IdentifyResponse)
            &&& spec_parse_dcp_header(resp.skip(16)) == Ok::<_, DcpError>(
                (identify_response_header(xid, p), blocks),
            )
            &&& spec_parse_blocks(blocks, true) == Ok::<_, DcpError>(identify_response_blocks(p))
        }),
{
    let eh = EthHeaderView { dst, src, vlan: None, ethertype: ETHERTYPE_PROFINET };
    let fid = be16(frame_id_value(FrameId::IdentifyResponse));
    let h = identify_response_header(xid, p);
    let bs = identify_response_blocks(p);
    let blocks = encode_blocks(bs);
    let resp = identify_response_frame(dst, src, xid, p);
    let after_eth = fid + dcp_header_bytes(h) + blocks;
    assert(resp =~= eth_header_bytes(eh) + after_eth);
    lemma_eth_header_roundtrip(eh, after_eth);
    lemma_be16_roundtrip(frame_id_value(FrameId::IdentifyResponse));
    assert(resp[14] == fid[0]);
    assert(resp[15] == fid[1]);
    assert(resp.skip(16) =~= dcp_header_bytes(h) + blocks + Seq::<u8>::empty());
    lemma_dcp_header_roundtrip(h, blocks, Seq::<u8>::empty());
    assert forall|i: int| 0 <= i < bs.len() implies block_fits(#[trigger] bs[i]) && (
    bs[i].block_info is Some) == true by {
        lemma_blocks_fit_within(bs, i);
    }
    lemma_blocks_roundtrip(bs, true);
}

/// Law: an Identify request whose only filter is a NameOfStation block naming `n`
/// is answered, with this device's Identify response echoing the request's Xid,
/// when `n` is exactly this device's name of station, and gets no answer for any
/// other name, whatever the lengths of the two names.
pub proof fn lemma_identify_by_name(
    dst: Seq<u8>,
    src: Seq<u8>,
    h: DcpHeader,
    n: Seq<char>,
    padding: Seq<u8>,
    cfg: DeviceConfigView,
)
    requires
        dst.len() == 6,
        src.len() == 6,
        encode_utf8(n).len() <= u16::MAX,
        h.data_length == encode_blocks(
            seq![DcpBlockView { option: 2, suboption: 2, block_info: None, value: encode_utf8(n) }],
        ).len(),
    ensures
        ({
            let bs = seq![
                DcpBlockView { option: 2, suboption: 2, block_info: None, value: encode_utf8(n) },
            ];
            let r = spec_handle_dcp_frame(identify_request_frame(dst, src, h, bs) + padding, cfg);
            &&& n != cfg.properties.name_of_station ==> r == Ok::<Option<Seq<u8>>, DcpError>(None)
            &&& n == cfg.properties.name_of_station ==> r == Ok::<Option<Seq<u8>>, DcpError>(
                Some(identify_response_frame(src, cfg.mac, h.xid, cfg.properties)),
            )
        }),
{
    let b = DcpBlockView { option: 2, suboption: 2, block_info: None, value: encode_utf8(n) };
    let bs = seq![b];
    assert(blocks_wf(bs, false)) by {
        assert forall|i: int| 0 <= i < bs.len() implies block_fits(#[trigger] bs[i]) && (
        bs[i].block_info is Some) == false by {
            assert(bs[i] == b);
        }
    }
    lemma_identify_request_handled(dst, src, h, bs, padding, cfg);
    encode_utf8_valid_utf8(n);
    encode_utf8_decode_utf8(n);
    assert(bs.drop_last() =~= Seq::<DcpBlockView>::empty());
    assert(bs.last() == b);
    assert(filter_of(bs.drop_last()) == Ok::<_, DcpError>(crate::dcp::identify::empty_filter()));
    let f = filter_of(bs)->Ok_0;
    assert(f.name_of_station == Some(n));
    assert(f.other_filters.len() == 0);
}

} // verus!
