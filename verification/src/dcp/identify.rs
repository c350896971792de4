//! DCP Identify: parse requests, build responses.
use vstd::prelude::*;
use vstd::slice::slice_to_vec;
use vstd::utf8::{decode_utf8, encode_utf8, valid_utf8};

use crate::dcp::block::{
    block_fits, blocks_encoded_len, blocks_view, encode_block, encode_blocks,
    lemma_blocks_fit_within, lemma_encode_blocks_append, parse_blocks, spec_parse_blocks,
    write_blocks, DcpBlock, DcpBlockView,
};
use crate::dcp::frame::{
    dcp_header_bytes, frame_id_value, DcpHeader, FrameId, ServiceId, ServiceType,
};
use crate::dcp::DcpError;
use crate::eth::header::eth_header_bytes;
use crate::eth::{EthHeader, EthHeaderView, MacAddr, ETHERTYPE_PROFINET};
use crate::wire::{be16, push_be16, push_bytes};

verus! {

/// Reason given when a NameOfStation filter is not valid UTF-8.
pub const MSG_NAME_NOT_UTF8: &'static str = "NameOfStation not UTF-8";

#[verifier::external_type_specification]
#[verifier::external_body]
pub struct ExUtf8Error(core::str::Utf8Error);

/// Calls `std::str::from_utf8`, which succeeds exactly on valid UTF-8 and then
/// borrows the bytes as a `str` holding the characters they encode.
#[verifier::external_body]
fn str_from_utf8(bytes: &[u8]) -> (r: Result<&str, core::str::Utf8Error>)
    ensures
        r is Ok <==> valid_utf8(bytes@),
        r matches Ok(s) ==> s@ == decode_utf8(bytes@),
{
    core::str::from_utf8(bytes)
}

/// Filter criteria extracted from an incoming Identify request.
#[derive(Debug, Clone, PartialEq, Eq, Default)]
pub struct IdentifyFilter {
    pub name_of_station: Option<String>,
    /// AllSelector block (option 0xff, suboption 0xff) present.
    pub all_selector: bool,
    /// Filter blocks present that are neither NameOfStation nor AllSelector.
    pub other_filters: Vec<(u8, u8)>,
}

/// Mathematical model of an [`IdentifyFilter`].
pub struct IdentifyFilterView {
    pub name_of_station: Option<Seq<char>>,
    pub all_selector: bool,
    pub other_filters: Seq<(u8, u8)>,
}

impl View for IdentifyFilter {
    type V = IdentifyFilterView;

    open spec fn view(&self) -> IdentifyFilterView {
        IdentifyFilterView {
            name_of_station: match self.name_of_station {
                Some(s) => Some(s@),
                None => None,
            },
            all_selector: self.all_selector,
            other_filters: self.other_filters@,
        }
    }
}

/// The filter of a request without filter blocks.
pub open spec fn empty_filter() -> IdentifyFilterView {
    IdentifyFilterView { name_of_station: None, all_selector: false, other_filters: Seq::empty() }
}

/// Accounts for one more filter block: a NameOfStation block sets the name (the last
/// one wins), an AllSelector block sets the flag, any other block is recorded.
pub open spec fn filter_step(f: IdentifyFilterView, b: DcpBlockView) -> Result<
    IdentifyFilterView,
    DcpError,
> {
    if b.option == 2 && b.suboption == 2 {
        if valid_utf8(b.value) {
            Ok(IdentifyFilterView { name_of_station: Some(decode_utf8(b.value)), ..f })
        } else {
            Err(DcpError::Malformed(MSG_NAME_NOT_UTF8))
        }
    } else if b.option == 0xff && b.suboption == 0xff {
        Ok(IdentifyFilterView { all_selector: true, ..f })
    } else {
        Ok(IdentifyFilterView { other_filters: f.other_filters.push((b.option, b.suboption)), ..f })
    }
}

/// The filter described by a sequence of filter blocks, taken in order.
pub open spec fn filter_of(bs: Seq<DcpBlockView>) -> Result<IdentifyFilterView, DcpError>
    decreases bs.len(),
{
    if bs.len() == 0 {
        Ok(empty_filter())
    } else {
        match filter_of(bs.drop_last()) {
            Ok(f) => filter_step(f, bs.last()),
            Err(e) => Err(e),
        }
    }
}

/// What parsing the block bytes of an Identify request gives.
pub open spec fn spec_parse_identify_request(block_bytes: Seq<u8>) -> Result<
    IdentifyFilterView,
    DcpError,
> {
    match spec_parse_blocks(block_bytes, false) {
        Ok(bs) => filter_of(bs),
        Err(e) => Err(e),
    }
}

/// Once a prefix of the filter blocks is rejected, the whole sequence is rejected
/// with the same error.
proof fn lemma_filter_err_persists(bs: Seq<DcpBlockView>, j: int)
    requires
        0 <= j <= bs.len(),
        filter_of(bs.take(j)) is Err,
    ensures
        filter_of(bs) == filter_of(bs.take(j)),
    decreases bs.len(),
{
    if j == bs.len() {
        assert(bs.take(j) =~= bs);
    } else {
        let shorter = bs.drop_last();
        assert(shorter.take(j) =~= bs.take(j));
        lemma_filter_err_persists(shorter, j);
    }
}

/// Parse the block bytes of an Identify request (filter blocks, no BlockInfo).
pub fn parse_identify_request(block_bytes: &[u8]) -> (r: Result<IdentifyFilter, DcpError>)
    requires
        block_bytes@.len() <= isize::MAX,
    ensures
        match r {
            Ok(f) => spec_parse_identify_request(block_bytes@) == Ok::<_, DcpError>(f@),
            Err(e) => spec_parse_identify_request(block_bytes@) == Err::<IdentifyFilterView, _>(e),
        },
{
    let blocks = parse_blocks(block_bytes, false)?;
    let ghost bv = blocks_view(blocks@);
    let mut filter = IdentifyFilter {
        name_of_station: None,
        all_selector: false,
        other_filters: Vec::new(),
    };
    assert(filter@.other_filters =~= Seq::<(u8, u8)>::empty());
    assert(bv.take(0) =~= Seq::<DcpBlockView>::empty());
    let mut i: usize = 0;
    while i < blocks.len()
        invariant
            i <= blocks@.len(),
            bv == blocks_view(blocks@),
            spec_parse_blocks(block_bytes@, false) == Ok::<_, DcpError>(bv),
            filter_of(bv.take(i as int)) == Ok::<_, DcpError>(filter@),
        decreases blocks@.len() - i,
    {
        let b = &blocks[i];
        assert(bv[i as int] == b@);
        assert(bv.take(i + 1).drop_last() =~= bv.take(i as int));
        assert(bv.take(i + 1).last() == b@);
        if b.option == 2 && b.suboption == 2 {
            match str_from_utf8(b.value.as_slice()) {
                Ok(name) => {
                    filter.name_of_station = Some(name.to_owned());
                },
                Err(_) => {
                    proof {
                        assert(!valid_utf8(b.value@));
                        assert(filter_step(filter@, b@) == Err::<IdentifyFilterView, _>(
                            DcpError::Malformed(MSG_NAME_NOT_UTF8),
                        ));
                        assert(filter_of(bv.take(i + 1)) == filter_step(filter@, b@));
                        lemma_filter_err_persists(bv, i + 1);
                    }
                    return Err(DcpError::Malformed(MSG_NAME_NOT_UTF8));
                },
            }
        } else if b.option == 0xff && b.suboption == 0xff {
            filter.all_selector = true;
        } else {
            filter.other_filters.push((b.option, b.suboption));
        }
        i = i + 1;
    }
    assert(bv.take(i as int) =~= bv);
    Ok(filter)
}

/// Static device identity advertised in Identify responses.
#[derive(Debug, Clone, PartialEq, Eq)]
pub struct DeviceProperties {
    pub name_of_station: String,
    pub type_of_station: String,
    pub vendor_id: u16,
    pub device_id: u16,
    pub device_role: u16,
    pub device_instance: u16,
    pub device_options: Vec<u8>,
    pub ip: [u8; 4],
    pub subnet: [u8; 4],
    pub gateway: [u8; 4],
    pub ip_block_info: u16,
}

/// Mathematical model of [`DeviceProperties`].
pub struct DevicePropertiesView {
    pub name_of_station: Seq<char>,
    pub type_of_station: Seq<char>,
    pub vendor_id: u16,
    pub device_id: u16,
    pub device_role: u16,
    pub device_instance: u16,
    pub device_options: Seq<u8>,
    pub ip: Seq<u8>,
    pub subnet: Seq<u8>,
    pub gateway: Seq<u8>,
    pub ip_block_info: u16,
}

impl View for DeviceProperties {
    type V = DevicePropertiesView;

    open spec fn view(&self) -> DevicePropertiesView {
        DevicePropertiesView {
            name_of_station: self.name_of_station@,
            type_of_station: self.type_of_station@,
            vendor_id: self.vendor_id,
            device_id: self.device_id,
            device_role: self.device_role,
            device_instance: self.device_instance,
            device_options: self.device_options@,
            ip: self.ip@,
            subnet: self.subnet@,
            gateway: self.gateway@,
            ip_block_info: self.ip_block_info,
        }
    }
}

/// A block carrying BlockInfo 0.
pub open spec fn info0_block(option: u8, suboption: u8, value: Seq<u8>) -> DcpBlockView {
    DcpBlockView { option, suboption, block_info: Some(0u16), value }
}

/// The seven blocks of an Identify response, in wire order: NameOfStation,
/// DeviceOptions, TypeOfStation, DeviceID (vendor, device), DeviceRole,
/// DeviceInstance, IPParameter (ip, subnet, gateway).
pub open spec fn identify_response_blocks(p: DevicePropertiesView) -> Seq<DcpBlockView> {
    seq![
        info0_block(2, 2, encode_utf8(p.name_of_station)),
        info0_block(2, 5, p.device_options),
        info0_block(2, 1, encode_utf8(p.type_of_station)),
        info0_block(2, 3, be16(p.vendor_id) + be16(p.device_id)),
        info0_block(2, 4, be16(p.device_role)),
        info0_block(2, 7, be16(p.device_instance)),
        DcpBlockView {
            option: 1,
            suboption: 2,
            block_info: Some(p.ip_block_info),
            value: p.ip + p.subnet + p.gateway,
        },
    ]
}

/// Device properties whose Identify response blocks fit the 16-bit DCPDataLength.
pub open spec fn identify_response_fits(p: DevicePropertiesView) -> bool {
    encode_blocks(identify_response_blocks(p)).len() <= u16::MAX
}

/// The DCP header of an Identify response carrying `xid`.
pub open spec fn identify_response_header(xid: u32, p: DevicePropertiesView) -> DcpHeader {
    DcpHeader {
        service_id: ServiceId::Identify,
        service_type: ServiceType::ResponseSuccess,
        xid,
        response_delay: 0,
        data_length: encode_blocks(identify_response_blocks(p)).len() as u16,
    }
}

/// The full Ethernet frame of an Identify response from `src` to `dst`.
pub open spec fn identify_response_frame(
    dst: Seq<u8>,
    src: Seq<u8>,
    xid: u32,
    p: DevicePropertiesView,
) -> Seq<u8> {
    eth_header_bytes(EthHeaderView { dst, src, vlan: None, ethertype: ETHERTYPE_PROFINET })
        + be16(frame_id_value(FrameId::IdentifyResponse)) + dcp_header_bytes(
        identify_response_header(xid, p),
    ) + encode_blocks(identify_response_blocks(p))
}

/// A block with BlockInfo 0.
fn info0(option: u8, suboption: u8, value: Vec<u8>) -> (b: DcpBlock)
    ensures
        b@ == info0_block(option, suboption, value@),
{
    DcpBlock { option, suboption, block_info: Some(0), value }
}

/// The big-endian encoding of `v` as a new vector.
fn be16_vec(v: u16) -> (r: Vec<u8>)
    ensures
        r@ == be16(v),
{
    let mut r = Vec::new();
    push_be16(&mut r, v);
    assert(r@ =~= be16(v));
    r
}

/// Build the full Ethernet frame of an Identify response for the given device.
pub fn build_identify_response(dst: MacAddr, src: MacAddr, xid: u32, props: &DeviceProperties) -> (r:
    Vec<u8>)
    requires
        identify_response_fits(props@),
    ensures
        r@ == identify_response_frame(dst.0@, src.0@, xid, props@),
{
    let mut device_id_val = Vec::new();
    push_be16(&mut device_id_val, props.vendor_id);
    push_be16(&mut device_id_val, props.device_id);

    let mut ip_val = Vec::new();
    push_bytes(&mut ip_val, props.ip.as_slice());
    push_bytes(&mut ip_val, props.subnet.as_slice());
    push_bytes(&mut ip_val, props.gateway.as_slice());

    let mut blocks: Vec<DcpBlock> = Vec::new();
    blocks.push(info0(2, 2, slice_to_vec(props.name_of_station.as_str().as_bytes())));
    blocks.push(info0(2, 5, slice_to_vec(props.device_options.as_slice())));
    blocks.push(info0(2, 1, slice_to_vec(props.type_of_station.as_str().as_bytes())));
    blocks.push(info0(2, 3, device_id_val));
    blocks.push(info0(2, 4, be16_vec(props.device_role)));
    blocks.push(info0(2, 7, be16_vec(props.device_instance)));
    blocks.push(
        DcpBlock { option: 1, suboption: 2, block_info: Some(props.ip_block_info), value: ip_val },
    );
    let ghost spec_blocks = identify_response_blocks(props@);
    assert(blocks_view(blocks@) =~= spec_blocks);

    let header = DcpHeader {
        service_id: ServiceId::Identify,
        service_type: ServiceType::ResponseSuccess,
        xid,
        response_delay: 0,
        data_length: blocks_encoded_len(blocks.as_slice()),
    };
    assert(header == identify_response_header(xid, props@));

    let mut out = Vec::new();
    EthHeader { dst, src, vlan: None, ethertype: ETHERTYPE_PROFINET }.write(&mut out);
    push_be16(&mut out, FrameId::IdentifyResponse.to_u16());
    header.write(&mut out);
    proof {
        assert forall|i: int| 0 <= i < blocks@.len() implies block_fits(#[trigger] blocks@[i]@) by {
            assert(blocks@[i]@ == spec_blocks[i]);
            lemma_blocks_fit_within(spec_blocks, i);
        }
    }
    write_blocks(blocks.as_slice(), &mut out);
    assert(out@ =~= identify_response_frame(dst.0@, src.0@, xid, props@));
    out
}

/// Law: an Identify response ends with the IPParameter block: option 1, suboption
/// 2, DCPBlockLength 14, the device's IP BlockInfo (big-endian), then its IP
/// address, subnet mask and gateway, in that order, as the frame's last 12 bytes.
pub proof fn lemma_identify_response_ip_block(
    dst: Seq<u8>,
    src: Seq<u8>,
    xid: u32,
    p: DevicePropertiesView,
)
    requires
        p.ip.len() == 4,
        p.subnet.len() == 4,
        p.gateway.len() == 4,
    ensures
        ({
            let r = identify_response_frame(dst, src, xid, p);
            let n = r.len() as int;
            &&& n >= 18
            &&& r.subrange(n - 18, n - 14) == seq![1u8, 2u8, 0u8, 14u8]
            &&& r[n - 14] == (p.ip_block_info / 256) as u8
            &&& r[n - 13] == (p.ip_block_info % 256) as u8
            &&& r.subrange(n - 12, n - 8) == p.ip
            &&& r.subrange(n - 8, n - 4) == p.subnet
            &&& r.subrange(n - 4, n) == p.gateway
        }),
{
    let bs = identify_response_blocks(p);
    let first = bs.take(6);
    let ipb = bs[6];
    assert(bs =~= first + seq![ipb]);
    lemma_encode_blocks_append(first, seq![ipb]);
    assert(seq![ipb].drop_first() =~= Seq::<DcpBlockView>::empty());
    assert(seq![ipb][0] == ipb);
    assert(encode_blocks(seq![ipb].drop_first()) == Seq::<u8>::empty());
    assert(encode_blocks(seq![ipb]) =~= encode_block(ipb) + Seq::<u8>::empty());
    assert(encode_blocks(seq![ipb]) =~= encode_block(ipb));
    let e = encode_block(ipb);
    assert(e =~= seq![1u8, 2u8, 0u8, 14u8] + be16(p.ip_block_info) + p.ip + p.subnet + p.gateway);
    let r = identify_response_frame(dst, src, xid, p);
    let pre = eth_header_bytes(EthHeaderView { dst, src, vlan: None, ethertype: ETHERTYPE_PROFINET })
        + be16(frame_id_value(FrameId::IdentifyResponse)) + dcp_header_bytes(
        identify_response_header(xid, p),
    ) + encode_blocks(first);
    assert(r =~= pre + e);
    let n = r.len() as int;
    assert(r.subrange(n - 18, n - 14) =~= seq![1u8, 2u8, 0u8, 14u8]);
    assert(r[n - 14] == e[4]);
    assert(r[n - 13] == e[5]);
    assert(r.subrange(n - 12, n - 8) =~= p.ip);
    assert(r.subrange(n - 8, n - 4) =~= p.subnet);
    assert(r.subrange(n - 4, n) =~= p.gateway);
}

/// A filter block that is neither NameOfStation (2, 2) nor AllSelector
/// (0xff, 0xff).
pub open spec fn other_filter_block() -> spec_fn(DcpBlockView) -> bool {
    |b: DcpBlockView| !(b.option == 2 && b.suboption == 2) && !(b.option == 0xff && b.suboption
        == 0xff)
}

/// The (option, suboption) pair of a block.
pub open spec fn block_ids() -> spec_fn(DcpBlockView) -> (u8, u8) {
    |b: DcpBlockView| (b.option, b.suboption)
}

/// Law: in the filter read from Identify request blocks, only NameOfStation blocks
/// (option 2, suboption 2) give the name of station, which is the text of the
/// last such block; the AllSelector flag is set exactly when an (0xff, 0xff) block
/// is present; and every other block is recorded, in order, as its (option,
/// suboption) pair.
pub proof fn lemma_filter_fields(bs: Seq<DcpBlockView>)
    requires
        filter_of(bs) is Ok,
    ensures
        ({
            let f = filter_of(bs)->Ok_0;
            &&& (f.name_of_station is Some) == (exists|i: int|
                0 <= i < bs.len() && #[trigger] bs[i].option == 2 && bs[i].suboption == 2)
            &&& f.name_of_station matches Some(n) ==> exists|i: int|
                0 <= i < bs.len() && #[trigger] bs[i].option == 2 && bs[i].suboption == 2
                    && decode_utf8(bs[i].value) == n && forall|j: int|
                    i < j < bs.len() ==> !(#[trigger] bs[j].option == 2 && bs[j].suboption == 2)
            &&& f.all_selector == (exists|i: int|
                0 <= i < bs.len() && #[trigger] bs[i].option == 0xff && bs[i].suboption == 0xff)
            &&& f.other_filters == bs.filter(other_filter_block()).map_values(block_ids())
        }),
    decreases bs.len(),
{
    if bs.len() == 0 {
        reveal(Seq::filter);
        assert(bs.filter(other_filter_block()).map_values(block_ids()) =~= Seq::<(u8, u8)>::empty());
    } else {
        let s = bs.drop_last();
        let b = bs.last();
        assert(filter_of(s) is Ok);
        lemma_filter_fields(s);
        let f0 = filter_of(s)->Ok_0;
        let f = filter_of(bs)->Ok_0;
        assert(f == filter_step(f0, b)->Ok_0);
        assert(bs =~= s.push(b));
        s.lemma_filter_push(b, other_filter_block());
        let fs = s.filter(other_filter_block());
        if other_filter_block()(b) {
            assert(fs.push(b).map_values(block_ids()) =~= fs.map_values(block_ids()).push(
                block_ids()(b),
            ));
        }
        let last = bs.len() - 1;
        assert(bs[last] == b);
        assert forall|i: int| 0 <= i < s.len() implies #[trigger] bs[i] == s[i] by {}
        if b.option == 2 && b.suboption == 2 {
            assert(bs[last].option == 2 && bs[last].suboption == 2);
        } else {
            if f0.name_of_station is Some {
                let n = f0.name_of_station->Some_0;
                let i = choose|i: int|
                    0 <= i < s.len() && #[trigger] s[i].option == 2 && s[i].suboption == 2
                        && decode_utf8(s[i].value) == n && forall|j: int|
                        i < j < s.len() ==> !(#[trigger] s[j].option == 2 && s[j].suboption == 2);
                assert(bs[i] == s[i]);
                assert forall|j: int| i < j < bs.len() implies !(#[trigger] bs[j].option == 2
                    && bs[j].suboption == 2) by {
                    if j < s.len() {
                        assert(bs[j] == s[j]);
                    }
                }
            }
            if exists|i: int| 0 <= i < bs.len() && #[trigger] bs[i].option == 2 && bs[i].suboption == 2 {
                let i = choose|i: int|
                    0 <= i < bs.len() && #[trigger] bs[i].option == 2 && bs[i].suboption == 2;
                assert(s[i].option == 2 && s[i].suboption == 2);
            }
        }
        if b.option == 0xff && b.suboption == 0xff {
            assert(bs[last].option == 0xff && bs[last].suboption == 0xff);
        } else if exists|i: int|
            0 <= i < bs.len() && #[trigger] bs[i].option == 0xff && bs[i].suboption == 0xff {
            let i = choose|i: int|
                0 <= i < bs.len() && #[trigger] bs[i].option == 0xff && bs[i].suboption == 0xff;
            assert(s[i].option == 0xff && s[i].suboption == 0xff);
        }
    }
}

} // verus!
