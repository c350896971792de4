//! DCP frame ID and acyclic header.
use vstd::prelude::*;
use vstd::slice::slice_subrange;

use crate::dcp::DcpError;
use crate::eth::MacAddr;
use crate::wire::{
    be16, be16_at, be32, be32_at, lemma_be16_roundtrip, lemma_be32_roundtrip, push_be16,
    push_be32, read_be16, read_be32,
};

verus! {

/// Multicast destination for DCP Identify requests (01:0e:cf:00:00:00).
pub fn dcp_multicast_mac() -> (m: MacAddr)
    ensures
        m.0@ == seq![0x01u8, 0x0e, 0xcf, 0x00, 0x00, 0x00],
{
    let m = MacAddr([0x01, 0x0e, 0xcf, 0x00, 0x00, 0x00]);
    assert(m.0@ =~= seq![0x01u8, 0x0e, 0xcf, 0x00, 0x00, 0x00]);
    m
}

/// PROFINET RT FrameID values used by DCP.
#[derive(Debug, Clone, Copy, PartialEq, Eq)]
pub enum FrameId {
    IdentifyRequest,
    IdentifyResponse,
    GetSet,
    Hello,
}

/// Wire value of a FrameID.
pub open spec fn frame_id_value(f: FrameId) -> u16 {
    match f {
        FrameId::IdentifyRequest => 0xfefe,
        FrameId::IdentifyResponse => 0xfeff,
        FrameId::GetSet => 0xfefd,
        FrameId::Hello => 0xfefc,
    }
}

/// The DCP FrameID with wire value `v`, if any.
pub open spec fn frame_id_of(v: u16) -> Option<FrameId> {
    if v == 0xfefe {
        Some(FrameId::IdentifyRequest)
    } else if v == 0xfeff {
        Some(FrameId::IdentifyResponse)
    } else if v == 0xfefd {
        Some(FrameId::GetSet)
    } else if v == 0xfefc {
        Some(FrameId::Hello)
    } else {
        None
    }
}

impl FrameId {
    pub fn from_u16(v: u16) -> (r: Option<FrameId>)
        ensures
            r == frame_id_of(v),
    {
        match v {
            0xfefe => Some(FrameId::IdentifyRequest),
            0xfeff => Some(FrameId::IdentifyResponse),
            0xfefd => Some(FrameId::GetSet),
            0xfefc => Some(FrameId::Hello),
            _ => None,
        }
    }

    pub fn to_u16(self) -> (v: u16)
        ensures
            v == frame_id_value(self),
    {
        match self {
            FrameId::IdentifyRequest => 0xfefe,
            FrameId::IdentifyResponse => 0xfeff,
            FrameId::GetSet => 0xfefd,
            FrameId::Hello => 0xfefc,
        }
    }
}

/// Law: each FrameID's wire value decodes back to it, and only DCP FrameIDs decode.
pub proof fn lemma_frame_id_roundtrip(f: FrameId, v: u16)
    ensures
        frame_id_of(frame_id_value(f)) == Some(f),
        frame_id_of(v) matches Some(g) ==> frame_id_value(g) == v,
{
}

/// DCP service identifiers.
#[derive(Debug, Clone, Copy, PartialEq, Eq)]
pub enum ServiceId {
    Get,
    /// The DCP Set service.
    SetParams,
    Identify,
    Hello,
}

/// Wire value of a ServiceID.
pub open spec fn service_id_value(s: ServiceId) -> u8 {
    match s {
        ServiceId::Get => 3,
        ServiceId::SetParams => 4,
        ServiceId::Identify => 5,
        ServiceId::Hello => 6,
    }
}

/// The ServiceID with wire value `v`, or the error for an unknown one.
pub open spec fn service_id_of(v: u8) -> Result<ServiceId, DcpError> {
    if v == 3 {
        Ok(ServiceId::Get)
    } else if v == 4 {
        Ok(ServiceId::SetParams)
    } else if v == 5 {
        Ok(ServiceId::Identify)
    } else if v == 6 {
        Ok(ServiceId::Hello)
    } else {
        Err(DcpError::BadServiceId(v))
    }
}

impl ServiceId {
    pub fn from_u8(v: u8) -> (r: Result<ServiceId, DcpError>)
        ensures
            r == service_id_of(v),
    {
        match v {
            3 => Ok(ServiceId::Get),
            4 => Ok(ServiceId::SetParams),
            5 => Ok(ServiceId::Identify),
            6 => Ok(ServiceId::Hello),
            other => Err(DcpError::BadServiceId(other)),
        }
    }

    pub fn to_u8(self) -> (v: u8)
        ensures
            v == service_id_value(self),
    {
        match self {
            ServiceId::Get => 3,
            ServiceId::SetParams => 4,
            ServiceId::Identify => 5,
            ServiceId::Hello => 6,
        }
    }
}

/// DCP service types.
#[derive(Debug, Clone, Copy, PartialEq, Eq)]
pub enum ServiceType {
    Request,
    ResponseSuccess,
}

/// Wire value of a ServiceType.
pub open spec fn service_type_value(s: ServiceType) -> u8 {
    match s {
        ServiceType::Request => 0,
        ServiceType::ResponseSuccess => 1,
    }
}

/// The ServiceType with wire value `v`, or the error for an unknown one.
pub open spec fn service_type_of(v: u8) -> Result<ServiceType, DcpError> {
    if v == 0 {
        Ok(ServiceType::Request)
    } else if v == 1 {
        Ok(ServiceType::ResponseSuccess)
    } else {
        Err(DcpError::BadServiceType(v))
    }
}

impl ServiceType {
    pub fn from_u8(v: u8) -> (r: Result<ServiceType, DcpError>)
        ensures
            r == service_type_of(v),
    {
        match v {
            0 => Ok(ServiceType::Request),
            1 => Ok(ServiceType::ResponseSuccess),
            other => Err(DcpError::BadServiceType(other)),
        }
    }

    pub fn to_u8(self) -> (v: u8)
        ensures
            v == service_type_value(self),
    {
        match self {
            ServiceType::Request => 0,
            ServiceType::ResponseSuccess => 1,
        }
    }
}

/// Law: each ServiceID and ServiceType value decodes back to itself.
pub proof fn lemma_service_roundtrip(id: ServiceId, ty: ServiceType)
    ensures
        service_id_of(service_id_value(id)) == Ok::<_, DcpError>(id),
        service_type_of(service_type_value(ty)) == Ok::<_, DcpError>(ty),
{
}

/// Law: the DCP services go on the wire as Get 3, Set 4, Identify 5 and Hello 6.
/// A written header starts with its service's value; a byte in 3..=6 reads back as
/// the service with that value, and any other byte is refused; a header whose
/// first byte is one of these values (with a valid service type and its blocks
/// present) parses as that service.
pub proof fn lemma_service_wire_values(id: ServiceId, v: u8, h: DcpHeader, buf: Seq<u8>)
    ensures
        service_id_value(id) == (match id {
            ServiceId::Get => 3u8,
            ServiceId::SetParams => 4u8,
            ServiceId::Identify => 5u8,
            ServiceId::Hello => 6u8,
        }),
        (service_id_of(v) is Ok) == (3 <= v <= 6),
        service_id_of(v) matches Ok(s) ==> (match s {
            ServiceId::Get => 3u8,
            ServiceId::SetParams => 4u8,
            ServiceId::Identify => 5u8,
            ServiceId::Hello => 6u8,
        }) == v,
        dcp_header_bytes(h)[0] == (match h.service_id {
            ServiceId::Get => 3u8,
            ServiceId::SetParams => 4u8,
            ServiceId::Identify => 5u8,
            ServiceId::Hello => 6u8,
        }),
        spec_parse_dcp_header(buf) matches Ok((g, _)) ==> buf[0] == (match g.service_id {
            ServiceId::Get => 3u8,
            ServiceId::SetParams => 4u8,
            ServiceId::Identify => 5u8,
            ServiceId::Hello => 6u8,
        }),
        buf.len() >= 10 && 3 <= buf[0] <= 6 && buf[1] <= 1 && 10 + be16_at(buf, 8) <= buf.len()
            ==> (spec_parse_dcp_header(buf) matches Ok((g, _)) && (match g.service_id {
            ServiceId::Get => 3u8,
            ServiceId::SetParams => 4u8,
            ServiceId::Identify => 5u8,
            ServiceId::Hello => 6u8,
        }) == buf[0]),
{
}

/// The 10-byte DCP acyclic header that follows the FrameID.
#[derive(Debug, Clone, Copy, PartialEq, Eq)]
pub struct DcpHeader {
    pub service_id: ServiceId,
    pub service_type: ServiceType,
    pub xid: u32,
    pub response_delay: u16,
    pub data_length: u16,
}

/// Wire encoding of a DCP header.
pub open spec fn dcp_header_bytes(h: DcpHeader) -> Seq<u8> {
    seq![service_id_value(h.service_id), service_type_value(h.service_type)] + be32(h.xid) + be16(
        h.response_delay,
    ) + be16(h.data_length)
}

/// What parsing a DCP header at the start of `buf` gives: the header and the block
/// bytes, cut to `data_length`.
pub open spec fn spec_parse_dcp_header(buf: Seq<u8>) -> Result<(DcpHeader, Seq<u8>), DcpError> {
    if buf.len() < 10 {
        Err(DcpError::TooShort { need: 10, have: buf.len() as usize })
    } else {
        match service_id_of(buf[0]) {
            Err(e) => Err(e),
            Ok(service_id) => match service_type_of(buf[1]) {
                Err(e) => Err(e),
                Ok(service_type) => {
                    let h = DcpHeader {
                        service_id,
                        service_type,
                        xid: be32_at(buf, 2),
                        response_delay: be16_at(buf, 6),
                        data_length: be16_at(buf, 8),
                    };
                    let need = 10 + h.data_length as int;
                    if buf.len() < need {
                        Err(DcpError::TooShort { need: need as usize, have: buf.len() as usize })
                    } else {
                        Ok((h, buf.subrange(10, need)))
                    }
                },
            },
        }
    }
}

impl DcpHeader {
    /// Parse the header from bytes positioned just after the FrameID.
    /// Returns the header and the block bytes sliced to `data_length`.
    pub fn parse(buf: &[u8]) -> (r: Result<(DcpHeader, &[u8]), DcpError>)
        ensures
            match r {
                Ok((h, blocks)) => spec_parse_dcp_header(buf@) == Ok::<_, DcpError>((h, blocks@)),
                Err(e) => spec_parse_dcp_header(buf@) == Err::<(DcpHeader, Seq<u8>), _>(e),
            },
    {
        if buf.len() < 10 {
            return Err(DcpError::TooShort { need: 10, have: buf.len() });
        }
        let service_id = ServiceId::from_u8(buf[0])?;
        let service_type = ServiceType::from_u8(buf[1])?;
        let header = DcpHeader {
            service_id,
            service_type,
            xid: read_be32(buf, 2),
            response_delay: read_be16(buf, 6),
            data_length: read_be16(buf, 8),
        };
        let need = 10 + header.data_length as usize;
        if buf.len() < need {
            return Err(DcpError::TooShort { need, have: buf.len() });
        }
        Ok((header, slice_subrange(buf, 10, need)))
    }

    pub fn write(&self, out: &mut Vec<u8>)
        ensures
            final(out)@ == old(out)@ + dcp_header_bytes(*self),
    {
        let ghost start = out@;
        out.push(self.service_id.to_u8());
        out.push(self.service_type.to_u8());
        push_be32(out, self.xid);
        push_be16(out, self.response_delay);
        push_be16(out, self.data_length);
        assert(out@ =~= start + dcp_header_bytes(*self));
    }
}

/// Law: parsing the encoding of a header followed by exactly `data_length` block
/// bytes (and anything after) gives the header and those block bytes back.
pub proof fn lemma_dcp_header_roundtrip(h: DcpHeader, blocks: Seq<u8>, trailer: Seq<u8>)
    requires
        blocks.len() == h.data_length,
    ensures
        spec_parse_dcp_header(dcp_header_bytes(h) + blocks + trailer) == Ok::<_, DcpError>(
            (h, blocks),
        ),
{
    let buf = dcp_header_bytes(h) + blocks + trailer;
    lemma_be32_roundtrip(h.xid);
    lemma_be16_roundtrip(h.response_delay);
    lemma_be16_roundtrip(h.data_length);
    assert(buf[2] == be32(h.xid)[0]);
    assert(buf[3] == be32(h.xid)[1]);
    assert(buf[4] == be32(h.xid)[2]);
    assert(buf[5] == be32(h.xid)[3]);
    assert(buf[6] == be16(h.response_delay)[0]);
    assert(buf[7] == be16(h.response_delay)[1]);
    assert(buf[8] == be16(h.data_length)[0]);
    assert(buf[9] == be16(h.data_length)[1]);
    assert(buf.subrange(10, 10 + h.data_length as int) =~= blocks);
}

} // verus!
