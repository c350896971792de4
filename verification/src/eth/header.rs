//! Ethernet II header (optionally 802.1Q-tagged) codec.
use vstd::prelude::*;

use crate::wire::{be16, be16_at, lemma_be16_of_bytes, lemma_be16_roundtrip, push_be16, read_be16};

verus! {

/// EtherType of PROFINET RT frames.
pub const ETHERTYPE_PROFINET: u16 = 0x8892;

/// Tag protocol identifier of an 802.1Q VLAN tag.
pub const ETHERTYPE_VLAN: u16 = 0x8100;

/// A 48-bit MAC address.
#[derive(Debug, Clone, Copy, PartialEq, Eq)]
pub struct MacAddr(pub [u8; 6]);

/// An Ethernet II header, with the TCI of an optional VLAN tag.
#[derive(Debug, Clone, PartialEq, Eq)]
pub struct EthHeader {
    pub dst: MacAddr,
    pub src: MacAddr,
    pub vlan: Option<u16>,
    pub ethertype: u16,
}

/// Mathematical model of an [`EthHeader`]: addresses as byte sequences.
pub struct EthHeaderView {
    pub dst: Seq<u8>,
    pub src: Seq<u8>,
    pub vlan: Option<u16>,
    pub ethertype: u16,
}

impl View for EthHeader {
    type V = EthHeaderView;

    open spec fn view(&self) -> EthHeaderView {
        EthHeaderView {
            dst: self.dst.0@,
            src: self.src.0@,
            vlan: self.vlan,
            ethertype: self.ethertype,
        }
    }
}

/// Ethernet header errors.
#[derive(Debug, Clone, Copy, PartialEq, Eq)]
pub enum EthError {
    TooShort,
}

/// Wire encoding of a header: destination, source, optional VLAN tag (TPID and
/// TCI), EtherType.
pub open spec fn eth_header_bytes(h: EthHeaderView) -> Seq<u8> {
    h.dst + h.src + (match h.vlan {
        Some(tci) => be16(ETHERTYPE_VLAN) + be16(tci),
        None => Seq::<u8>::empty(),
    }) + be16(h.ethertype)
}

/// What parsing the start of `buf` gives: the header and the offset of the payload.
pub open spec fn spec_parse_eth(buf: Seq<u8>) -> Result<(EthHeaderView, int), EthError> {
    if buf.len() < 14 {
        Err(EthError::TooShort)
    } else if be16_at(buf, 12) == ETHERTYPE_VLAN {
        if buf.len() < 18 {
            Err(EthError::TooShort)
        } else {
            Ok(
                (
                    EthHeaderView {
                        dst: buf.subrange(0, 6),
                        src: buf.subrange(6, 12),
                        vlan: Some(be16_at(buf, 14)),
                        ethertype: be16_at(buf, 16),
                    },
                    18,
                ),
            )
        }
    } else {
        Ok(
            (
                EthHeaderView {
                    dst: buf.subrange(0, 6),
                    src: buf.subrange(6, 12),
                    vlan: None,
                    ethertype: be16_at(buf, 12),
                },
                14,
            ),
        )
    }
}

/// Copies the six bytes at `buf[i..i + 6]` into a MAC address.
fn mac_at(buf: &[u8], i: usize) -> (m: MacAddr)
    requires
        i + 6 <= buf@.len(),
    ensures
        m.0@ == buf@.subrange(i as int, i + 6),
{
    let m = MacAddr([buf[i], buf[i + 1], buf[i + 2], buf[i + 3], buf[i + 4], buf[i + 5]]);
    assert(m.0@ =~= buf@.subrange(i as int, i + 6));
    m
}

impl EthHeader {
    /// Parses the L2 header; returns (header, payload offset).
    pub fn parse(buf: &[u8]) -> (r: Result<(Self, usize), EthError>)
        ensures
            match r {
                Ok((h, off)) => spec_parse_eth(buf@) == Ok::<_, EthError>((h@, off as int)),
                Err(e) => spec_parse_eth(buf@) == Err::<(EthHeaderView, int), _>(e),
            },
    {
        if buf.len() < 14 {
            return Err(EthError::TooShort);
        }
        let dst = mac_at(buf, 0);
        let src = mac_at(buf, 6);
        let first = read_be16(buf, 12);
        if first == ETHERTYPE_VLAN {
            if buf.len() < 18 {
                return Err(EthError::TooShort);
            }
            let tci = read_be16(buf, 14);
            let et = read_be16(buf, 16);
            Ok((EthHeader { dst, src, vlan: Some(tci), ethertype: et }, 18))
        } else {
            Ok((EthHeader { dst, src, vlan: None, ethertype: first }, 14))
        }
    }

    /// Serializes the header (without payload) into `out`.
    pub fn write(&self, out: &mut Vec<u8>)
        ensures
            final(out)@ == old(out)@ + eth_header_bytes(self@),
    {
        let ghost start = out@;
        let mut i: usize = 0;
        while i < 6
            invariant
                i <= 6,
                out@ == start + self.dst.0@.take(i as int),
            decreases 6 - i,
        {
            out.push(self.dst.0[i]);
            i = i + 1;
            assert(out@ =~= start + self.dst.0@.take(i as int));
        }
        let ghost mid = out@;
        let mut j: usize = 0;
        while j < 6
            invariant
                j <= 6,
                out@ == mid + self.src.0@.take(j as int),
            decreases 6 - j,
        {
            out.push(self.src.0[j]);
            j = j + 1;
            assert(out@ =~= mid + self.src.0@.take(j as int));
        }
        assert(self.dst.0@.take(6) =~= self.dst.0@);
        assert(self.src.0@.take(6) =~= self.src.0@);
        if let Some(tci) = self.vlan {
            push_be16(out, ETHERTYPE_VLAN);
            push_be16(out, tci);
        }
        push_be16(out, self.ethertype);
        assert(out@ =~= start + eth_header_bytes(self@));
    }
}

/// Law: parsing the encoding of a header gives the header back, with the payload
/// starting right after it. This holds for every header except an untagged one
/// whose EtherType is the VLAN TPID, which reads back as a tagged header.
pub proof fn lemma_eth_header_roundtrip(h: EthHeaderView, payload: Seq<u8>)
    requires
        h.dst.len() == 6,
        h.src.len() == 6,
        !(h.vlan is None && h.ethertype == ETHERTYPE_VLAN),
    ensures
        spec_parse_eth(eth_header_bytes(h) + payload) == Ok::<_, EthError>(
            (h, eth_header_bytes(h).len() as int),
        ),
{
    let buf = eth_header_bytes(h) + payload;
    lemma_be16_roundtrip(ETHERTYPE_VLAN);
    lemma_be16_roundtrip(h.ethertype);
    assert(buf.subrange(0, 6) =~= h.dst);
    assert(buf.subrange(6, 12) =~= h.src);
    match h.vlan {
        Some(tci) => {
            lemma_be16_roundtrip(tci);
            assert(buf[12] == be16(ETHERTYPE_VLAN)[0]);
            assert(buf[13] == be16(ETHERTYPE_VLAN)[1]);
            assert(buf[14] == be16(tci)[0]);
            assert(buf[15] == be16(tci)[1]);
            assert(buf[16] == be16(h.ethertype)[0]);
            assert(buf[17] == be16(h.ethertype)[1]);
        },
        None => {
            assert(buf[12] == be16(h.ethertype)[0]);
            assert(buf[13] == be16(h.ethertype)[1]);
        },
    }
}

/// Law: a parsed header re-encodes to exactly the bytes it was parsed from.
pub proof fn lemma_eth_parse_encode(buf: Seq<u8>)
    ensures
        spec_parse_eth(buf) matches Ok((h, off)) ==> eth_header_bytes(h) == buf.subrange(0, off),
{
    if let Ok((h, off)) = spec_parse_eth(buf) {
        lemma_be16_of_bytes(buf, 12);
        if h.vlan is Some {
            lemma_be16_of_bytes(buf, 14);
            lemma_be16_of_bytes(buf, 16);
            lemma_be16_roundtrip(ETHERTYPE_VLAN);
        }
        assert(eth_header_bytes(h) =~= buf.subrange(0, off));
    }
}

} // verus!
