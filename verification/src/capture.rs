//! Reading the Ethernet frames held in a pcap or pcapng capture (format
//! auto-detected from the leading magic), on top of the `pcap-file` parsers.
//!
//! Both formats store their integers in the byte order announced by the file
//! (the pcap magic, or the pcapng Section Header Block magic), so the byte models
//! here read 32-bit fields in either order.
use crate::wire::be32_at;
use pcap_file::pcap::PcapParser;
use pcap_file::pcapng::{Block, PcapNgParser};
use pcap_file::PcapError;
use vstd::prelude::*;
use vstd::slice::slice_subrange;

verus! {

/// Capture reading errors.
#[derive(Debug, Clone, PartialEq, Eq)]
pub enum CaptureError {
    Io(String),
    Pcap(String),
    UnknownFormat([u8; 4]),
}

/// The two capture file formats.
#[derive(Debug, Clone, Copy, PartialEq, Eq)]
pub enum CaptureFormat {
    Pcap,
    PcapNg,
}

/// The format announced by the first four bytes of a capture: the pcapng Section
/// Header Block type, or one of the four classic pcap magics (both byte orders,
/// micro- and nanosecond precision).
pub open spec fn capture_format_of(magic: Seq<u8>) -> Option<CaptureFormat> {
    if magic =~= seq![0x0au8, 0x0d, 0x0d, 0x0a] {
        Some(CaptureFormat::PcapNg)
    } else if magic =~= seq![0xd4u8, 0xc3, 0xb2, 0xa1] || magic =~= seq![0xa1u8, 0xb2, 0xc3, 0xd4]
        || magic =~= seq![0x4du8, 0x3c, 0xb2, 0xa1] || magic =~= seq![0xa1u8, 0xb2, 0x3c, 0x4d] {
        Some(CaptureFormat::Pcap)
    } else {
        None
    }
}

/// Message of the error for a capture shorter than its 4-byte magic.
pub open spec fn short_capture_message() -> Seq<char> {
    seq![
        'f', 'a', 'i', 'l', 'e', 'd', ' ', 't', 'o', ' ', 'f', 'i', 'l', 'l', ' ', 'w', 'h',
        'o', 'l', 'e', ' ', 'b', 'u', 'f', 'f', 'e', 'r',
    ]
}

/// Detects the format of a capture from its first four bytes.
pub fn detect_capture_format(bytes: &[u8]) -> (r: Result<CaptureFormat, CaptureError>)
    ensures
        bytes@.len() < 4 ==> (r matches Err(CaptureError::Io(m)) && m@ == short_capture_message()),
        bytes@.len() >= 4 ==> match capture_format_of(bytes@.take(4)) {
            Some(f) => r == Ok::<_, CaptureError>(f),
            None => (r matches Err(CaptureError::UnknownFormat(m)) && m@ == bytes@.take(4)),
        },
{
    if bytes.len() < 4 {
        let m = "failed to fill whole buffer";
        proof {
            reveal_strlit("failed to fill whole buffer");
        }
        let s = m.to_owned();
        assert(s@ =~= short_capture_message());
        return Err(CaptureError::Io(s));
    }
    let magic = [bytes[0], bytes[1], bytes[2], bytes[3]];
    assert(magic@ =~= bytes@.take(4));
    if magic[0] == 0x0a && magic[1] == 0x0d && magic[2] == 0x0d && magic[3] == 0x0a {
        Ok(CaptureFormat::PcapNg)
    } else if (magic[0] == 0xd4 && magic[1] == 0xc3 && magic[2] == 0xb2 && magic[3] == 0xa1) || (
    magic[0] == 0xa1 && magic[1] == 0xb2 && magic[2] == 0xc3 && magic[3] == 0xd4) || (magic[0]
        == 0x4d && magic[1] == 0x3c && magic[2] == 0xb2 && magic[3] == 0xa1) || (magic[0] == 0xa1
        && magic[1] == 0xb2 && magic[2] == 0x3c && magic[3] == 0x4d) {
        Ok(CaptureFormat::Pcap)
    } else {
        Err(CaptureError::UnknownFormat(magic))
    }
}

/// The 32-bit little-endian value at `s[i]`.
pub open spec fn le32_at(s: Seq<u8>, i: int) -> u32 {
    (s[i] as int + s[i + 1] as int * 256 + s[i + 2] as int * 0x1_0000 + s[i + 3] as int
        * 0x100_0000) as u32
}

/// The 32-bit value at `s[i]`, big-endian when `big`, else little-endian.
pub open spec fn u32_at(s: Seq<u8>, i: int, big: bool) -> u32 {
    if big {
        be32_at(s, i)
    } else {
        le32_at(s, i)
    }
}

fn read_u32_in(buf: &[u8], i: usize, big: bool) -> (v: u32)
    requires
        i + 4 <= buf@.len(),
    ensures
        v == u32_at(buf@, i as int, big),
{
    if big {
        (buf[i] as u32) * 0x100_0000 + (buf[i + 1] as u32) * 0x1_0000 + (buf[i + 2] as u32) * 256
            + (buf[i + 3] as u32)
    } else {
        (buf[i] as u32) + (buf[i + 1] as u32) * 256 + (buf[i + 2] as u32) * 0x1_0000 + (buf[i
            + 3] as u32) * 0x100_0000
    }
}

// ---------------------------------------------------------------------------
// pcap: a 24-byte global header, then records of a 16-byte header and payload.

/// `h` holds a pcap global header: 24 bytes or more, starting with a pcap magic.
pub open spec fn pcap_header_ok(h: Seq<u8>) -> bool {
    h.len() >= 24 && capture_format_of(h.take(4)) == Some(CaptureFormat::Pcap)
}

/// The pcap header magic announces big-endian fields (`a1 b2 ..`).
pub open spec fn pcap_big(h: Seq<u8>) -> bool {
    h[0] == 0xa1
}

/// The pcap header magic announces nanosecond timestamps (`a1 b2 3c 4d` or
/// `4d 3c b2 a1`).
pub open spec fn pcap_nanos(h: Seq<u8>) -> bool {
    h[2] == 0x3c || h[0] == 0x4d
}

/// The snapshot length of a pcap global header.
pub open spec fn pcap_snaplen(h: Seq<u8>) -> u32 {
    u32_at(h, 16, pcap_big(h))
}

/// The captured length (`incl_len`) of the record starting at `s[0]`.
pub open spec fn pcap_incl_len(h: Seq<u8>, s: Seq<u8>) -> u32 {
    u32_at(s, 8, pcap_big(h))
}

/// The record at the start of `s` is readable under global header `h`: its 16-byte
/// header and `incl_len` payload bytes are present, its timestamp fraction is below
/// one second, and `incl_len <= orig_len`, both within the snapshot length.
pub open spec fn pcap_record_ok(h: Seq<u8>, s: Seq<u8>) -> bool {
    let big = pcap_big(h);
    let frac = u32_at(s, 4, big);
    let incl = u32_at(s, 8, big);
    let orig = u32_at(s, 12, big);
    &&& s.len() >= 16
    &&& 16 + incl <= s.len()
    &&& if pcap_nanos(h) {
        frac < 1_000_000_000
    } else {
        frac < 1_000_000
    }
    &&& incl <= pcap_snaplen(h)
    &&& orig <= pcap_snaplen(h)
    &&& incl <= orig
}

/// The payloads of the readable records laid out from the start of `s`, up to the
/// first record that is not readable.
pub open spec fn pcap_frames(h: Seq<u8>, s: Seq<u8>) -> Seq<Seq<u8>>
    decreases s.len(),
{
    if pcap_record_ok(h, s) {
        let n = 16 + pcap_incl_len(h, s) as int;
        seq![s.subrange(16, n)] + pcap_frames(h, s.skip(n))
    } else {
        seq![]
    }
}

/// Every byte of `s` belongs to a readable record.
pub open spec fn pcap_clean(h: Seq<u8>, s: Seq<u8>) -> bool
    decreases s.len(),
{
    if s.len() == 0 {
        true
    } else if pcap_record_ok(h, s) {
        pcap_clean(h, s.skip(16 + pcap_incl_len(h, s) as int))
    } else {
        false
    }
}

// ---------------------------------------------------------------------------
// pcapng: blocks of type, total length, body and total length again.

/// The type code of the pcapng Section Header Block.
pub open spec fn ng_section_type() -> u32 {
    0x0A0D0D0A
}

/// `s` starts with the type code of a Section Header Block.
pub open spec fn ng_is_section(s: Seq<u8>) -> bool {
    &&& s.len() >= 4
    &&& s[0] == 0x0a
    &&& s[1] == 0x0d
    &&& s[2] == 0x0d
    &&& s[3] == 0x0a
}

/// The byte-order magic of a Section Header Block is one of the two valid ones.
pub open spec fn ng_magic_ok(s: Seq<u8>) -> bool {
    ||| s[8] == 0x1a && s[9] == 0x2b && s[10] == 0x3c && s[11] == 0x4d
    ||| s[8] == 0x4d && s[9] == 0x3c && s[10] == 0x2b && s[11] == 0x1a
}

/// The section that a Section Header Block opens is big-endian.
pub open spec fn ng_section_big(s: Seq<u8>) -> bool {
    s[8] == 0x1a
}

/// The type code of the block at the start of `s`, read in the section's order.
pub open spec fn ng_type(s: Seq<u8>, big: bool) -> u32 {
    u32_at(s, 0, big)
}

/// The byte order of the block at the start of `s` and of the blocks after it: a
/// Section Header Block brings its own.
pub open spec fn ng_order(s: Seq<u8>, big: bool) -> bool {
    if ng_type(s, big) == ng_section_type() {
        ng_section_big(s)
    } else {
        big
    }
}

/// The total length of the block at the start of `s`.
pub open spec fn ng_block_len(s: Seq<u8>, big: bool) -> u32 {
    u32_at(s, 4, ng_order(s, big))
}

/// The block at the start of `s` is well framed: a total length that is a
/// multiple of 4, at least 12, within `s`, and repeated in the block's last four
/// bytes (and, for a Section Header Block, a valid byte-order magic).
pub open spec fn ng_framed(s: Seq<u8>, big: bool) -> bool {
    let l = ng_block_len(s, big) as int;
    &&& s.len() >= 12
    &&& ng_type(s, big) == ng_section_type() ==> ng_magic_ok(s)
    &&& l % 4 == 0
    &&& 12 <= l <= s.len()
    &&& u32_at(s, l - 4, ng_order(s, big)) == l
}

/// The padding that brings `n` bytes to a multiple of 4.
pub open spec fn ng_pad(n: int) -> int {
    (4 - n % 4) % 4
}

/// The packet data carried by the block at the start of `s`: the captured bytes
/// at offset 28 of an Enhanced Packet Block (type 6), the bytes after the
/// original length of a Simple Packet Block (type 3); no other block carries any.
pub open spec fn ng_data(s: Seq<u8>, big: bool) -> Option<Seq<u8>> {
    let t = ng_type(s, big);
    if t == 6 {
        Some(s.subrange(28, 28 + u32_at(s, 20, big) as int))
    } else if t == 3 {
        Some(s.subrange(12, ng_block_len(s, big) - 4))
    } else {
        None
    }
}

/// A well-framed block of a plain shape: a Section Header Block or Interface
/// Description Block without options, an Enhanced Packet Block whose padded data
/// ends the body (no options), a Simple Packet Block, or a block of a type that
/// carries no fields to check.
pub open spec fn ng_simple(s: Seq<u8>, big: bool) -> bool {
    let t = ng_type(s, big);
    let l = ng_block_len(s, big) as int;
    let cap = u32_at(s, 20, big) as int;
    &&& ng_framed(s, big)
    &&& t == ng_section_type() ==> l == 28
    &&& t == 1 ==> l == 20 && s[10] == 0 && s[11] == 0
    &&& t == 6 ==> l >= 32 && l - 32 == cap + ng_pad(cap)
    &&& t == 3 ==> l >= 16
    &&& t != 2 && t != 4 && t != 5 && t != 9
}

/// `s` is made of plain blocks only, the first read in order `big`.
pub open spec fn ng_all_simple(s: Seq<u8>, big: bool) -> bool
    decreases s.len(),
{
    if s.len() == 0 {
        true
    } else if ng_simple(s, big) {
        ng_all_simple(s.skip(ng_block_len(s, big) as int), ng_order(s, big))
    } else {
        false
    }
}

/// The block at the start of `s` is a well-framed Enhanced Packet Block (type 6)
/// or Packet Block (type 2) whose captured length, padded to a multiple of 4, does
/// not fit in `usize`. `pcap-file` computes that sum in `usize`, and it panics on
/// the overflow. This can only happen where `usize` has 32 bits.
pub open spec fn ng_wide_capture(s: Seq<u8>, big: bool) -> bool {
    let t = ng_type(s, big);
    let cap = u32_at(s, 20, big) as int;
    &&& ng_framed(s, big)
    &&& t == 6 || t == 2
    &&& ng_block_len(s, big) >= 32
    &&& cap + ng_pad(cap) > usize::MAX
}

/// Whether `pcap_file::pcapng::PcapNgParser::new` accepts the capture `src`,
/// which starts with a Section Header Block.
pub uninterp spec fn ng_section_read(src: Seq<u8>) -> bool;

/// Whether `pcap_file::pcapng::PcapNgParser::next_block` accepts the block at the
/// start of `src`, in the section opened by the Section Header Block `section`.
pub uninterp spec fn ng_block_read(section: Seq<u8>, src: Seq<u8>) -> bool;

/// The section header in force after the block at the start of `s`: that block
/// itself if it is a Section Header Block, else `section`.
pub open spec fn ng_next_section(section: Seq<u8>, s: Seq<u8>) -> Seq<u8> {
    let big = ng_section_big(section);
    if ng_type(s, big) == ng_section_type() {
        s.take(ng_block_len(s, big) as int)
    } else {
        section
    }
}

/// The block at the start of `s` is read: the parser accepts it, in the section
/// opened by `section` (and it is not a packet block that the parser cannot size).
pub open spec fn ng_block_taken(section: Seq<u8>, s: Seq<u8>) -> bool {
    let big = ng_section_big(section);
    &&& s.len() > 0
    &&& ng_block_read(section, s)
    &&& !ng_wide_capture(s, big)
    &&& ng_framed(s, big)
}

/// The packet data of the blocks read from the start of `s`, in order, up to the
/// first block that is not read; `section` opens the section in force.
pub open spec fn ng_read_frames(section: Seq<u8>, s: Seq<u8>) -> Seq<Seq<u8>>
    decreases s.len(),
{
    if ng_block_taken(section, s) {
        let big = ng_section_big(section);
        let rest = ng_read_frames(
            ng_next_section(section, s),
            s.skip(ng_block_len(s, big) as int),
        );
        match ng_data(s, big) {
            Some(d) => seq![d] + rest,
            None => rest,
        }
    } else {
        seq![]
    }
}

/// Every block from the start of `s` to its end is read.
pub open spec fn ng_read_clean(section: Seq<u8>, s: Seq<u8>) -> bool
    decreases s.len(),
{
    if s.len() == 0 {
        true
    } else if ng_block_taken(section, s) {
        let big = ng_section_big(section);
        ng_read_clean(ng_next_section(section, s), s.skip(ng_block_len(s, big) as int))
    } else {
        false
    }
}

/// The blocks of a pcapng section, one arm per kind, with the packet data of those
/// that carry any.
enum NgBlock {
    SectionHeader,
    InterfaceDescription,
    Packet(Vec<u8>),
    SimplePacket(Vec<u8>),
    NameResolution,
    InterfaceStatistics,
    EnhancedPacket(Vec<u8>),
    SystemdJournalExport,
    Unknown,
}

/// `blk` is the kind of the block at the start of `s`, and carries its data: the
/// captured bytes at offset 28 of a Packet or Enhanced Packet Block, the bytes
/// after the original length of a Simple Packet Block.
spec fn ng_block_is(blk: NgBlock, s: Seq<u8>, big: bool) -> bool {
    let t = ng_type(s, big);
    let cap = u32_at(s, 20, big) as int;
    match blk {
        NgBlock::SectionHeader => t == ng_section_type(),
        NgBlock::InterfaceDescription => t == 1,
        NgBlock::Packet(d) => t == 2 && d@ == s.subrange(28, 28 + cap),
        NgBlock::SimplePacket(d) => t == 3 && d@ == s.subrange(12, ng_block_len(s, big) - 4),
        NgBlock::NameResolution => t == 4,
        NgBlock::InterfaceStatistics => t == 5,
        NgBlock::EnhancedPacket(d) => t == 6 && d@ == s.subrange(28, 28 + cap),
        NgBlock::SystemdJournalExport => t == 9,
        NgBlock::Unknown => t != ng_section_type() && !(1 <= t <= 6) && t != 9,
    }
}

#[verifier::external_type_specification]
#[verifier::external_body]
pub struct ExPcapError(PcapError);

/// Calls `pcap_file::pcap::PcapParser::new`, which reads a pcap global header:
/// it succeeds exactly on 24 bytes or more that start with one of the four pcap
/// magics, and hands back the bytes after the header.
#[verifier::external_body]
fn pcap_read_header(src: &[u8]) -> (r: Result<&[u8], PcapError>)
    ensures
        (r is Ok) == pcap_header_ok(src@),
        r matches Ok(rem) ==> rem@ == src@.skip(24),
{
    match PcapParser::new(src) {
        Ok((rem, _)) => Ok(rem),
        Err(e) => Err(e),
    }
}

/// Calls `pcap_file::pcap::PcapParser::next_packet` on a parser made by
/// `PcapParser::new` from the global header `header`, so that the result depends
/// on the two arguments alone. It succeeds exactly when the record at the start of
/// `src` is readable (`pcap_record_ok`: `RawPcapPacket::from_slice` and
/// `PcapPacket::try_from_raw_packet`), and then hands back its `incl_len` payload
/// bytes and the bytes after the record.
#[verifier::external_body]
fn pcap_next_packet<'a>(header: &[u8], src: &'a [u8]) -> (r: Result<
    (&'a [u8], Vec<u8>),
    PcapError,
>)
    requires
        pcap_header_ok(header@),
    ensures
        (r is Ok) == pcap_record_ok(header@, src@),
        r matches Ok((rem, data)) ==> {
            let n = 16 + pcap_incl_len(header@, src@) as int;
            &&& data@ == src@.subrange(16, n)
            &&& rem@ == src@.skip(n)
        },
{
    let (_, parser) = PcapParser::new(header)?;
    match parser.next_packet(src) {
        Ok((rem, packet)) => Ok((rem, packet.data.into_owned())),
        Err(e) => Err(e),
    }
}

/// Calls `pcap_file::pcapng::PcapNgParser::new`, which reads the Section Header
/// Block at the start of `src` and hands back the bytes after it. Whether it
/// accepts the block (the parsing of its options included) is named
/// `ng_section_read`; a block it accepts is well framed, and one without options is
/// always accepted.
#[verifier::external_body]
fn pcapng_read_section(src: &[u8]) -> (r: Result<&[u8], PcapError>)
    requires
        ng_is_section(src@),
    ensures
        (r is Ok) == ng_section_read(src@),
        r matches Ok(rem) ==> ng_framed(src@, true) && rem@ == src@.skip(
            ng_block_len(src@, true) as int,
        ),
        ng_simple(src@, true) ==> r is Ok,
{
    match PcapNgParser::new(src) {
        Ok((rem, _)) => Ok(rem),
        Err(e) => Err(e),
    }
}

/// Calls `pcap_file::pcapng::PcapNgParser::next_block` on a parser made by
/// `PcapNgParser::new` from the Section Header Block `section` of the current
/// section, so that the result depends on the two arguments alone (the parser
/// keeps nothing else that `next_block` reads). Whether it accepts the block at
/// the start of `src` (the parsing of its fields and options included) is named
/// `ng_block_read`. A block it accepts is well framed in the section's byte order;
/// the bytes after it are handed back, with the block's kind and packet data
/// (`ng_block_is`). A plain block in a section opened by a plain Section Header
/// Block is always accepted. A packet block whose padded captured length does not
/// fit in `usize` (`ng_wide_capture`) is left out: the reader panics on it.
#[verifier::external_body]
fn pcapng_next_block<'a>(section: &[u8], src: &'a [u8]) -> (r: Result<(&'a [u8], NgBlock), PcapError>)
    requires
        section@.len() >= 12,
        ng_is_section(section@),
        !ng_wide_capture(src@, ng_section_big(section@)),
    ensures
        (r is Ok) == ng_block_read(section@, src@),
        r matches Ok((rem, blk)) ==> {
            let big = ng_section_big(section@);
            &&& ng_framed(src@, big)
            &&& rem@ == src@.skip(ng_block_len(src@, big) as int)
            &&& ng_block_is(blk, src@, big)
        },
        ng_simple(section@, true) && ng_simple(src@, ng_section_big(section@)) ==> r is Ok,
{
    let (_, mut parser) = PcapNgParser::new(section)?;
    match parser.next_block(src) {
        Ok((rem, block)) => Ok((rem, match block {
            Block::SectionHeader(_) => NgBlock::SectionHeader,
            Block::InterfaceDescription(_) => NgBlock::InterfaceDescription,
            Block::Packet(b) => NgBlock::Packet(b.data.into_owned()),
            Block::SimplePacket(b) => NgBlock::SimplePacket(b.data.into_owned()),
            Block::NameResolution(_) => NgBlock::NameResolution,
            Block::InterfaceStatistics(_) => NgBlock::InterfaceStatistics,
            Block::EnhancedPacket(b) => NgBlock::EnhancedPacket(b.data.into_owned()),
            Block::SystemdJournalExport(_) => NgBlock::SystemdJournalExport,
            Block::Unknown(_) => NgBlock::Unknown,
        })),
        Err(e) => Err(e),
    }
}

/// Calls `Display::to_string` on a `pcap_file::PcapError`; nothing is stated of
/// the message.
#[verifier::external_body]
fn pcap_error_message(e: &PcapError) -> (r: String) {
    e.to_string()
}

/// The frames read from a capture: every frame up to the first unreadable record
/// or block, and the error of that record or block, if any.
pub struct CaptureContents {
    pub frames: Vec<Vec<u8>>,
    pub error: Option<CaptureError>,
}

/// The byte contents of a sequence of frames.
pub open spec fn capture_frames_view(fs: Seq<Vec<u8>>) -> Seq<Seq<u8>> {
    fs.map_values(|f: Vec<u8>| f@)
}

/// Message of the error for a packet block whose padded captured length does not
/// fit in `usize`.
pub open spec fn wide_capture_message() -> Seq<char> {
    seq![
        'c', 'a', 'p', 't', 'u', 'r', 'e', 'd', ' ', 'l', 'e', 'n', 'g', 't', 'h', ' ', 'o',
        'u', 't', ' ', 'o', 'f', ' ', 'r', 'a', 'n', 'g', 'e',
    ]
}

/// A Section Header Block type reads the same in both byte orders.
proof fn lemma_section_type(s: Seq<u8>, big: bool)
    requires
        s.len() >= 4,
    ensures
        (ng_type(s, big) == ng_section_type()) == ng_is_section(s),
{
    let b0 = s[0];
    let b1 = s[1];
    let b2 = s[2];
    let b3 = s[3];
    assert(((b0 as u32) * 0x100_0000u32 + (b1 as u32) * 0x1_0000u32 + (b2 as u32) * 256u32 + (
    b3 as u32) == 0x0A0D0D0Au32) == (b0 == 0x0au8 && b1 == 0x0du8 && b2 == 0x0du8 && b3
        == 0x0au8)) by (bit_vector);
    assert(((b0 as u32) + (b1 as u32) * 256u32 + (b2 as u32) * 0x1_0000u32 + (b3 as u32)
        * 0x100_0000u32 == 0x0A0D0D0Au32) == (b0 == 0x0au8 && b1 == 0x0du8 && b2 == 0x0du8
        && b3 == 0x0au8)) by (bit_vector);
}

/// A well-framed block, cut off after its total length, is the same block.
proof fn lemma_block_prefix(s: Seq<u8>, big: bool)
    requires
        ng_framed(s, big),
    ensures
        ({
            let p = s.take(ng_block_len(s, big) as int);
            &&& p.len() >= 12
            &&& ng_type(p, big) == ng_type(s, big)
            &&& ng_order(p, big) == ng_order(s, big)
            &&& ng_block_len(p, big) == ng_block_len(s, big)
            &&& ng_section_big(p) == ng_section_big(s)
            &&& ng_is_section(p) == ng_is_section(s)
            &&& ng_framed(p, big)
            &&& ng_simple(p, big) == ng_simple(s, big)
        }),
{
    let l = ng_block_len(s, big) as int;
    let p = s.take(l);
    assert(p[0] == s[0] && p[1] == s[1] && p[2] == s[2] && p[3] == s[3]);
    assert(p[4] == s[4] && p[5] == s[5] && p[6] == s[6] && p[7] == s[7]);
    assert(p[8] == s[8] && p[9] == s[9] && p[10] == s[10] && p[11] == s[11]);
    assert(p[l - 4] == s[l - 4] && p[l - 3] == s[l - 3] && p[l - 2] == s[l - 2] && p[l - 1]
        == s[l - 1]);
    if l >= 24 {
        assert(p[20] == s[20] && p[21] == s[21] && p[22] == s[22] && p[23] == s[23]);
    }
}

/// Whether a Section Header Block is plain does not depend on the order it is
/// read in.
proof fn lemma_section_simple(s: Seq<u8>, big: bool)
    requires
        ng_is_section(s),
    ensures
        ng_simple(s, big) == ng_simple(s, true),
        ng_framed(s, big) == ng_framed(s, true),
        ng_block_len(s, big) == ng_block_len(s, true),
        ng_order(s, big) == ng_section_big(s),
{
    lemma_section_type(s, big);
    lemma_section_type(s, true);
}

/// Tells whether the block at the start of `s` is a packet block whose padded
/// captured length does not fit in `usize` (`ng_wide_capture`).
fn wide_capture_at(s: &[u8], big: bool) -> (r: bool)
    ensures
        r == ng_wide_capture(s@, big),
{
    if s.len() < 32 {
        return false;
    }
    let t = read_u32_in(s, 0, big);
    if t != 6 && t != 2 {
        return false;
    }
    let l = read_u32_in(s, 4, big);
    if l % 4 != 0 || l < 32 || l as usize > s.len() {
        return false;
    }
    if read_u32_in(s, (l - 4) as usize, big) != l {
        return false;
    }
    let cap = read_u32_in(s, 20, big);
    let pad = (4 - cap % 4) % 4;
    (cap as u64) + (pad as u64) > usize::MAX as u64
}

/// Reads all frames of a pcap or pcapng capture held in `bytes`.
///
/// An unknown magic, a capture shorter than its magic, an unreadable pcap global
/// header or an unreadable leading pcapng Section Header Block is an error. For a pcap capture the frames are the payloads of the
/// readable records after the 24-byte global header, up to the first unreadable
/// one, which is reported in `error`. For a pcapng capture the frames are the
/// packet data of the Enhanced Packet and Simple Packet blocks, in file order, up
/// to the first block that the parser refuses, which is reported in `error`; a
/// capture made of plain blocks (`ng_all_simple`) is read whole.
pub fn read_capture(bytes: &[u8]) -> (r: Result<CaptureContents, CaptureError>)
    ensures
        bytes@.len() < 4 ==> (r matches Err(CaptureError::Io(m)) && m@ == short_capture_message()),
        bytes@.len() >= 4 && capture_format_of(bytes@.take(4)) is None ==> (r matches Err(
            CaptureError::UnknownFormat(m),
        ) && m@ == bytes@.take(4)),
        bytes@.len() >= 4 && capture_format_of(bytes@.take(4)) == Some(CaptureFormat::Pcap) ==> {
            &&& bytes@.len() < 24 ==> (r matches Err(CaptureError::Pcap(_)))
            &&& bytes@.len() >= 24 ==> (r matches Ok(c) && capture_frames_view(c.frames@)
                == pcap_frames(bytes@.take(24), bytes@.skip(24)) && (c.error is None
                <==> pcap_clean(bytes@.take(24), bytes@.skip(24))))
        },
        bytes@.len() >= 4 && capture_format_of(bytes@.take(4)) == Some(CaptureFormat::PcapNg) ==> {
            let l = ng_block_len(bytes@, true) as int;
            &&& (r is Ok) == ng_section_read(bytes@)
            &&& r matches Err(e) ==> e is Pcap
            &&& r matches Ok(c) ==> capture_frames_view(c.frames@) == ng_read_frames(
                bytes@.take(l),
                bytes@.skip(l),
            )
            &&& r matches Ok(c) ==> (c.error is None <==> ng_read_clean(
                bytes@.take(l),
                bytes@.skip(l),
            ))
            &&& ng_all_simple(bytes@, true) ==> (r matches Ok(c) && c.error is None)
        },
        r matches Ok(c) ==> (c.error matches Some(e) ==> e is Pcap),
{
    let format = detect_capture_format(bytes)?;
    match format {
        CaptureFormat::Pcap => read_pcap(bytes),
        CaptureFormat::PcapNg => read_pcapng(bytes),
    }
}

fn read_pcap(bytes: &[u8]) -> (r: Result<CaptureContents, CaptureError>)
    requires
        bytes@.len() >= 4,
        capture_format_of(bytes@.take(4)) == Some(CaptureFormat::Pcap),
    ensures
        bytes@.len() < 24 ==> (r matches Err(CaptureError::Pcap(_))),
        bytes@.len() >= 24 ==> (r matches Ok(c) && capture_frames_view(c.frames@) == pcap_frames(
            bytes@.take(24),
            bytes@.skip(24),
        ) && (c.error is None <==> pcap_clean(bytes@.take(24), bytes@.skip(24)))),
        r matches Ok(c) ==> (c.error matches Some(e) ==> e is Pcap),
{
    let mut rest = match pcap_read_header(bytes) {
        Ok(rem) => rem,
        Err(e) => {
            return Err(CaptureError::Pcap(pcap_error_message(&e)));
        },
    };
    let header = slice_subrange(bytes, 0, 24);
    let ghost h = bytes@.take(24);
    let ghost body = bytes@.skip(24);
    assert(header@ =~= h);
    assert(h.take(4) =~= bytes@.take(4));
    let mut frames: Vec<Vec<u8>> = Vec::new();
    assert(capture_frames_view(frames@) + pcap_frames(h, rest@) =~= pcap_frames(h, body));
    while rest.len() > 0
        invariant
            bytes@.len() >= 24,
            h == bytes@.take(24),
            body == bytes@.skip(24),
            header@ == h,
            h.len() == 24,
            capture_format_of(h.take(4)) == Some(CaptureFormat::Pcap),
            capture_frames_view(frames@) + pcap_frames(h, rest@) == pcap_frames(h, body),
            pcap_clean(h, rest@) == pcap_clean(h, body),
        decreases rest@.len(),
    {
        match pcap_next_packet(header, rest) {
            Ok((rem, data)) => {
                let ghost prev = capture_frames_view(frames@);
                proof {
                    assert(pcap_frames(h, rest@) == seq![data@] + pcap_frames(h, rem@));
                    assert(pcap_clean(h, rest@) == pcap_clean(h, rem@));
                }
                frames.push(data);
                assert(capture_frames_view(frames@) =~= prev.push(data@));
                assert(capture_frames_view(frames@) + pcap_frames(h, rem@) =~= prev + pcap_frames(
                    h,
                    rest@,
                ));
                rest = rem;
            },
            Err(e) => {
                assert(pcap_frames(h, rest@) =~= Seq::<Seq<u8>>::empty());
                let contents = CaptureContents {
                    frames,
                    error: Some(CaptureError::Pcap(pcap_error_message(&e))),
                };
                assert(capture_frames_view(contents.frames@) =~= pcap_frames(h, body));
                return Ok(contents);
            },
        }
    }
    assert(pcap_frames(h, rest@) =~= Seq::<Seq<u8>>::empty());
    let contents = CaptureContents { frames, error: None };
    assert(capture_frames_view(contents.frames@) =~= pcap_frames(h, body));
    Ok(contents)
}

fn read_pcapng(bytes: &[u8]) -> (r: Result<CaptureContents, CaptureError>)
    requires
        bytes@.len() >= 4,
        capture_format_of(bytes@.take(4)) == Some(CaptureFormat::PcapNg),
    ensures
        ({
            let l = ng_block_len(bytes@, true) as int;
            &&& (r is Ok) == ng_section_read(bytes@)
            &&& r matches Err(e) ==> e is Pcap
            &&& r matches Ok(c) ==> capture_frames_view(c.frames@) == ng_read_frames(
                bytes@.take(l),
                bytes@.skip(l),
            )
            &&& r matches Ok(c) ==> (c.error is None <==> ng_read_clean(
                bytes@.take(l),
                bytes@.skip(l),
            ))
        }),
        ng_all_simple(bytes@, true) ==> (r matches Ok(c) && c.error is None),
        r matches Ok(c) ==> (c.error matches Some(e) ==> e is Pcap),
{
    assert(bytes@.take(4)[0] == bytes@[0] && bytes@.take(4)[1] == bytes@[1] && bytes@.take(4)[2]
        == bytes@[2] && bytes@.take(4)[3] == bytes@[3]);
    assert(ng_is_section(bytes@));
    let mut rest = match pcapng_read_section(bytes) {
        Ok(rem) => rem,
        Err(e) => {
            return Err(CaptureError::Pcap(pcap_error_message(&e)));
        },
    };
    let ghost l0 = ng_block_len(bytes@, true) as int;
    let ghost first = bytes@.take(l0);
    let ghost body = bytes@.skip(l0);
    let ghost total = ng_read_frames(first, body);
    let ghost clean = ng_read_clean(first, body);
    let ghost mut big: bool = ng_section_big(bytes@);
    proof {
        lemma_section_type(bytes@, true);
        lemma_block_prefix(bytes@, true);
    }
    let mut section = slice_subrange(bytes, 0, bytes.len() - rest.len());
    assert(section@ =~= first);
    let mut frames: Vec<Vec<u8>> = Vec::new();
    assert(capture_frames_view(frames@) + ng_read_frames(section@, rest@) =~= total);
    while rest.len() > 0
        invariant
            section@.len() >= 12,
            ng_is_section(section@),
            ng_section_big(section@) == big,
            capture_frames_view(frames@) + ng_read_frames(section@, rest@) == total,
            ng_read_clean(section@, rest@) == clean,
            ng_section_read(bytes@),
            l0 == ng_block_len(bytes@, true) as int,
            total == ng_read_frames(bytes@.take(l0), bytes@.skip(l0)),
            clean == ng_read_clean(bytes@.take(l0), bytes@.skip(l0)),
            ng_all_simple(bytes@, true) ==> ng_simple(section@, true) && ng_all_simple(rest@, big),
        decreases rest@.len(),
    {
        let section_big = section[8] == 0x1a;
        if wide_capture_at(rest, section_big) {
            let contents = CaptureContents {
                frames,
                error: Some(CaptureError::Pcap(wide_capture_string())),
            };
            assert(capture_frames_view(contents.frames@) =~= total);
            return Ok(contents);
        }
        match pcapng_next_block(section, rest) {
            Ok((rem, blk)) => {
                let ghost prev = capture_frames_view(frames@);
                let ghost cur = rest@;
                let ghost sec = section@;
                let ghost next_sec = ng_next_section(sec, cur);
                let ghost tail = ng_read_frames(next_sec, rem@);
                proof {
                    assert(ng_block_taken(sec, cur));
                    assert(ng_read_frames(sec, cur) == match ng_data(cur, big) {
                        Some(d) => seq![d] + tail,
                        None => tail,
                    });
                    assert(ng_read_clean(sec, cur) == ng_read_clean(next_sec, rem@));
                    lemma_section_type(cur, big);
                }
                match blk {
                    NgBlock::SectionHeader => {
                        let l = rest.len() - rem.len();
                        proof {
                            lemma_block_prefix(cur, big);
                            lemma_section_simple(cur.take(l as int), big);
                        }
                        section = slice_subrange(rest, 0, l);
                        assert(section@ =~= next_sec);
                        proof {
                            big = ng_order(cur, big);
                        }
                    },
                    NgBlock::EnhancedPacket(d) => {
                        frames.push(d);
                        assert(capture_frames_view(frames@) =~= prev.push(d@));
                        assert(capture_frames_view(frames@) + tail =~= prev + (seq![d@] + tail));
                    },
                    NgBlock::SimplePacket(d) => {
                        frames.push(d);
                        assert(capture_frames_view(frames@) =~= prev.push(d@));
                        assert(capture_frames_view(frames@) + tail =~= prev + (seq![d@] + tail));
                    },
                    _ => {},
                }
                rest = rem;
            },
            Err(e) => {
                let contents = CaptureContents {
                    frames,
                    error: Some(CaptureError::Pcap(pcap_error_message(&e))),
                };
                assert(capture_frames_view(contents.frames@) =~= total);
                return Ok(contents);
            },
        }
    }
    let contents = CaptureContents { frames, error: None };
    assert(capture_frames_view(contents.frames@) =~= total);
    Ok(contents)
}

fn wide_capture_string() -> (s: String)
    ensures
        s@ == wide_capture_message(),
{
    let m = "captured length out of range";
    proof {
        reveal_strlit("captured length out of range");
    }
    let s = m.to_owned();
    assert(s@ =~= wide_capture_message());
    s
}

} // verus!
