//! DCP TLV block codec (option/suboption/length/blockinfo/value, even-padded).
use vstd::prelude::*;
use vstd::slice::{slice_subrange, slice_to_vec};

use crate::dcp::{DcpError, MSG_SHORT_BLOCK_INFO};
use crate::wire::{
    be16, be16_at, lemma_be16_of_bytes, lemma_be16_roundtrip, push_be16, push_bytes, read_be16,
};

verus! {

/// One DCP TLV block.
#[derive(Debug, Clone, PartialEq, Eq)]
pub struct DcpBlock {
    pub option: u8,
    pub suboption: u8,
    pub block_info: Option<u16>,
    pub value: Vec<u8>,
}

/// Mathematical model of a [`DcpBlock`].
pub struct DcpBlockView {
    pub option: u8,
    pub suboption: u8,
    pub block_info: Option<u16>,
    pub value: Seq<u8>,
}

impl View for DcpBlock {
    type V = DcpBlockView;

    open spec fn view(&self) -> DcpBlockView {
        DcpBlockView {
            option: self.option,
            suboption: self.suboption,
            block_info: self.block_info,
            value: self.value@,
        }
    }
}

/// The models of a sequence of blocks.
pub open spec fn blocks_view(bs: Seq<DcpBlock>) -> Seq<DcpBlockView> {
    bs.map_values(|b: DcpBlock| b@)
}

/// DCPBlockLength of a block: its optional BlockInfo plus its value.
pub open spec fn block_len(b: DcpBlockView) -> int {
    (if b.block_info is Some { 2int } else { 0int }) + b.value.len()
}

/// Wire encoding of one block: header, BlockInfo, value, and a zero pad byte when
/// DCPBlockLength is odd.
pub open spec fn encode_block(b: DcpBlockView) -> Seq<u8> {
    seq![b.option, b.suboption] + be16(block_len(b) as u16) + (match b.block_info {
        Some(info) => be16(info),
        None => Seq::<u8>::empty(),
    }) + b.value + (if block_len(b) % 2 == 1 {
        seq![0u8]
    } else {
        Seq::<u8>::empty()
    })
}

/// Wire encoding of a sequence of blocks, one after the other.
pub open spec fn encode_blocks(bs: Seq<DcpBlockView>) -> Seq<u8>
    decreases bs.len(),
{
    if bs.len() == 0 {
        Seq::<u8>::empty()
    } else {
        encode_block(bs[0]) + encode_blocks(bs.drop_first())
    }
}

/// A block whose DCPBlockLength fits the 16-bit length field.
pub open spec fn block_fits(b: DcpBlockView) -> bool {
    block_len(b) <= u16::MAX
}

/// Blocks that decode back to themselves: each length fits, and each carries a
/// BlockInfo exactly when `has_block_info`.
pub open spec fn blocks_wf(bs: Seq<DcpBlockView>, has_block_info: bool) -> bool {
    forall|i: int|
        0 <= i < bs.len() ==> block_fits(#[trigger] bs[i]) && (bs[i].block_info is Some)
            == has_block_info
}

/// Result of parsing the blocks that start at `buf[p]`, as a sequence of models.
pub open spec fn parse_blocks_from(buf: Seq<u8>, p: int, has_block_info: bool) -> Result<
    Seq<DcpBlockView>,
    DcpError,
>
    decreases buf.len() + 1 - p,
    when 0 <= p
{
    if p >= buf.len() {
        Ok(Seq::empty())
    } else if p + 4 > buf.len() {
        Err(DcpError::TooShort { need: (p + 4) as usize, have: buf.len() as usize })
    } else {
        let len = be16_at(buf, p + 2) as int;
        let body_start = p + 4;
        let body_end = body_start + len;
        if body_end > buf.len() {
            Err(DcpError::TooShort { need: body_end as usize, have: buf.len() as usize })
        } else if has_block_info && len < 2 {
            Err(DcpError::Malformed(MSG_SHORT_BLOCK_INFO))
        } else {
            let b = if has_block_info {
                DcpBlockView {
                    option: buf[p],
                    suboption: buf[p + 1],
                    block_info: Some(be16_at(buf, body_start)),
                    value: buf.subrange(body_start + 2, body_end),
                }
            } else {
                DcpBlockView {
                    option: buf[p],
                    suboption: buf[p + 1],
                    block_info: None,
                    value: buf.subrange(body_start, body_end),
                }
            };
            match parse_blocks_from(buf, body_end + len % 2, has_block_info) {
                Ok(rest) => Ok(seq![b] + rest),
                Err(e) => Err(e),
            }
        }
    }
}

/// Result of parsing a whole buffer of blocks.
pub open spec fn spec_parse_blocks(buf: Seq<u8>, has_block_info: bool) -> Result<
    Seq<DcpBlockView>,
    DcpError,
> {
    parse_blocks_from(buf, 0, has_block_info)
}

/// Parse a contiguous sequence of DCP blocks. `has_block_info` selects whether
/// each block's payload begins with a 2-byte BlockInfo (true for response/get,
/// false for request filter blocks). A pad byte after an odd-length block is
/// skipped whatever its value.
pub fn parse_blocks(buf: &[u8], has_block_info: bool) -> (r: Result<Vec<DcpBlock>, DcpError>)
    requires
        buf@.len() <= isize::MAX,
    ensures
        match r {
            Ok(bs) => spec_parse_blocks(buf@, has_block_info) == Ok::<_, DcpError>(
                blocks_view(bs@),
            ),
            Err(e) => spec_parse_blocks(buf@, has_block_info) == Err::<Seq<DcpBlockView>, _>(e),
        },
{
    let mut blocks: Vec<DcpBlock> = Vec::new();
    let mut p: usize = 0;
    while p < buf.len()
        invariant
            buf@.len() <= isize::MAX,
            p <= buf@.len() + 1,
            spec_parse_blocks(buf@, has_block_info) == match parse_blocks_from(
                buf@,
                p as int,
                has_block_info,
            ) {
                Ok(rest) => Ok(blocks_view(blocks@) + rest),
                Err(e) => Err(e),
            },
        decreases buf@.len() + 1 - p,
    {
        if buf.len() - p < 4 {
            return Err(DcpError::TooShort { need: p + 4, have: buf.len() });
        }
        let option = buf[p];
        let suboption = buf[p + 1];
        let block_len = read_be16(buf, p + 2) as usize;
        let body_start = p + 4;
        let body_end = body_start + block_len;
        if body_end > buf.len() {
            return Err(DcpError::TooShort { need: body_end, have: buf.len() });
        }
        let b = if has_block_info {
            if block_len < 2 {
                return Err(DcpError::Malformed(MSG_SHORT_BLOCK_INFO));
            }
            let info = read_be16(buf, body_start);
            DcpBlock {
                option,
                suboption,
                block_info: Some(info),
                value: slice_to_vec(slice_subrange(buf, body_start + 2, body_end)),
            }
        } else {
            DcpBlock {
                option,
                suboption,
                block_info: None,
                value: slice_to_vec(slice_subrange(buf, body_start, body_end)),
            }
        };
        let ghost prev = blocks@;
        blocks.push(b);
        proof {
            assert(blocks_view(blocks@) =~= blocks_view(prev) + seq![b@]);
            let rest = parse_blocks_from(buf@, (body_end + block_len % 2) as int, has_block_info);
            if rest is Ok {
                assert(blocks_view(prev) + (seq![b@] + rest->Ok_0) =~= blocks_view(blocks@)
                    + rest->Ok_0);
            }
        }
        // advance past the block, skipping the pad byte if block_len is odd
        p = body_end + block_len % 2;
    }
    proof {
        assert(blocks_view(blocks@) + Seq::<DcpBlockView>::empty() =~= blocks_view(blocks@));
    }
    Ok(blocks)
}

/// Length of the wire encoding of one block: 4-byte header, DCPBlockLength bytes,
/// and the pad byte of an odd length.
pub proof fn lemma_encode_block_len(b: DcpBlockView)
    ensures
        encode_block(b).len() == 4 + block_len(b) + block_len(b) % 2,
{
}

/// The encoding of two sequences of blocks one after the other is the encoding of
/// the first followed by the encoding of the second.
pub proof fn lemma_encode_blocks_append(a: Seq<DcpBlockView>, b: Seq<DcpBlockView>)
    ensures
        encode_blocks(a + b) == encode_blocks(a) + encode_blocks(b),
    decreases a.len(),
{
    if a.len() == 0 {
        assert(a + b =~= b);
        assert(encode_blocks(a) + encode_blocks(b) =~= encode_blocks(b));
    } else {
        assert((a + b).drop_first() =~= a.drop_first() + b);
        lemma_encode_blocks_append(a.drop_first(), b);
        assert(encode_blocks(a + b) =~= encode_blocks(a) + encode_blocks(b));
    }
}

/// Encoding the first `i + 1` blocks extends the encoding of the first `i` by block `i`.
proof fn lemma_encode_blocks_take_next(s: Seq<DcpBlockView>, i: int)
    requires
        0 <= i < s.len(),
    ensures
        encode_blocks(s.take(i + 1)) == encode_blocks(s.take(i)) + encode_block(s[i]),
{
    assert(s.take(i + 1) =~= s.take(i) + seq![s[i]]);
    lemma_encode_blocks_append(s.take(i), seq![s[i]]);
    assert(encode_blocks(seq![s[i]]) =~= encode_block(s[i])) by {
        let one = seq![s[i]];
        assert(one.drop_first() =~= Seq::<DcpBlockView>::empty());
        assert(encode_blocks(one.drop_first()) == Seq::<u8>::empty());
        assert(encode_block(s[i]) + Seq::<u8>::empty() =~= encode_block(s[i]));
    }
}

/// The encoding of a prefix of the blocks is no longer than the encoding of all of them.
proof fn lemma_encode_blocks_prefix_len(s: Seq<DcpBlockView>, i: int)
    requires
        0 <= i <= s.len(),
    ensures
        encode_blocks(s.take(i)).len() <= encode_blocks(s).len(),
{
    assert(s =~= s.take(i) + s.skip(i));
    lemma_encode_blocks_append(s.take(i), s.skip(i));
}

/// Serialize blocks back to the wire format, padding each odd-length block.
pub fn write_blocks(blocks: &[DcpBlock], out: &mut Vec<u8>)
    requires
        forall|i: int| 0 <= i < blocks@.len() ==> block_fits(#[trigger] blocks@[i]@),
    ensures
        final(out)@ == old(out)@ + encode_blocks(blocks_view(blocks@)),
{
    let ghost start = out@;
    let ghost bv = blocks_view(blocks@);
    let mut i: usize = 0;
    while i < blocks.len()
        invariant
            i <= blocks@.len(),
            bv == blocks_view(blocks@),
            forall|k: int| 0 <= k < blocks@.len() ==> block_fits(#[trigger] blocks@[k]@),
            out@ == start + encode_blocks(bv.take(i as int)),
        decreases blocks@.len() - i,
    {
        let b = &blocks[i];
        assert(bv[i as int] == b@);
        assert(block_fits(blocks@[i as int]@));
        let info_len: usize = if b.block_info.is_some() { 2 } else { 0 };
        let block_len = info_len + b.value.len();
        let ghost before = out@;
        out.push(b.option);
        out.push(b.suboption);
        push_be16(out, block_len as u16);
        match b.block_info {
            Some(info) => push_be16(out, info),
            None => {},
        }
        push_bytes(out, b.value.as_slice());
        if block_len % 2 == 1 {
            out.push(0x00);
        }
        proof {
            assert(out@ =~= before + encode_block(b@));
            lemma_encode_blocks_take_next(bv, i as int);
            assert(out@ =~= start + encode_blocks(bv.take(i + 1)));
        }
        i = i + 1;
    }
    assert(bv.take(i as int) =~= bv);
}

/// Total encoded length of a block sequence (including 4-byte headers and pad bytes).
pub fn blocks_encoded_len(blocks: &[DcpBlock]) -> (n: u16)
    requires
        encode_blocks(blocks_view(blocks@)).len() <= u16::MAX,
    ensures
        n as int == encode_blocks(blocks_view(blocks@)).len(),
{
    let ghost bv = blocks_view(blocks@);
    let mut total: usize = 0;
    let mut i: usize = 0;
    while i < blocks.len()
        invariant
            i <= blocks@.len(),
            bv == blocks_view(blocks@),
            encode_blocks(bv).len() <= u16::MAX,
            total == encode_blocks(bv.take(i as int)).len(),
        decreases blocks@.len() - i,
    {
        let b = &blocks[i];
        assert(bv[i as int] == b@);
        proof {
            lemma_encode_blocks_take_next(bv, i as int);
            lemma_encode_block_len(b@);
            lemma_encode_blocks_prefix_len(bv, i + 1);
        }
        let info_len: usize = if b.block_info.is_some() { 2 } else { 0 };
        let block_len = info_len + b.value.len();
        total = total + 4 + block_len + block_len % 2;
        i = i + 1;
    }
    assert(bv.take(i as int) =~= bv);
    total as u16
}

/// Decoding one encoded block placed after `pre` and before `post` finds that block
/// and continues right after its encoding.
proof fn lemma_parse_one_block(pre: Seq<u8>, b: DcpBlockView, post: Seq<u8>, has_block_info: bool)
    requires
        block_fits(b),
        (b.block_info is Some) == has_block_info,
    ensures
        ({
            let buf = pre + encode_block(b) + post;
            let p = pre.len() as int;
            let len = be16_at(buf, p + 2) as int;
            &&& buf.len() >= p + 4
            &&& len == block_len(b)
            &&& p + 4 + len <= buf.len()
            &&& !(has_block_info && len < 2)
            &&& p + 4 + len + len % 2 == (pre + encode_block(b)).len()
            &&& buf[p] == b.option
            &&& buf[p + 1] == b.suboption
            &&& has_block_info ==> Some(be16_at(buf, p + 4)) == b.block_info
            &&& has_block_info ==> buf.subrange(p + 6, p + 4 + len) == b.value
            &&& !has_block_info ==> buf.subrange(p + 4, p + 4 + len) == b.value
        }),
{
    let e = encode_block(b);
    let buf = pre + e + post;
    let p = pre.len() as int;
    let l = block_len(b);
    lemma_encode_block_len(b);
    lemma_be16_roundtrip(l as u16);
    assert(buf[p + 2] == e[2]);
    assert(buf[p + 3] == e[3]);
    assert(e[2] == be16(l as u16)[0]);
    assert(e[3] == be16(l as u16)[1]);
    match b.block_info {
        Some(info) => {
            lemma_be16_roundtrip(info);
            assert(buf[p + 4] == be16(info)[0]);
            assert(buf[p + 5] == be16(info)[1]);
            assert(buf.subrange(p + 6, p + 4 + l) =~= b.value);
        },
        None => {
            assert(buf.subrange(p + 4, p + 4 + l) =~= b.value);
        },
    }
}

/// Decoding the encoding of well-formed blocks placed after any prefix gives the
/// blocks back.
proof fn lemma_parse_encoded_blocks_after(pre: Seq<u8>, bs: Seq<DcpBlockView>, has_block_info: bool)
    requires
        blocks_wf(bs, has_block_info),
    ensures
        parse_blocks_from(pre + encode_blocks(bs), pre.len() as int, has_block_info) == Ok::<
            _,
            DcpError,
        >(bs),
    decreases bs.len(),
{
    let buf = pre + encode_blocks(bs);
    if bs.len() == 0 {
        assert(buf =~= pre);
        assert(bs =~= Seq::<DcpBlockView>::empty());
    } else {
        let b = bs[0];
        let rest = bs.drop_first();
        assert(block_fits(bs[0]) && (bs[0].block_info is Some) == has_block_info);
        assert(blocks_wf(rest, has_block_info)) by {
            assert forall|i: int| 0 <= i < rest.len() implies block_fits(#[trigger] rest[i])
                && (rest[i].block_info is Some) == has_block_info by {
                assert(rest[i] == bs[i + 1]);
            }
        }
        let pre2 = pre + encode_block(b);
        assert(buf =~= pre + encode_block(b) + encode_blocks(rest));
        assert(buf =~= pre2 + encode_blocks(rest));
        lemma_parse_one_block(pre, b, encode_blocks(rest), has_block_info);
        lemma_parse_encoded_blocks_after(pre2, rest, has_block_info);
        let p = pre.len() as int;
        let len = be16_at(buf, p + 2) as int;
        let body_start = p + 4;
        let body_end = body_start + len;
        let parsed = if has_block_info {
            DcpBlockView {
                option: buf[p],
                suboption: buf[p + 1],
                block_info: Some(be16_at(buf, body_start)),
                value: buf.subrange(body_start + 2, body_end),
            }
        } else {
            DcpBlockView {
                option: buf[p],
                suboption: buf[p + 1],
                block_info: None,
                value: buf.subrange(body_start, body_end),
            }
        };
        assert(parsed == b);
        assert(seq![b] + rest =~= bs);
    }
}

/// Law: parsing the encoding of blocks that each carry a BlockInfo exactly when
/// `has_block_info`, and whose lengths fit the length field, gives the same blocks
/// back (what `write_blocks` writes, `parse_blocks` reads).
pub proof fn lemma_blocks_roundtrip(bs: Seq<DcpBlockView>, has_block_info: bool)
    requires
        blocks_wf(bs, has_block_info),
    ensures
        spec_parse_blocks(encode_blocks(bs), has_block_info) == Ok::<_, DcpError>(bs),
{
    lemma_parse_encoded_blocks_after(Seq::empty(), bs, has_block_info);
    assert(Seq::<u8>::empty() + encode_blocks(bs) =~= encode_blocks(bs));
}

/// When the whole encoding fits the length field, so does every block.
pub proof fn lemma_blocks_fit_within(bs: Seq<DcpBlockView>, i: int)
    requires
        0 <= i < bs.len(),
        encode_blocks(bs).len() <= u16::MAX,
    ensures
        block_fits(bs[i]),
{
    assert(bs =~= bs.take(i) + (seq![bs[i]] + bs.skip(i + 1)));
    lemma_encode_blocks_append(bs.take(i), seq![bs[i]] + bs.skip(i + 1));
    lemma_encode_blocks_append(seq![bs[i]], bs.skip(i + 1));
    assert(seq![bs[i]].drop_first() =~= Seq::<DcpBlockView>::empty());
    lemma_encode_block_len(bs[i]);
}

/// Every block a parse gives fits the length field and carries a BlockInfo exactly
/// when one was expected.
proof fn lemma_parsed_blocks_wf(buf: Seq<u8>, p: int, has_block_info: bool)
    requires
        0 <= p,
        parse_blocks_from(buf, p, has_block_info) is Ok,
    ensures
        blocks_wf(parse_blocks_from(buf, p, has_block_info)->Ok_0, has_block_info),
    decreases buf.len() + 1 - p,
{
    if p < buf.len() {
        let len = be16_at(buf, p + 2) as int;
        let next = p + 4 + len + len % 2;
        lemma_parsed_blocks_wf(buf, next, has_block_info);
        let rest = parse_blocks_from(buf, next, has_block_info)->Ok_0;
        let bs = parse_blocks_from(buf, p, has_block_info)->Ok_0;
        assert forall|i: int| 0 <= i < bs.len() implies block_fits(#[trigger] bs[i]) && (
        bs[i].block_info is Some) == has_block_info by {
            if i > 0 {
                assert(bs[i] == rest[i - 1]);
            }
        }
    }
}

/// Law: the blocks a successful parse gives can always be written back, and
/// parsing what is written gives the same blocks again.
pub proof fn lemma_parsed_blocks_reencode(buf: Seq<u8>, has_block_info: bool)
    requires
        spec_parse_blocks(buf, has_block_info) is Ok,
    ensures
        blocks_wf(spec_parse_blocks(buf, has_block_info)->Ok_0, has_block_info),
        spec_parse_blocks(encode_blocks(spec_parse_blocks(buf, has_block_info)->Ok_0), has_block_info)
            == spec_parse_blocks(buf, has_block_info),
{
    lemma_parsed_blocks_wf(buf, 0, has_block_info);
    lemma_blocks_roundtrip(spec_parse_blocks(buf, has_block_info)->Ok_0, has_block_info);
}

/// The blocks laid out from `buf[p]` carry their pad bytes: after each block
/// whose DCPBlockLength is odd, the next byte is present and zero.
pub open spec fn pads_present_from(buf: Seq<u8>, p: int) -> bool
    decreases buf.len() + 1 - p,
    when 0 <= p
{
    if p >= buf.len() {
        true
    } else if p + 4 > buf.len() {
        false
    } else {
        let len = be16_at(buf, p + 2) as int;
        let body_end = p + 4 + len;
        if body_end > buf.len() {
            false
        } else {
            &&& len % 2 == 1 ==> body_end < buf.len() && buf[body_end] == 0
            &&& pads_present_from(buf, body_end + len % 2)
        }
    }
}

proof fn lemma_write_back_from(buf: Seq<u8>, p: int, has_block_info: bool)
    requires
        0 <= p <= buf.len(),
        parse_blocks_from(buf, p, has_block_info) is Ok,
        pads_present_from(buf, p),
    ensures
        encode_blocks(parse_blocks_from(buf, p, has_block_info)->Ok_0) == buf.skip(p),
    decreases buf.len() + 1 - p,
{
    let bs = parse_blocks_from(buf, p, has_block_info)->Ok_0;
    if p == buf.len() {
        assert(bs =~= Seq::<DcpBlockView>::empty());
        assert(buf.skip(p) =~= Seq::<u8>::empty());
    } else {
        let len = be16_at(buf, p + 2) as int;
        let body_start = p + 4;
        let body_end = body_start + len;
        let next = body_end + len % 2;
        lemma_write_back_from(buf, next, has_block_info);
        let rest = parse_blocks_from(buf, next, has_block_info)->Ok_0;
        let b = bs[0];
        assert(bs.drop_first() =~= rest);
        assert(block_len(b) == len);
        lemma_be16_of_bytes(buf, p + 2);
        if has_block_info {
            lemma_be16_of_bytes(buf, body_start);
        }
        let pad = if len % 2 == 1 {
            seq![0u8]
        } else {
            Seq::<u8>::empty()
        };
        assert(pad =~= buf.subrange(body_end, next));
        assert(encode_block(b) =~= buf.subrange(p, next));
        assert(buf.skip(p) =~= buf.subrange(p, next) + buf.skip(next));
    }
}

/// Law: writing the blocks parsed from a buffer gives that buffer back, byte for
/// byte, when its pad bytes are present and zero.
pub proof fn lemma_parsed_blocks_write_back(buf: Seq<u8>, has_block_info: bool)
    requires
        spec_parse_blocks(buf, has_block_info) is Ok,
        pads_present_from(buf, 0),
    ensures
        encode_blocks(spec_parse_blocks(buf, has_block_info)->Ok_0) == buf,
{
    lemma_write_back_from(buf, 0, has_block_info);
    assert(buf.skip(0) =~= buf);
}

} // verus!
