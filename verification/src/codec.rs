use vstd::prelude::*;

use vstd::bytes::{
    spec_u32_from_le_bytes, spec_u32_to_le_bytes, spec_u64_to_le_bytes, u32_from_le_bytes,
    u32_to_le_bytes, u64_to_le_bytes,
};
use vstd::slice::{slice_subrange, slice_to_vec};
use vstd::utf8::{decode_utf8, encode_utf8, encode_utf8_decode_utf8, encode_utf8_valid_utf8,
    valid_utf8};

use crate::model::{kvs_view, Block, BlockView, KV, KVView};

verus! {

// ---------------------------------------------------------------------------
// The encoding, as mathematics. Every length-prefixed field carries a 4-byte
// little-endian length; strings are their UTF-8 bytes.
// ---------------------------------------------------------------------------

pub open spec fn enc_u32(n: u32) -> Seq<u8> {
    spec_u32_to_le_bytes(n)
}

pub open spec fn enc_u64(n: u64) -> Seq<u8> {
    spec_u64_to_le_bytes(n)
}

pub open spec fn enc_bytes(b: Seq<u8>) -> Seq<u8> {
    enc_u32(b.len() as u32) + b
}

pub open spec fn enc_str(s: Seq<char>) -> Seq<u8> {
    enc_bytes(encode_utf8(s))
}

pub open spec fn enc_kv(kv: KVView) -> Seq<u8> {
    enc_str(kv.key) + enc_bytes(kv.value)
}

pub open spec fn enc_kv_list(kvs: Seq<KVView>) -> Seq<u8>
    decreases kvs.len(),
{
    if kvs.len() == 0 {
        Seq::empty()
    } else {
        enc_kv(kvs[0]) + enc_kv_list(kvs.drop_first())
    }
}

pub open spec fn enc_block(b: BlockView) -> Seq<u8> {
    enc_str(b.title) + enc_str(b.account) + enc_bytes(b.encrypted_pwd) + enc_u32(
        b.multi_key.len() as u32,
    ) + enc_kv_list(b.multi_key)
}

pub open spec fn enc_block_list(blocks: Seq<BlockView>) -> Seq<u8>
    decreases blocks.len(),
{
    if blocks.len() == 0 {
        Seq::empty()
    } else {
        enc_block(blocks[0]) + enc_block_list(blocks.drop_first())
    }
}

/// The serialized entry list: a 4-byte count, then each entry in order.
pub open spec fn enc_blocks(blocks: Seq<BlockView>) -> Seq<u8> {
    enc_u32(blocks.len() as u32) + enc_block_list(blocks)
}

// Every length prefix must fit its 4 bytes.

pub open spec fn wf_bytes(b: Seq<u8>) -> bool {
    b.len() <= u32::MAX
}

pub open spec fn wf_str(s: Seq<char>) -> bool {
    encode_utf8(s).len() <= u32::MAX
}

pub open spec fn wf_kv(kv: KVView) -> bool {
    wf_str(kv.key) && wf_bytes(kv.value)
}

pub open spec fn wf_block(b: BlockView) -> bool {
    &&& wf_str(b.title)
    &&& wf_str(b.account)
    &&& wf_bytes(b.encrypted_pwd)
    &&& b.multi_key.len() <= u32::MAX
    &&& forall|i: int| 0 <= i < b.multi_key.len() ==> wf_kv(#[trigger] b.multi_key[i])
}

pub open spec fn wf_blocks(blocks: Seq<BlockView>) -> bool {
    &&& blocks.len() <= u32::MAX
    &&& forall|i: int| 0 <= i < blocks.len() ==> wf_block(#[trigger] blocks[i])
}

// ---------------------------------------------------------------------------
// The parser, as mathematics: a total function from bytes to the value and
// the unread rest, or `None` on malformed input.
// ---------------------------------------------------------------------------

pub open spec fn parse_u32(b: Seq<u8>) -> Option<(u32, Seq<u8>)> {
    if b.len() >= 4 {
        Some((spec_u32_from_le_bytes(b.take(4)), b.skip(4)))
    } else {
        None
    }
}

pub open spec fn parse_bytes(b: Seq<u8>) -> Option<(Seq<u8>, Seq<u8>)> {
    match parse_u32(b) {
        Some((n, rest)) => if rest.len() >= n {
            Some((rest.take(n as int), rest.skip(n as int)))
        } else {
            None
        },
        None => None,
    }
}

pub open spec fn parse_str(b: Seq<u8>) -> Option<(Seq<char>, Seq<u8>)> {
    match parse_bytes(b) {
        Some((bytes, rest)) => if valid_utf8(bytes) {
            Some((decode_utf8(bytes), rest))
        } else {
            None
        },
        None => None,
    }
}

pub open spec fn parse_kv(b: Seq<u8>) -> Option<(KVView, Seq<u8>)> {
    match parse_str(b) {
        Some((key, r1)) => match parse_bytes(r1) {
            Some((value, r2)) => Some((KVView { key, value }, r2)),
            None => None,
        },
        None => None,
    }
}

pub open spec fn parse_kv_list(n: nat, b: Seq<u8>) -> Option<(Seq<KVView>, Seq<u8>)>
    decreases n,
{
    if n == 0 {
        Some((Seq::empty(), b))
    } else {
        match parse_kv(b) {
            Some((kv, rest)) => match parse_kv_list((n - 1) as nat, rest) {
                Some((kvs, r2)) => Some((seq![kv] + kvs, r2)),
                None => None,
            },
            None => None,
        }
    }
}

pub open spec fn parse_block(b: Seq<u8>) -> Option<(BlockView, Seq<u8>)> {
    match parse_str(b) {
        Some((title, r1)) => match parse_str(r1) {
            Some((account, r2)) => match parse_bytes(r2) {
                Some((encrypted_pwd, r3)) => match parse_u32(r3) {
                    Some((cnt, r4)) => match parse_kv_list(cnt as nat, r4) {
                        Some((multi_key, r5)) => Some(
                            (BlockView { title, account, encrypted_pwd, multi_key }, r5),
                        ),
                        None => None,
                    },
                    None => None,
                },
                None => None,
            },
            None => None,
        },
        None => None,
    }
}

pub open spec fn parse_block_list(n: nat, b: Seq<u8>) -> Option<(Seq<BlockView>, Seq<u8>)>
    decreases n,
{
    if n == 0 {
        Some((Seq::empty(), b))
    } else {
        match parse_block(b) {
            Some((blk, rest)) => match parse_block_list((n - 1) as nat, rest) {
                Some((blocks, r2)) => Some((seq![blk] + blocks, r2)),
                None => None,
            },
            None => None,
        }
    }
}

/// The whole body: a count, that many entries, and nothing after them.
pub open spec fn parse_blocks(b: Seq<u8>) -> Option<Seq<BlockView>> {
    match parse_u32(b) {
        Some((cnt, rest)) => match parse_block_list(cnt as nat, rest) {
            Some((blocks, r2)) => if r2.len() == 0 {
                Some(blocks)
            } else {
                None
            },
            None => None,
        },
        None => None,
    }
}

// ---------------------------------------------------------------------------
// Round trip: parsing an encoding yields the encoded value and the rest.
// ---------------------------------------------------------------------------

pub proof fn lemma_parse_u32(n: u32, rest: Seq<u8>)
    ensures
        parse_u32(enc_u32(n) + rest) == Some((n, rest)),
{
    vstd::bytes::lemma_auto_spec_u32_to_from_le_bytes();
    assert((enc_u32(n) + rest).take(4) =~= enc_u32(n));
    assert((enc_u32(n) + rest).skip(4) =~= rest);
}

pub proof fn lemma_parse_bytes(b: Seq<u8>, rest: Seq<u8>)
    requires
        wf_bytes(b),
    ensures
        parse_bytes(enc_bytes(b) + rest) == Some((b, rest)),
{
    let n = b.len() as u32;
    assert(enc_bytes(b) + rest =~= enc_u32(n) + (b + rest));
    lemma_parse_u32(n, b + rest);
    assert((b + rest).take(n as int) =~= b);
    assert((b + rest).skip(n as int) =~= rest);
}

pub proof fn lemma_parse_str(s: Seq<char>, rest: Seq<u8>)
    requires
        wf_str(s),
    ensures
        parse_str(enc_str(s) + rest) == Some((s, rest)),
{
    lemma_parse_bytes(encode_utf8(s), rest);
    encode_utf8_valid_utf8(s);
    encode_utf8_decode_utf8(s);
}

pub proof fn lemma_parse_kv(kv: KVView, rest: Seq<u8>)
    requires
        wf_kv(kv),
    ensures
        parse_kv(enc_kv(kv) + rest) == Some((kv, rest)),
{
    assert(enc_kv(kv) + rest =~= enc_str(kv.key) + (enc_bytes(kv.value) + rest));
    lemma_parse_str(kv.key, enc_bytes(kv.value) + rest);
    lemma_parse_bytes(kv.value, rest);
    assert((KVView { key: kv.key, value: kv.value }) == kv);
}

pub proof fn lemma_parse_kv_list(kvs: Seq<KVView>, rest: Seq<u8>)
    requires
        forall|i: int| 0 <= i < kvs.len() ==> wf_kv(#[trigger] kvs[i]),
    ensures
        parse_kv_list(kvs.len(), enc_kv_list(kvs) + rest) == Some((kvs, rest)),
    decreases kvs.len(),
{
    if kvs.len() == 0 {
        assert(enc_kv_list(kvs) + rest =~= rest);
        assert(kvs =~= Seq::<KVView>::empty());
    } else {
        let tail = kvs.drop_first();
        assert(enc_kv_list(kvs) + rest =~= enc_kv(kvs[0]) + (enc_kv_list(tail) + rest));
        lemma_parse_kv(kvs[0], enc_kv_list(tail) + rest);
        assert(forall|i: int| 0 <= i < tail.len() ==> wf_kv(#[trigger] tail[i]));
        lemma_parse_kv_list(tail, rest);
        assert((kvs.len() - 1) as nat == tail.len());
        assert(seq![kvs[0]] + tail =~= kvs);
    }
}

pub proof fn lemma_parse_block(b: BlockView, rest: Seq<u8>)
    requires
        wf_block(b),
    ensures
        parse_block(enc_block(b) + rest) == Some((b, rest)),
{
    let e2 = enc_str(b.account);
    let e3 = enc_bytes(b.encrypted_pwd);
    let e4 = enc_u32(b.multi_key.len() as u32);
    let e5 = enc_kv_list(b.multi_key);
    assert(enc_block(b) + rest =~= enc_str(b.title) + (e2 + (e3 + (e4 + (e5 + rest)))));
    lemma_parse_str(b.title, e2 + (e3 + (e4 + (e5 + rest))));
    lemma_parse_str(b.account, e3 + (e4 + (e5 + rest)));
    lemma_parse_bytes(b.encrypted_pwd, e4 + (e5 + rest));
    lemma_parse_u32(b.multi_key.len() as u32, e5 + rest);
    lemma_parse_kv_list(b.multi_key, rest);
    assert((b.multi_key.len() as u32) as nat == b.multi_key.len());
    assert((BlockView {
        title: b.title,
        account: b.account,
        encrypted_pwd: b.encrypted_pwd,
        multi_key: b.multi_key,
    }) == b);
}

pub proof fn lemma_parse_block_list(blocks: Seq<BlockView>, rest: Seq<u8>)
    requires
        forall|i: int| 0 <= i < blocks.len() ==> wf_block(#[trigger] blocks[i]),
    ensures
        parse_block_list(blocks.len(), enc_block_list(blocks) + rest) == Some((blocks, rest)),
    decreases blocks.len(),
{
    if blocks.len() == 0 {
        assert(enc_block_list(blocks) + rest =~= rest);
        assert(blocks =~= Seq::<BlockView>::empty());
    } else {
        let tail = blocks.drop_first();
        assert(enc_block_list(blocks) + rest =~= enc_block(blocks[0]) + (enc_block_list(tail)
            + rest));
        lemma_parse_block(blocks[0], enc_block_list(tail) + rest);
        assert(forall|i: int| 0 <= i < tail.len() ==> wf_block(#[trigger] tail[i]));
        lemma_parse_block_list(tail, rest);
        assert((blocks.len() - 1) as nat == tail.len());
        assert(seq![blocks[0]] + tail =~= blocks);
    }
}

/// Parsing the encoding of a well-formed entry list yields exactly that list.
pub proof fn lemma_parse_blocks(blocks: Seq<BlockView>)
    requires
        wf_blocks(blocks),
    ensures
        parse_blocks(enc_blocks(blocks)) == Some(blocks),
{
    let body = enc_block_list(blocks);
    assert(enc_blocks(blocks) =~= enc_u32(blocks.len() as u32) + body);
    lemma_parse_u32(blocks.len() as u32, body);
    assert(body =~= body + Seq::<u8>::empty());
    lemma_parse_block_list(blocks, Seq::empty());
    assert((blocks.len() as u32) as nat == blocks.len());
}

// Encoding a list one element at a time.

pub proof fn lemma_enc_kv_list_push(kvs: Seq<KVView>, kv: KVView)
    ensures
        enc_kv_list(kvs.push(kv)) == enc_kv_list(kvs) + enc_kv(kv),
    decreases kvs.len(),
{
    if kvs.len() == 0 {
        assert(kvs.push(kv)[0] == kv);
        assert(kvs.push(kv).drop_first() =~= Seq::<KVView>::empty());
        assert(enc_kv_list(kvs.push(kv)) == enc_kv(kv) + enc_kv_list(Seq::<KVView>::empty()));
        assert(enc_kv(kv) + Seq::<u8>::empty() =~= enc_kv(kv));
        assert(enc_kv_list(kvs) + enc_kv(kv) =~= enc_kv(kv));
    } else {
        assert(kvs.push(kv).drop_first() =~= kvs.drop_first().push(kv));
        assert(kvs.push(kv)[0] == kvs[0]);
        lemma_enc_kv_list_push(kvs.drop_first(), kv);
        assert(enc_kv(kvs[0]) + (enc_kv_list(kvs.drop_first()) + enc_kv(kv)) =~= (enc_kv(kvs[0])
            + enc_kv_list(kvs.drop_first())) + enc_kv(kv));
    }
}

pub proof fn lemma_enc_block_list_push(blocks: Seq<BlockView>, b: BlockView)
    ensures
        enc_block_list(blocks.push(b)) == enc_block_list(blocks) + enc_block(b),
    decreases blocks.len(),
{
    if blocks.len() == 0 {
        assert(blocks.push(b)[0] == b);
        assert(blocks.push(b).drop_first() =~= Seq::<BlockView>::empty());
        assert(enc_block_list(blocks.push(b)) == enc_block(b) + enc_block_list(
            Seq::<BlockView>::empty(),
        ));
        assert(enc_block(b) + Seq::<u8>::empty() =~= enc_block(b));
        assert(enc_block_list(blocks) + enc_block(b) =~= enc_block(b));
    } else {
        assert(blocks.push(b).drop_first() =~= blocks.drop_first().push(b));
        assert(blocks.push(b)[0] == blocks[0]);
        lemma_enc_block_list_push(blocks.drop_first(), b);
        assert(enc_block(blocks[0]) + (enc_block_list(blocks.drop_first()) + enc_block(b)) =~= (
        enc_block(blocks[0]) + enc_block_list(blocks.drop_first())) + enc_block(b));
    }
}

// ---------------------------------------------------------------------------
// Executable encoding.
// ---------------------------------------------------------------------------

pub(crate) fn write_u32(out: &mut Vec<u8>, n: u32)
    ensures
        final(out)@ == old(out)@ + enc_u32(n),
{
    let mut bytes = u32_to_le_bytes(n);
    out.append(&mut bytes);
}

pub(crate) fn write_u64(out: &mut Vec<u8>, n: u64)
    ensures
        final(out)@ == old(out)@ + enc_u64(n),
{
    let mut bytes = u64_to_le_bytes(n);
    out.append(&mut bytes);
}

pub(crate) fn write_bytes(out: &mut Vec<u8>, b: &[u8])
    requires
        wf_bytes(b@),
    ensures
        final(out)@ == old(out)@ + enc_bytes(b@),
{
    write_u32(out, b.len() as u32);
    let mut copy = slice_to_vec(b);
    out.append(&mut copy);
    proof {
        assert(out@ =~= old(out)@ + enc_bytes(b@));
    }
}

fn write_str(out: &mut Vec<u8>, s: &str)
    requires
        wf_str(s@),
    ensures
        final(out)@ == old(out)@ + enc_str(s@),
{
    let b = s.as_bytes();
    write_bytes(out, b);
}

fn write_kv(out: &mut Vec<u8>, kv: &KV)
    requires
        wf_kv(kv@),
    ensures
        final(out)@ == old(out)@ + enc_kv(kv@),
{
    write_str(out, kv.key.as_str());
    write_bytes(out, kv.value.as_slice());
    proof {
        assert(out@ =~= old(out)@ + enc_kv(kv@));
    }
}

fn write_block(out: &mut Vec<u8>, b: &Block)
    requires
        wf_block(b@),
    ensures
        final(out)@ == old(out)@ + enc_block(b@),
{
    write_str(out, b.title.as_str());
    write_str(out, b.account.as_str());
    write_bytes(out, b.encrypted_pwd.as_slice());
    write_u32(out, b.multi_key.len() as u32);
    let ghost mid = out@;
    let mut i: usize = 0;
    while i < b.multi_key.len()
        invariant
            i <= b@.multi_key.len(),
            b.multi_key@.len() == b@.multi_key.len(),
            wf_block(b@),
            out@ == mid + enc_kv_list(b@.multi_key.take(i as int)),
        decreases b@.multi_key.len() - i,
    {
        assert(b.multi_key@[i as int]@ == b@.multi_key[i as int]);
        write_kv(out, &b.multi_key[i]);
        proof {
            lemma_enc_kv_list_push(b@.multi_key.take(i as int), b@.multi_key[i as int]);
            assert(b@.multi_key.take(i as int).push(b@.multi_key[i as int]) =~= b@.multi_key.take(
                i as int + 1,
            ));
        }
        i = i + 1;
    }
    proof {
        assert(b@.multi_key.take(b@.multi_key.len() as int) =~= b@.multi_key);
        assert(out@ =~= old(out)@ + enc_block(b@));
    }
}

/// Serializes the whole entry list.
pub fn encode_blocks(blocks: &Vec<Block>) -> (r: Vec<u8>)
    requires
        wf_blocks(crate::model::blocks_view(blocks@)),
    ensures
        r@ == enc_blocks(crate::model::blocks_view(blocks@)),
{
    let ghost bv = crate::model::blocks_view(blocks@);
    let mut out: Vec<u8> = Vec::new();
    write_u32(&mut out, blocks.len() as u32);
    let mut i: usize = 0;
    while i < blocks.len()
        invariant
            i <= blocks@.len(),
            bv == crate::model::blocks_view(blocks@),
            bv.len() == blocks@.len(),
            wf_blocks(bv),
            out@ == enc_u32(bv.len() as u32) + enc_block_list(bv.take(i as int)),
        decreases blocks@.len() - i,
    {
        assert(blocks@[i as int]@ == bv[i as int]);
        write_block(&mut out, &blocks[i]);
        proof {
            lemma_enc_block_list_push(bv.take(i as int), bv[i as int]);
            assert(bv.take(i as int).push(bv[i as int]) =~= bv.take(i as int + 1));
            assert(out@ =~= enc_u32(bv.len() as u32) + enc_block_list(bv.take(i as int + 1)));
        }
        i = i + 1;
    }
    proof {
        assert(bv.take(bv.len() as int) =~= bv);
    }
    out
}

// ---------------------------------------------------------------------------
// Executable decoding, pinned to the spec parser.
// ---------------------------------------------------------------------------

/// Relies on `String::from_utf8`: succeeds exactly on valid UTF-8 input, and
/// the bytes of the returned string are the input bytes.
#[verifier::external_body]
fn string_from_utf8(bytes: Vec<u8>) -> (r: Option<String>)
    ensures
        match r {
            Some(s) => valid_utf8(bytes@) && encode_utf8(s@) == bytes@,
            None => !valid_utf8(bytes@),
        },
{
    String::from_utf8(bytes).ok()
}

fn read_u32(data: &[u8], pos: usize) -> (r: Option<(u32, usize)>)
    requires
        pos <= data@.len(),
    ensures
        match r {
            Some(v) => {
                &&& parse_u32(data@.skip(pos as int)) == Some((v.0, data@.skip(v.1 as int)))
                &&& pos <= v.1 <= data@.len()
            },
            None => parse_u32(data@.skip(pos as int)) is None,
        },
{
    if data.len() - pos < 4 {
        return None;
    }
    let four = slice_subrange(data, pos, pos + 4);
    let n = u32_from_le_bytes(four);
    proof {
        assert(data@.subrange(pos as int, pos as int + 4) =~= data@.skip(pos as int).take(4));
        assert(data@.skip(pos as int + 4) =~= data@.skip(pos as int).skip(4));
    }
    Some((n, pos + 4))
}

fn read_bytes(data: &[u8], pos: usize) -> (r: Option<(Vec<u8>, usize)>)
    requires
        pos <= data@.len(),
    ensures
        match r {
            Some(v) => {
                &&& parse_bytes(data@.skip(pos as int)) == Some((v.0@, data@.skip(v.1 as int)))
                &&& pos <= v.1 <= data@.len()
            },
            None => parse_bytes(data@.skip(pos as int)) is None,
        },
{
    match read_u32(data, pos) {
        None => None,
        Some((n, p2)) => {
            if (data.len() - p2) < (n as usize) {
                return None;
            }
            let end = p2 + (n as usize);
            let body = slice_to_vec(slice_subrange(data, p2, end));
            proof {
                assert(data@.subrange(p2 as int, end as int) =~= data@.skip(p2 as int).take(
                    n as int,
                ));
                assert(data@.skip(end as int) =~= data@.skip(p2 as int).skip(n as int));
            }
            Some((body, end))
        },
    }
}

fn read_str(data: &[u8], pos: usize) -> (r: Option<(String, usize)>)
    requires
        pos <= data@.len(),
    ensures
        match r {
            Some(v) => {
                &&& parse_str(data@.skip(pos as int)) == Some((v.0@, data@.skip(v.1 as int)))
                &&& pos <= v.1 <= data@.len()
            },
            None => parse_str(data@.skip(pos as int)) is None,
        },
{
    match read_bytes(data, pos) {
        None => None,
        Some((bytes, p2)) => {
            let ghost bytes_view = bytes@;
            match string_from_utf8(bytes) {
                None => None,
                Some(s) => {
                    proof {
                        encode_utf8_decode_utf8(s@);
                        assert(decode_utf8(bytes_view) == s@);
                    }
                    Some((s, p2))
                },
            }
        },
    }
}

fn read_kv(data: &[u8], pos: usize) -> (r: Option<(KV, usize)>)
    requires
        pos <= data@.len(),
    ensures
        match r {
            Some(v) => {
                &&& parse_kv(data@.skip(pos as int)) == Some((v.0@, data@.skip(v.1 as int)))
                &&& pos <= v.1 <= data@.len()
            },
            None => parse_kv(data@.skip(pos as int)) is None,
        },
{
    match read_str(data, pos) {
        None => None,
        Some((key, p1)) => match read_bytes(data, p1) {
            None => None,
            Some((value, p2)) => Some((KV { key, value }, p2)),
        },
    }
}

fn read_kvs(data: &[u8], pos: usize, count: u32) -> (r: Option<(Vec<KV>, usize)>)
    requires
        pos <= data@.len(),
    ensures
        match r {
            Some(v) => {
                &&& parse_kv_list(count as nat, data@.skip(pos as int)) == Some(
                    (kvs_view(v.0@), data@.skip(v.1 as int)),
                )
                &&& pos <= v.1 <= data@.len()
            },
            None => parse_kv_list(count as nat, data@.skip(pos as int)) is None,
        },
{
    let mut kvs: Vec<KV> = Vec::new();
    let mut p: usize = pos;
    let mut k: u32 = 0;
    proof {
        assert(kvs_view(kvs@) =~= Seq::<KVView>::empty());
    }
    while k < count
        invariant
            pos <= p <= data@.len(),
            k <= count,
            parse_kv_list(count as nat, data@.skip(pos as int)) == (match parse_kv_list(
                (count - k) as nat,
                data@.skip(p as int),
            ) {
                Some(t) => Some((kvs_view(kvs@) + t.0, t.1)),
                None => None::<(Seq<KVView>, Seq<u8>)>,
            }),
        decreases count - k,
    {
        match read_kv(data, p) {
            None => {
                proof {
                    assert(parse_kv_list((count - k) as nat, data@.skip(p as int)) is None);
                }
                return None;
            },
            Some((kv, p2)) => {
                let ghost kvv = kv@;
                let ghost pre = kvs@;
                kvs.push(kv);
                proof {
                    let n = (count - k) as nat;
                    let inner = parse_kv_list((n - 1) as nat, data@.skip(p2 as int));
                    assert(kvs_view(kvs@) =~= kvs_view(pre).push(kvv));
                    if inner is Some {
                        let t = inner.unwrap();
                        assert(parse_kv_list(n, data@.skip(p as int)) == Some(
                            (seq![kvv] + t.0, t.1),
                        ));
                        assert(kvs_view(pre).push(kvv) + t.0 =~= kvs_view(pre) + (seq![kvv]
                            + t.0));
                    } else {
                        assert(parse_kv_list(n, data@.skip(p as int)) is None);
                    }
                }
                p = p2;
                k = k + 1;
            },
        }
    }
    proof {
        assert(parse_kv_list(0, data@.skip(p as int)) == Some(
            (Seq::<KVView>::empty(), data@.skip(p as int)),
        ));
        assert(kvs_view(kvs@) + Seq::<KVView>::empty() =~= kvs_view(kvs@));
    }
    Some((kvs, p))
}

fn read_block(data: &[u8], pos: usize) -> (r: Option<(Block, usize)>)
    requires
        pos <= data@.len(),
    ensures
        match r {
            Some(v) => {
                &&& parse_block(data@.skip(pos as int)) == Some((v.0@, data@.skip(v.1 as int)))
                &&& pos <= v.1 <= data@.len()
            },
            None => parse_block(data@.skip(pos as int)) is None,
        },
{
    match read_str(data, pos) {
        None => None,
        Some((title, p1)) => match read_str(data, p1) {
            None => None,
            Some((account, p2)) => match read_bytes(data, p2) {
                None => None,
                Some((encrypted_pwd, p3)) => match read_u32(data, p3) {
                    None => None,
                    Some((cnt, p4)) => match read_kvs(data, p4, cnt) {
                        None => None,
                        Some((multi_key, p5)) => {
                            let b = Block { title, account, encrypted_pwd, multi_key };
                            proof {
                                assert(b@.multi_key =~= kvs_view(b.multi_key@));
                            }
                            Some((b, p5))
                        },
                    },
                },
            },
        },
    }
}

/// Deserializes a whole entry list; `None` exactly on input that is not the
/// encoding of one.
pub fn decode_blocks(data: &[u8]) -> (r: Option<Vec<Block>>)
    ensures
        match r {
            Some(bs) => parse_blocks(data@) == Some(crate::model::blocks_view(bs@)),
            None => parse_blocks(data@) is None,
        },
{
    proof {
        assert(data@.skip(0) =~= data@);
    }
    match read_u32(data, 0) {
        None => None,
        Some((count, p0)) => {
            let mut blocks: Vec<Block> = Vec::new();
            let mut p: usize = p0;
            let mut k: u32 = 0;
            proof {
                assert(crate::model::blocks_view(blocks@) =~= Seq::<BlockView>::empty());
            }
            while k < count
                invariant
                    p <= data@.len(),
                    k <= count,
                    parse_u32(data@) == Some((count, data@.skip(p0 as int))),
                    parse_block_list(count as nat, data@.skip(p0 as int)) == (match parse_block_list(
                        (count - k) as nat,
                        data@.skip(p as int),
                    ) {
                        Some(t) => Some((crate::model::blocks_view(blocks@) + t.0, t.1)),
                        None => None::<(Seq<BlockView>, Seq<u8>)>,
                    }),
                decreases count - k,
            {
                match read_block(data, p) {
                    None => {
                        proof {
                            assert(parse_block_list((count - k) as nat, data@.skip(p as int))
                                is None);
                        }
                        return None;
                    },
                    Some((b, p2)) => {
                        let ghost bv = b@;
                        let ghost pre = blocks@;
                        blocks.push(b);
                        proof {
                            let n = (count - k) as nat;
                            let inner = parse_block_list((n - 1) as nat, data@.skip(p2 as int));
                            assert(crate::model::blocks_view(blocks@) =~= crate::model::blocks_view(
                                pre,
                            ).push(bv));
                            if inner is Some {
                                let t = inner.unwrap();
                                assert(parse_block_list(n, data@.skip(p as int)) == Some(
                                    (seq![bv] + t.0, t.1),
                                ));
                                assert(crate::model::blocks_view(pre).push(bv) + t.0
                                    =~= crate::model::blocks_view(pre) + (seq![bv] + t.0));
                            } else {
                                assert(parse_block_list(n, data@.skip(p as int)) is None);
                            }
                        }
                        p = p2;
                        k = k + 1;
                    },
                }
            }
            if p != data.len() {
                proof {
                    let tail = data@.skip(p as int);
                    assert(parse_block_list(0, tail) == Some((Seq::<BlockView>::empty(), tail)));
                    assert(crate::model::blocks_view(blocks@) + Seq::<BlockView>::empty()
                        =~= crate::model::blocks_view(blocks@));
                    assert(tail.len() != 0);
                }
                return None;
            }
            proof {
                let tail = data@.skip(p as int);
                assert(parse_block_list(0, tail) == Some((Seq::<BlockView>::empty(), tail)));
                assert(crate::model::blocks_view(blocks@) + Seq::<BlockView>::empty()
                    =~= crate::model::blocks_view(blocks@));
                assert(tail.len() == 0);
            }
            Some(blocks)
        },
    }
}

} // verus!
