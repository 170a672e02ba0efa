use vstd::prelude::*;

use vstd::bytes::{
    lemma_auto_spec_u32_to_from_le_bytes, lemma_auto_spec_u64_to_from_le_bytes,
    spec_u32_from_le_bytes, spec_u64_from_le_bytes, u32_from_le_bytes, u64_from_le_bytes,
};
use vstd::slice::{slice_subrange, slice_to_vec};
use vstd::utf8::encode_utf8;

use crate::cipher::{
    aead_open_spec, now_seconds, AEAD_OVERHEAD, AEAD_PLAINTEXT_MAX, DERIVE_INPUT_MAX, KEY_LEN,
};
use crate::codec::{
    decode_blocks, enc_blocks, enc_u32, enc_u64, encode_blocks, lemma_parse_blocks, parse_blocks,
    wf_blocks, write_u32, write_u64,
};
use crate::envelope::{unlock, unlock_spec, VaultSession, SALT_LEN};
use crate::errors::VaultError;
use crate::model::{blocks_view, Block, BlockView};

verus! {

/// Exact width of the serialized header; the encrypted body, if any, always
/// begins at this offset.
pub const HEADER_LEN: usize = 256;

/// 4-byte tag identifying the format: "MYVT" as big-endian ASCII.
pub const MAGIC: u32 = 0x4D595654;

/// Format revision.
pub const VERSION: u32 = 1;

/// Widest wrapped data key the fixed header can hold.
pub const ENV_KEY_MAX: usize = 196;

/// The vault file's fixed-width header. The timestamps are seconds since the
/// Unix epoch; both are set at creation and left unchanged by later saves.
#[derive(Debug, PartialEq, Eq)]
pub struct FileHeader {
    pub magic: u32,
    pub ver: u32,
    pub create_time: u64,
    pub modify_time: u64,
    pub salt: Vec<u8>,
    pub env_key: Vec<u8>,
}

/// Mathematical image of a `FileHeader`.
pub struct HeaderView {
    pub magic: u32,
    pub ver: u32,
    pub create_time: u64,
    pub modify_time: u64,
    pub salt: Seq<u8>,
    pub env_key: Seq<u8>,
}

impl View for FileHeader {
    type V = HeaderView;

    open spec fn view(&self) -> HeaderView {
        HeaderView {
            magic: self.magic,
            ver: self.ver,
            create_time: self.create_time,
            modify_time: self.modify_time,
            salt: self.salt@,
            env_key: self.env_key@,
        }
    }
}

pub open spec fn wf_header(h: HeaderView) -> bool {
    &&& h.magic == MAGIC
    &&& h.ver == VERSION
    &&& h.salt.len() == SALT_LEN
    &&& h.env_key.len() <= ENV_KEY_MAX
}

pub open spec fn zero_pad(n: nat) -> Seq<u8> {
    Seq::new((ENV_KEY_MAX - n) as nat, |i: int| 0u8)
}

/// The header's fixed 256-byte layout: magic, version, the two timestamps,
/// the salt, the wrapped key behind its length, then zero padding.
pub open spec fn enc_header(h: HeaderView) -> Seq<u8> {
    enc_u32(h.magic) + enc_u32(h.ver) + enc_u64(h.create_time) + enc_u64(h.modify_time) + h.salt
        + enc_u32(h.env_key.len() as u32) + h.env_key + zero_pad(h.env_key.len())
}

/// Reads a header back from exactly 256 bytes; `None` on a foreign magic, an
/// unknown version, or an oversized wrapped-key length.
pub open spec fn parse_header(b: Seq<u8>) -> Option<HeaderView> {
    if b.len() != HEADER_LEN {
        None
    } else {
        let magic = spec_u32_from_le_bytes(b.subrange(0, 4));
        let ver = spec_u32_from_le_bytes(b.subrange(4, 8));
        let create_time = spec_u64_from_le_bytes(b.subrange(8, 16));
        let modify_time = spec_u64_from_le_bytes(b.subrange(16, 24));
        let salt = b.subrange(24, 56);
        let env_len = spec_u32_from_le_bytes(b.subrange(56, 60));
        if magic == MAGIC && ver == VERSION && env_len <= ENV_KEY_MAX {
            Some(
                HeaderView {
                    magic,
                    ver,
                    create_time,
                    modify_time,
                    salt,
                    env_key: b.subrange(60, 60 + env_len),
                },
            )
        } else {
            None
        }
    }
}

pub proof fn lemma_enc_header_len(h: HeaderView)
    requires
        wf_header(h),
    ensures
        enc_header(h).len() == HEADER_LEN,
{
    lemma_auto_spec_u32_to_from_le_bytes();
    lemma_auto_spec_u64_to_from_le_bytes();
}

/// A well-formed header survives its serialization exactly.
pub proof fn lemma_parse_header(h: HeaderView)
    requires
        wf_header(h),
    ensures
        parse_header(enc_header(h)) == Some(h),
{
    lemma_auto_spec_u32_to_from_le_bytes();
    lemma_auto_spec_u64_to_from_le_bytes();
    let e = enc_header(h);
    assert(e.len() == HEADER_LEN);
    assert(e.subrange(0, 4) =~= enc_u32(h.magic));
    assert(e.subrange(4, 8) =~= enc_u32(h.ver));
    assert(e.subrange(8, 16) =~= enc_u64(h.create_time));
    assert(e.subrange(16, 24) =~= enc_u64(h.modify_time));
    assert(e.subrange(24, 56) =~= h.salt);
    assert(e.subrange(56, 60) =~= enc_u32(h.env_key.len() as u32));
    let n = h.env_key.len() as u32;
    assert(e.subrange(60, 60 + n) =~= h.env_key);
    assert(parse_header(e) == Some(
        (HeaderView {
            magic: h.magic,
            ver: h.ver,
            create_time: h.create_time,
            modify_time: h.modify_time,
            salt: h.salt,
            env_key: h.env_key,
        }),
    ));
}

/// Serializes a header into its exact 256-byte image.
pub fn encode_header(h: &FileHeader) -> (r: Vec<u8>)
    requires
        wf_header(h@),
    ensures
        r@ == enc_header(h@),
        r@.len() == HEADER_LEN,
{
    proof {
        lemma_enc_header_len(h@);
    }
    let mut out: Vec<u8> = Vec::new();
    write_u32(&mut out, h.magic);
    write_u32(&mut out, h.ver);
    write_u64(&mut out, h.create_time);
    write_u64(&mut out, h.modify_time);
    let mut salt_copy = slice_to_vec(h.salt.as_slice());
    out.append(&mut salt_copy);
    write_u32(&mut out, h.env_key.len() as u32);
    let mut env_copy = slice_to_vec(h.env_key.as_slice());
    out.append(&mut env_copy);
    let ghost base = out@;
    while out.len() < HEADER_LEN
        invariant
            base.len() <= out@.len() <= HEADER_LEN,
            base.len() == 60 + h@.env_key.len(),
            out@ == base + Seq::new((out@.len() - base.len()) as nat, |i: int| 0u8),
        decreases HEADER_LEN - out@.len(),
    {
        let ghost m = (out@.len() - base.len()) as nat;
        out.push(0u8);
        proof {
            assert(Seq::new(m + 1, |i: int| 0u8) =~= Seq::new(m, |i: int| 0u8).push(0u8));
            assert(out@ =~= base + Seq::new(m + 1, |i: int| 0u8));
        }
    }
    proof {
        assert(Seq::new((out@.len() - base.len()) as nat, |i: int| 0u8) =~= zero_pad(
            h@.env_key.len(),
        ));
        assert(out@ =~= enc_header(h@));
    }
    out
}

/// Reads a header out of the first 256 bytes of a file.
pub fn decode_header(data: &[u8]) -> (r: Result<FileHeader, VaultError>)
    requires
        data@.len() == HEADER_LEN,
    ensures
        match r {
            Ok(h) => parse_header(data@) == Some(h@) && wf_header(h@),
            Err(e) => e == VaultError::CorruptData && parse_header(data@) is None,
        },
{
    let magic = u32_from_le_bytes(slice_subrange(data, 0, 4));
    let ver = u32_from_le_bytes(slice_subrange(data, 4, 8));
    let create_time = u64_from_le_bytes(slice_subrange(data, 8, 16));
    let modify_time = u64_from_le_bytes(slice_subrange(data, 16, 24));
    let salt = slice_to_vec(slice_subrange(data, 24, 56));
    let env_len = u32_from_le_bytes(slice_subrange(data, 56, 60));
    if magic != MAGIC || ver != VERSION || env_len > ENV_KEY_MAX as u32 {
        return Err(VaultError::CorruptData);
    }
    let env_key = slice_to_vec(slice_subrange(data, 60, 60 + env_len as usize));
    Ok(FileHeader { magic, ver, create_time, modify_time, salt, env_key })
}

impl FileHeader {
    /// Builds the header of a fresh vault — new salt, new wrapped data key,
    /// both timestamps set to now — together with the unlocked session.
    pub fn new(pwd: &str) -> (r: (FileHeader, VaultSession))
        requires
            encode_utf8(pwd@).len() <= DERIVE_INPUT_MAX,
        ensures
            wf_header(r.0@),
            r.1.wf(),
            unlock_spec(pwd@, r.0@.salt, r.0@.env_key) == Ok::<Seq<u8>, VaultError>(r.1.key@),
    {
        let (salt, env_key, session) = crate::envelope::create(pwd);
        let now = now_seconds();
        let fh = FileHeader {
            magic: MAGIC,
            ver: VERSION,
            create_time: now,
            modify_time: now,
            salt,
            env_key,
        };
        (fh, session)
    }
}

/// Creates a fresh vault: its header, its unlocked session, and the exact
/// 256 bytes — header only, empty body — that its file starts as.
pub fn new(pwd: &str) -> (r: (FileHeader, VaultSession, Vec<u8>))
    requires
        encode_utf8(pwd@).len() <= DERIVE_INPUT_MAX,
    ensures
        wf_header(r.0@),
        r.1.wf(),
        unlock_spec(pwd@, r.0@.salt, r.0@.env_key) == Ok::<Seq<u8>, VaultError>(r.1.key@),
        r.2@ == enc_header(r.0@),
        r.2@.len() == HEADER_LEN,
{
    let (fh, session) = FileHeader::new(pwd);
    let bytes = encode_header(&fh);
    (fh, session, bytes)
}

/// What loading a file's bytes under a password yields, as mathematics:
/// too-short data, a malformed header, a failed unwrap, a failed body
/// decryption or a malformed body each fail with their error; otherwise the
/// header, the entries and the unlocked data key.
pub open spec fn load_spec(data: Seq<u8>, pwd: Seq<char>) -> Result<
    (HeaderView, Seq<BlockView>, Seq<u8>),
    VaultError,
> {
    if data.len() < HEADER_LEN {
        Err(VaultError::TooShort)
    } else {
        match parse_header(data.take(HEADER_LEN as int)) {
            None => Err(VaultError::CorruptData),
            Some(h) => match unlock_spec(pwd, h.salt, h.env_key) {
                Err(e) => Err(e),
                Ok(key) => if data.len() == HEADER_LEN {
                    Ok((h, Seq::empty(), key))
                } else {
                    match aead_open_spec(key, data.skip(HEADER_LEN as int)) {
                        None => Err(VaultError::AuthenticationFailure),
                        Some(body) => match parse_blocks(body) {
                            None => Err(VaultError::CorruptData),
                            Some(bs) => Ok((h, bs, key)),
                        },
                    }
                },
            },
        }
    }
}

/// Loads a vault from its file bytes: header, entry list, unlocked session.
pub fn load(data: &[u8], password: &str) -> (r: Result<
    (FileHeader, Vec<Block>, VaultSession),
    VaultError,
>)
    requires
        encode_utf8(password@).len() <= DERIVE_INPUT_MAX,
    ensures
        match r {
            Ok(t) => {
                &&& load_spec(data@, password@) == Ok::<_, VaultError>(
                    (t.0@, blocks_view(t.1@), t.2.key@),
                )
                &&& wf_header(t.0@)
                &&& t.2.wf()
            },
            Err(e) => load_spec(data@, password@) == Err::<
                (HeaderView, Seq<BlockView>, Seq<u8>),
                VaultError,
            >(e),
        },
{
    if data.len() < HEADER_LEN {
        return Err(VaultError::TooShort);
    }
    let head = slice_subrange(data, 0, HEADER_LEN);
    proof {
        assert(head@ =~= data@.take(HEADER_LEN as int));
    }
    let h = match decode_header(head) {
        Ok(h) => h,
        Err(e) => {
            return Err(e);
        },
    };
    let session = match unlock(password, h.salt.as_slice(), h.env_key.as_slice()) {
        Ok(s) => s,
        Err(e) => {
            return Err(e);
        },
    };
    if data.len() == HEADER_LEN {
        let blocks: Vec<Block> = Vec::new();
        proof {
            assert(blocks_view(blocks@) =~= Seq::<BlockView>::empty());
        }
        return Ok((h, blocks, session));
    }
    let blob = slice_subrange(data, HEADER_LEN, data.len());
    proof {
        assert(blob@ =~= data@.skip(HEADER_LEN as int));
    }
    let body = match crate::cipher::decrypt(session.key.as_slice(), blob) {
        Ok(p) => p,
        Err(e) => {
            return Err(e);
        },
    };
    match decode_blocks(body.as_slice()) {
        Some(bs) => Ok((h, bs, session)),
        None => Err(VaultError::CorruptData),
    }
}

/// Serializes a whole vault snapshot: the 256-byte header, then the entry
/// list encrypted under the session's data key with a fresh nonce. An entry
/// list whose encoding exceeds the cipher's plaintext limit is rejected as a
/// user input error.
pub fn save(header: &FileHeader, blocks: &Vec<Block>, session: &VaultSession) -> (r: Result<
    Vec<u8>,
    VaultError,
>)
    requires
        wf_header(header@),
        wf_blocks(blocks_view(blocks@)),
        session.wf(),
    ensures
        match r {
            Ok(bytes) => {
                &&& enc_blocks(blocks_view(blocks@)).len() <= AEAD_PLAINTEXT_MAX
                &&& bytes@.len() == HEADER_LEN + enc_blocks(blocks_view(blocks@)).len()
                    + AEAD_OVERHEAD
                &&& bytes@.take(HEADER_LEN as int) == enc_header(header@)
                &&& aead_open_spec(session.key@, bytes@.skip(HEADER_LEN as int)) == Some(
                    enc_blocks(blocks_view(blocks@)),
                )
            },
            Err(e) => e == VaultError::UserInputError && enc_blocks(blocks_view(blocks@)).len()
                > AEAD_PLAINTEXT_MAX,
        },
{
    let body = encode_blocks(blocks);
    if body.len() as u64 > AEAD_PLAINTEXT_MAX {
        return Err(VaultError::UserInputError);
    }
    let mut blob = crate::cipher::encrypt(session.key.as_slice(), body.as_slice());
    let ghost blob_view = blob@;
    let mut out = encode_header(header);
    out.append(&mut blob);
    proof {
        assert(out@.take(HEADER_LEN as int) =~= enc_header(header@));
        assert(out@.skip(HEADER_LEN as int) =~= blob_view);
        assert(blob_view.len() <= crate::cipher::AEAD_BLOB_MAX);
        assert(aead_open_spec(session.key@, blob_view) == Some(enc_blocks(blocks_view(blocks@))));
    }
    Ok(out)
}

/// Law: a file strictly shorter than the fixed header width fails as too
/// short — and nothing else ever does — whatever the password.
pub proof fn lemma_short_file_rejected(data: Seq<u8>, pwd: Seq<char>)
    ensures
        (load_spec(data, pwd) == Err::<(HeaderView, Seq<BlockView>, Seq<u8>), VaultError>(
            VaultError::TooShort,
        )) <==> data.len() < HEADER_LEN,
{
}

/// Law: a password that does not unwrap the data key never yields entries;
/// the load fails with exactly the unwrap's failure.
pub proof fn lemma_load_needs_unlock(data: Seq<u8>, pwd: Seq<char>, h: HeaderView, e: VaultError)
    requires
        data.len() >= HEADER_LEN,
        parse_header(data.take(HEADER_LEN as int)) == Some(h),
        unlock_spec(pwd, h.salt, h.env_key) == Err::<Seq<u8>, VaultError>(e),
    ensures
        load_spec(data, pwd) == Err::<(HeaderView, Seq<BlockView>, Seq<u8>), VaultError>(e),
{
}

/// Law: creating a vault and loading its initial bytes with the same
/// password yields the very header that was written and no entries.
pub proof fn lemma_create_then_load(h: HeaderView, key: Seq<u8>, bytes: Seq<u8>, pwd: Seq<char>)
    requires
        wf_header(h),
        unlock_spec(pwd, h.salt, h.env_key) == Ok::<Seq<u8>, VaultError>(key),
        bytes == enc_header(h),
    ensures
        load_spec(bytes, pwd) == Ok::<(HeaderView, Seq<BlockView>, Seq<u8>), VaultError>(
            (h, Seq::<BlockView>::empty(), key),
        ),
{
    lemma_enc_header_len(h);
    lemma_parse_header(h);
    assert(bytes.take(HEADER_LEN as int) =~= bytes);
}

/// Law: loading what `save` wrote, with a password that unwraps the same
/// data key, yields exactly the saved header and entries.
pub proof fn lemma_save_then_load(
    h: HeaderView,
    blocks: Seq<BlockView>,
    key: Seq<u8>,
    bytes: Seq<u8>,
    pwd: Seq<char>,
)
    requires
        wf_header(h),
        wf_blocks(blocks),
        unlock_spec(pwd, h.salt, h.env_key) == Ok::<Seq<u8>, VaultError>(key),
        bytes.len() == HEADER_LEN + enc_blocks(blocks).len() + AEAD_OVERHEAD,
        bytes.take(HEADER_LEN as int) == enc_header(h),
        aead_open_spec(key, bytes.skip(HEADER_LEN as int)) == Some(enc_blocks(blocks)),
    ensures
        load_spec(bytes, pwd) == Ok::<(HeaderView, Seq<BlockView>, Seq<u8>), VaultError>(
            (h, blocks, key),
        ),
{
    lemma_auto_spec_u32_to_from_le_bytes();
    lemma_parse_header(h);
    lemma_parse_blocks(blocks);
    assert(enc_blocks(blocks).len() >= 4);
    assert(bytes.len() > HEADER_LEN);
}

} // verus!
