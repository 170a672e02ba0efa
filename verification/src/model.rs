use vstd::prelude::*;

use crate::errors::VaultError;

verus! {

/// One named extra secret inside an entry: a case-sensitive name, unique
/// within its entry, and the ciphertext of the secret value.
#[derive(Debug, PartialEq, Eq)]
pub struct KV {
    pub key: String,
    pub value: Vec<u8>,
}

/// Mathematical image of a `KV`.
pub struct KVView {
    pub key: Seq<char>,
    pub value: Seq<u8>,
}

impl View for KV {
    type V = KVView;

    open spec fn view(&self) -> KVView {
        KVView { key: self.key@, value: self.value@ }
    }
}

/// One titled entry: a display label, an account identifier, the ciphertext
/// of the primary secret, and an ordered list of named extra secrets.
#[derive(Debug, PartialEq, Eq)]
pub struct Block {
    pub title: String,
    pub account: String,
    pub encrypted_pwd: Vec<u8>,
    pub multi_key: Vec<KV>,
}

/// Mathematical image of a `Block`.
pub struct BlockView {
    pub title: Seq<char>,
    pub account: Seq<char>,
    pub encrypted_pwd: Seq<u8>,
    pub multi_key: Seq<KVView>,
}

impl View for Block {
    type V = BlockView;

    open spec fn view(&self) -> BlockView {
        BlockView {
            title: self.title@,
            account: self.account@,
            encrypted_pwd: self.encrypted_pwd@,
            multi_key: Seq::new(self.multi_key@.len(), |i: int| self.multi_key@[i]@),
        }
    }
}

/// Image of a whole entry list.
pub open spec fn blocks_view(blocks: Seq<Block>) -> Seq<BlockView> {
    Seq::new(blocks.len(), |i: int| blocks[i]@)
}

/// Image of a key-value vector.
pub open spec fn kvs_view(kvs: Seq<KV>) -> Seq<KVView> {
    Seq::new(kvs.len(), |i: int| kvs[i]@)
}

/// The index `i` holds the first occurrence of `name` in `kvs`.
pub open spec fn kv_first_match(kvs: Seq<KVView>, name: Seq<char>, i: int) -> bool {
    &&& 0 <= i < kvs.len()
    &&& kvs[i].key == name
    &&& forall|j: int| 0 <= j < i ==> kvs[j].key != name
}

/// Some index of `kvs` holds `name`.
pub open spec fn kv_has_name(kvs: Seq<KVView>, name: Seq<char>) -> bool {
    exists|i: int| 0 <= i < kvs.len() && kvs[i].key == name
}

/// Finds an entry by its 1-based external index; out-of-range indices are a
/// reported user error, never fatal.
pub fn find_block(blocks: &Vec<Block>, index: usize) -> (r: Option<&Block>)
    ensures
        match r {
            Some(b) => 1 <= index <= blocks@.len() && *b == blocks@[index - 1],
            None => index == 0 || index > blocks@.len(),
        },
{
    if index == 0 || index > blocks.len() {
        None
    } else {
        Some(&blocks[index - 1])
    }
}

/// Finds the first extra secret of `block` whose name equals `name` exactly
/// (case-sensitive).
pub fn find_kv<'a>(block: &'a Block, name: &str) -> (r: Option<&'a KV>)
    ensures
        match r {
            Some(kv) => exists|i: int|
                kv_first_match(block@.multi_key, name@, i) && kv@ == block@.multi_key[i],
            None => !kv_has_name(block@.multi_key, name@),
        },
{
    let name_owned: String = name.to_owned();
    let mut i: usize = 0;
    while i < block.multi_key.len()
        invariant
            i <= block@.multi_key.len(),
            name_owned@ == name@,
            forall|j: int| 0 <= j < i ==> block@.multi_key[j].key != name@,
        decreases block@.multi_key.len() - i,
    {
        if block.multi_key[i].key == name_owned {
            assert(kv_first_match(block@.multi_key, name@, i as int));
            return Some(&block.multi_key[i]);
        }
        i = i + 1;
    }
    None
}

/// Appends a new extra secret to `block` unless one with the same name is
/// already there; a duplicate name is rejected and the entry is unchanged.
pub fn add_kv(block: &mut Block, name: String, value: Vec<u8>) -> (r: Result<(), VaultError>)
    ensures
        match r {
            Ok(()) => !kv_has_name(old(block)@.multi_key, name@)
                && final(block)@.multi_key == old(block)@.multi_key.push(
                    (KVView { key: name@, value: value@ }),
                )
                && final(block)@.title == old(block)@.title
                && final(block)@.account == old(block)@.account
                && final(block)@.encrypted_pwd == old(block)@.encrypted_pwd,
            Err(e) => e == VaultError::UserInputError
                && kv_has_name(old(block)@.multi_key, name@)
                && final(block)@ == old(block)@,
        },
{
    if find_kv(block, name.as_str()).is_some() {
        return Err(VaultError::UserInputError);
    }
    let ghost pre = block@.multi_key;
    let ghost namev = name@;
    let ghost valuev = value@;
    block.multi_key.push(KV { key: name, value });
    proof {
        assert(block@.multi_key =~= pre.push((KVView { key: namev, value: valuev })));
    }
    Ok(())
}

/// Appends a fresh entry (no extra secrets yet) to the entry list.
pub fn add_block(blocks: &mut Vec<Block>, title: String, account: String, encrypted_pwd: Vec<u8>)
    ensures
        blocks_view(final(blocks)@) == blocks_view(old(blocks)@).push(
            (BlockView {
                title: title@,
                account: account@,
                encrypted_pwd: encrypted_pwd@,
                multi_key: Seq::empty(),
            }),
        ),
{
    let ghost pre = blocks@;
    let b = Block { title, account, encrypted_pwd, multi_key: Vec::new() };
    let ghost bv = b@;
    blocks.push(b);
    proof {
        assert(bv.multi_key =~= Seq::<KVView>::empty());
        assert(blocks_view(blocks@) =~= blocks_view(pre).push(bv));
    }
}

/// Replaces the ciphertext of the primary secret of `block`.
pub fn set_primary(block: &mut Block, encrypted_pwd: Vec<u8>)
    ensures
        final(block)@ == (BlockView { encrypted_pwd: encrypted_pwd@, ..old(block)@ }),
{
    block.encrypted_pwd = encrypted_pwd;
}

/// Replaces the value of the first extra secret named `name`; an absent name
/// is rejected and the entry is unchanged.
pub fn change_kv(block: &mut Block, name: &str, new_value: Vec<u8>) -> (r: Result<
    (),
    VaultError,
>)
    ensures
        match r {
            Ok(()) => exists|i: int|
                kv_first_match(old(block)@.multi_key, name@, i)
                    && final(block)@.multi_key == old(block)@.multi_key.update(
                    i,
                    (KVView { key: old(block)@.multi_key[i].key, value: new_value@ }),
                )
                && final(block)@.title == old(block)@.title
                && final(block)@.account == old(block)@.account
                && final(block)@.encrypted_pwd == old(block)@.encrypted_pwd,
            Err(e) => e == VaultError::UserInputError
                && !kv_has_name(old(block)@.multi_key, name@)
                && final(block)@ == old(block)@,
        },
{
    let name_owned: String = name.to_owned();
    let mut i: usize = 0;
    while i < block.multi_key.len()
        invariant
            i <= block@.multi_key.len(),
            name_owned@ == name@,
            block@ == old(block)@,
            forall|j: int| 0 <= j < i ==> block@.multi_key[j].key != name@,
        decreases block@.multi_key.len() - i,
    {
        if block.multi_key[i].key == name_owned {
            let ghost pre = block@;
            let ghost idx = i as int;
            let ghost valuev = new_value@;
            let kv = KV { key: name_owned, value: new_value };
            block.multi_key.set(i, kv);
            proof {
                assert(kv_first_match(pre.multi_key, name@, idx));
                assert(block@.multi_key =~= pre.multi_key.update(
                    idx,
                    (KVView { key: pre.multi_key[idx].key, value: valuev }),
                ));
            }
            return Ok(());
        }
        i = i + 1;
    }
    Err(VaultError::UserInputError)
}

} // verus!
