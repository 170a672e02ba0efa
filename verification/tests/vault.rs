use myvault::cipher::{decrypt, encrypt};
use myvault::codec::{decode_blocks, encode_blocks};
use myvault::errors::VaultError;
use myvault::file::{encode_header, load, new, save, FileHeader, HEADER_LEN, MAGIC, VERSION};
use myvault::model::{add_block, add_kv, find_block, find_kv, Block, KV};

#[test]
fn create_then_load_matches_header() {
    let (fh, _session, bytes) = new("P");
    assert_eq!(bytes.len(), HEADER_LEN);
    assert_eq!(bytes, encode_header(&fh));
    let (loaded, blocks, _s) = load(&bytes, "P").expect("load should succeed");
    assert_eq!(loaded.magic, MAGIC);
    assert_eq!(loaded.ver, VERSION);
    assert_eq!(loaded.salt, fh.salt);
    assert_eq!(loaded, fh);
    assert!(blocks.is_empty());
}

#[test]
fn load_wrong_password_fails() {
    let (fh, _session) = FileHeader::new("P");
    let bytes = encode_header(&fh);
    match load(&bytes, "not-P") {
        Err(VaultError::AuthenticationFailure) => {}
        other => panic!("expected AuthenticationFailure, got {:?}", other.map(|_| ())),
    }
}

#[test]
fn too_short_file_fails() {
    for len in [0usize, 1, 17, 100, 254, 255] {
        let data = vec![0u8; len];
        match load(&data, "P") {
            Err(VaultError::TooShort) => {}
            other => panic!("len {}: expected TooShort, got {:?}", len, other.map(|_| ())),
        }
    }
}

#[test]
fn garbage_header_fails_as_corrupt() {
    let data = vec![0xABu8; HEADER_LEN];
    match load(&data, "P") {
        Err(VaultError::CorruptData) => {}
        other => panic!("expected CorruptData, got {:?}", other.map(|_| ())),
    }
}

#[test]
fn add_save_load_decrypts_primary_secret() {
    let (fh, session) = FileHeader::new("P");
    let mut blocks: Vec<Block> = Vec::new();
    let encrypted = encrypt(&session.key, b"s3cret");
    add_block(
        &mut blocks,
        String::from("bank"),
        String::from("alice"),
        encrypted,
    );
    let bytes = save(&fh, &blocks, &session).expect("save should succeed");
    let (_h, loaded, s2) = load(&bytes, "P").expect("load should succeed");
    assert_eq!(loaded.len(), 1);
    assert_eq!(loaded[0].title, "bank");
    assert_eq!(loaded[0].account, "alice");
    let secret = decrypt(&s2.key, &loaded[0].encrypted_pwd).expect("primary secret");
    assert_eq!(secret, b"s3cret".to_vec());
}

#[test]
fn extra_secret_round_trips_and_duplicate_is_rejected() {
    let (fh, session) = FileHeader::new("P");
    let mut blocks: Vec<Block> = Vec::new();
    let encrypted = encrypt(&session.key, b"s3cret");
    add_block(
        &mut blocks,
        String::from("bank"),
        String::from("alice"),
        encrypted,
    );
    let pin = encrypt(&session.key, b"1234");
    add_kv(&mut blocks[0], String::from("pin"), pin).expect("first add");
    let bytes = save(&fh, &blocks, &session).expect("save");
    let (_h, mut loaded, s2) = load(&bytes, "P").expect("load");
    let kv = find_kv(&loaded[0], "pin").expect("pin should be there");
    assert_eq!(decrypt(&s2.key, &kv.value).expect("pin secret"), b"1234".to_vec());

    let second = encrypt(&s2.key, b"9999");
    assert_eq!(
        add_kv(&mut loaded[0], String::from("pin"), second),
        Err(VaultError::UserInputError)
    );
    let kv = find_kv(&loaded[0], "pin").expect("pin still there");
    assert_eq!(decrypt(&s2.key, &kv.value).expect("pin secret"), b"1234".to_vec());
}

#[test]
fn tampered_body_fails_authentication() {
    let (fh, session) = FileHeader::new("P");
    let mut blocks: Vec<Block> = Vec::new();
    add_block(
        &mut blocks,
        String::from("t"),
        String::from("a"),
        encrypt(&session.key, b"x"),
    );
    let mut bytes = save(&fh, &blocks, &session).expect("save");
    let last = bytes.len() - 1;
    bytes[last] ^= 0x80;
    match load(&bytes, "P") {
        Err(VaultError::AuthenticationFailure) => {}
        other => panic!("expected AuthenticationFailure, got {:?}", other.map(|_| ())),
    }
}

#[test]
fn block_codec_round_trips_unicode() {
    let blocks = vec![
        Block {
            title: String::from("bänk €ntry"),
            account: String::from("ألِس"),
            encrypted_pwd: vec![0, 1, 2, 255],
            multi_key: vec![
                KV { key: String::from("pin"), value: vec![9, 9, 9] },
                KV { key: String::from("数字"), value: vec![] },
            ],
        },
        Block {
            title: String::new(),
            account: String::new(),
            encrypted_pwd: vec![],
            multi_key: vec![],
        },
    ];
    let bytes = encode_blocks(&blocks);
    let decoded = decode_blocks(&bytes).expect("decode");
    assert_eq!(decoded, blocks);
}

#[test]
fn block_codec_rejects_trailing_garbage() {
    let blocks: Vec<Block> = Vec::new();
    let mut bytes = encode_blocks(&blocks);
    bytes.push(0);
    assert!(decode_blocks(&bytes).is_none());
    assert!(decode_blocks(&[1, 2, 3]).is_none());
}

#[test]
fn unknown_version_fails_as_corrupt() {
    let (_fh, _s, mut bytes) = new("P");
    bytes[4] = 0xFF; // low byte of the little-endian version field
    match load(&bytes, "P") {
        Err(VaultError::CorruptData) => {}
        other => panic!("expected CorruptData, got {:?}", other.map(|_| ())),
    }
}

#[test]
fn oversized_wrapped_key_length_fails_as_corrupt() {
    let (_fh, _s, mut bytes) = new("P");
    for b in &mut bytes[56..60] {
        *b = 0xFF; // wrapped-key length field
    }
    match load(&bytes, "P") {
        Err(VaultError::CorruptData) => {}
        other => panic!("expected CorruptData, got {:?}", other.map(|_| ())),
    }
}

#[test]
fn tampered_salt_fails_authentication() {
    let (_fh, _s, mut bytes) = new("P");
    bytes[24] ^= 0x01; // first salt byte: the derived key no longer matches
    match load(&bytes, "P") {
        Err(VaultError::AuthenticationFailure) => {}
        other => panic!("expected AuthenticationFailure, got {:?}", other.map(|_| ())),
    }
}

#[test]
fn wrong_password_never_returns_entries() {
    let (fh, session) = FileHeader::new("P");
    let mut blocks: Vec<Block> = Vec::new();
    add_block(
        &mut blocks,
        String::from("bank"),
        String::from("alice"),
        encrypt(&session.key, b"s3cret"),
    );
    let bytes = save(&fh, &blocks, &session).expect("save");
    match load(&bytes, "p") {
        Err(VaultError::AuthenticationFailure) => {}
        other => panic!("expected AuthenticationFailure, got {:?}", other.map(|_| ())),
    }
}

#[test]
fn find_block_is_one_based_and_checked() {
    let mut blocks: Vec<Block> = Vec::new();
    add_block(&mut blocks, String::from("a"), String::from("x"), vec![1]);
    add_block(&mut blocks, String::from("b"), String::from("y"), vec![2]);
    assert!(find_block(&blocks, 0).is_none());
    assert_eq!(find_block(&blocks, 1).unwrap().title, "a");
    assert_eq!(find_block(&blocks, 2).unwrap().title, "b");
    assert!(find_block(&blocks, 3).is_none());
}
