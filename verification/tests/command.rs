use myvault::errors::VaultError;
use myvault::model::{add_kv, change_kv, find_kv, set_primary, Block};

fn entry() -> Block {
    Block {
        title: String::from("mail"),
        account: String::from("bob"),
        encrypted_pwd: vec![1, 2, 3],
        multi_key: Vec::new(),
    }
}

#[test]
fn test_subcommand() {
    // The change sub-command's rules: an existing extra secret is replaced in
    // place, a missing one is a reported user error.
    let mut b = entry();
    add_kv(&mut b, String::from("pin"), vec![4]).unwrap();
    assert_eq!(change_kv(&mut b, "pin", vec![5]), Ok(()));
    assert_eq!(find_kv(&b, "pin").unwrap().value, vec![5]);
    assert_eq!(change_kv(&mut b, "puk", vec![6]), Err(VaultError::UserInputError));
    set_primary(&mut b, vec![7, 8]);
    assert_eq!(b.encrypted_pwd, vec![7, 8]);
}

#[test]
fn test_no_app_name() {
    // Lookups by a name nothing carries stay empty and touch nothing.
    let mut b = entry();
    assert!(find_kv(&b, "pin").is_none());
    assert_eq!(change_kv(&mut b, "pin", vec![9]), Err(VaultError::UserInputError));
    assert_eq!(b, entry());
    // Names match case-sensitively and exactly.
    add_kv(&mut b, String::from("Pin"), vec![1]).unwrap();
    assert!(find_kv(&b, "pin").is_none());
    assert!(find_kv(&b, "Pin").is_some());
}
