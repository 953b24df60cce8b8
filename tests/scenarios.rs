use fetch::columns::{decrypt_row, encrypt_item, reencrypt_payload};
use fetch::crypto::{Crypto, KeyDerivationStrength};
use fetch::error::Error;
use fetch::item::{arrange_listing, SortOrder, Timestamp, VaultItem};
use fetch::tags::{collect_all_tags, rename_tag_in_items};
use fetch::tree::collect_descendants;
use fetch::vault::{check_password, initialize_vault, parse_strength, prepare_rotation, unlock_vault, vault_status};

const SALT: [u8; 16] = [3u8; 16];
const NEW_SALT: [u8; 16] = [4u8; 16];

fn text_item(id: &str, name: &str, tags: &[&str]) -> VaultItem {
    VaultItem {
        id: id.to_string(),
        parent_id: None,
        name: name.to_string(),
        data_path: format!("data-{}", id),
        item_type: "text".to_string(),
        folder_type: None,
        tags: tags.iter().map(|t| t.to_string()).collect(),
        created_at: Timestamp { secs: 1_700_000_000, nanos: 0 },
        updated_at: Timestamp { secs: 1_700_000_000, nanos: 0 },
    }
}

#[test]
fn s1_init_add_read() {
    let mut crypto = Crypto::new();
    let token = Crypto::generate_verification_token();
    let verify = initialize_vault(&mut crypto, false, "pw", KeyDerivationStrength::Fast, &SALT, &token).unwrap();
    assert!(crypto.is_unlocked());
    assert_eq!(crypto.decrypt(&verify).unwrap(), token);
    let item = text_item("n1", "note", &["x"]);
    let blob = crypto.encrypt(b"hi").unwrap();
    let row = encrypt_item(&item, &crypto).unwrap();
    let listed = arrange_listing(vec![decrypt_row(&row, &crypto).unwrap()], None, None);
    assert_eq!(listed.len(), 1);
    assert_eq!(listed[0].name, "note");
    assert_eq!(listed[0].item_type, "text");
    assert_eq!(listed[0].tags, vec!["x".to_string()]);
    assert_eq!(crypto.decrypt(&blob).unwrap(), b"hi".to_vec());
}

#[test]
fn s1_initialize_twice_is_refused() {
    let mut crypto = Crypto::new();
    let r = initialize_vault(&mut crypto, true, "pw", KeyDerivationStrength::Fast, &SALT, &[1u8; 32]);
    assert!(matches!(r, Err(Error::VaultAlreadyInitialized)));
    assert!(!crypto.is_unlocked());
}

#[test]
fn s2_wrong_password() {
    let mut other = Crypto::new();
    other.unlock(&[6u8; 32]).unwrap();
    let verify = other.encrypt(&[1u8; 32]).unwrap();
    let mut crypto = Crypto::new();
    crypto.unlock(&[7u8; 32]).unwrap();
    let r = unlock_vault(&mut crypto, "PW", &SALT, KeyDerivationStrength::Fast, &verify);
    assert!(matches!(r, Err(Error::InvalidMasterKey)));
    let status = vault_status(true, &crypto, KeyDerivationStrength::Fast);
    assert!(!status.unlocked);
    assert!(status.initialized);
    assert_eq!(status.strength, Some(KeyDerivationStrength::Fast));
}

#[test]
fn s2_bad_salt_is_key_derivation_error() {
    let mut crypto = Crypto::new();
    let r = unlock_vault(&mut crypto, "pw", &[1u8; 2], KeyDerivationStrength::Fast, &[0u8; 60]);
    assert!(matches!(r, Err(Error::KeyDerivation(_))));
    assert!(!crypto.is_unlocked());
}

#[test]
fn s3_recursive_delete() {
    let links = vec![
        ("F".to_string(), None),
        ("A".to_string(), Some("F".to_string())),
        ("B".to_string(), None),
    ];
    let doomed = collect_descendants("F", &links);
    assert_eq!(doomed, vec!["F".to_string(), "A".to_string()]);
    let remaining: Vec<&String> = links.iter().map(|l| &l.0).filter(|id| !doomed.contains(id)).collect();
    assert_eq!(remaining, vec![&"B".to_string()]);
}

#[test]
fn s4_tag_rename() {
    let items = vec![text_item("1", "one", &["a", "b"]), text_item("2", "two", &["b", "c"])];
    let now = Timestamp { secs: 1_800_000_000, nanos: 0 };
    let (items, changed) = rename_tag_in_items(items, "b", "B", now);
    assert_eq!(changed, vec![true, true]);
    assert_eq!(items[0].tags, vec!["a".to_string(), "B".to_string()]);
    assert_eq!(items[1].tags, vec!["B".to_string(), "c".to_string()]);
    assert_eq!(items[0].updated_at, now);
    assert_eq!(collect_all_tags(&items), vec!["B".to_string(), "a".to_string(), "c".to_string()]);
}

#[test]
fn s5_rotation_moves_verify_and_payloads() {
    let mut old = Crypto::new();
    old.unlock(&[1u8; 32]).unwrap();
    let mut new = Crypto::new();
    new.unlock(&[2u8; 32]).unwrap();
    let token = [5u8; 32];
    let verify = old.encrypt(&token).unwrap();
    let blobs = vec![old.encrypt(b"first").unwrap(), old.encrypt(b"second").unwrap()];
    let moved: Vec<Vec<u8>> = blobs.iter().map(|b| reencrypt_payload(b, &old, &new).unwrap()).collect();
    let new_verify = reencrypt_payload(&verify, &old, &new).unwrap();
    assert_eq!(new.decrypt(&new_verify).unwrap(), token.to_vec());
    assert!(matches!(old.decrypt(&new_verify), Err(Error::Decryption(_))));
    assert_eq!(new.decrypt(&moved[0]).unwrap(), b"first".to_vec());
    assert_eq!(new.decrypt(&moved[1]).unwrap(), b"second".to_vec());
    let status = vault_status(true, &new, KeyDerivationStrength::Paranoid);
    assert_eq!(status.strength, Some(KeyDerivationStrength::Paranoid));
    assert!(status.unlocked);
}

#[test]
fn s5_rotation_refuses_wrong_current_password() {
    let r = prepare_rotation("nope", "new", None, &SALT, KeyDerivationStrength::Fast, &[0u8; 60], &NEW_SALT);
    assert!(matches!(r, Err(Error::InvalidMasterKey)));
}

#[test]
fn s6_url_sort() {
    let items = vec![text_item("1", "https://www.b.com", &[]), text_item("2", "a.com", &[]), text_item("3", "c.com", &[])];
    let out = arrange_listing(items, None, Some(SortOrder::NameAsc));
    let names: Vec<&str> = out.iter().map(|i| i.name.as_str()).collect();
    assert_eq!(names, vec!["a.com", "https://www.b.com", "c.com"]);
}

#[test]
fn stored_strength_names_read_back() {
    assert_eq!(parse_strength(Some("Fast")), KeyDerivationStrength::Fast);
    assert_eq!(parse_strength(Some("Paranoid")), KeyDerivationStrength::Paranoid);
    assert_eq!(parse_strength(Some("fast")), KeyDerivationStrength::Recommended);
    assert_eq!(parse_strength(None), KeyDerivationStrength::Recommended);
}

#[test]
fn privileged_check_rejects_wrong_password() {
    let mut other = Crypto::new();
    other.unlock(&[6u8; 32]).unwrap();
    let verify = other.encrypt(&[1u8; 32]).unwrap();
    let r = check_password("pw", &SALT, KeyDerivationStrength::Fast, &verify);
    assert!(matches!(r, Err(Error::InvalidMasterKey)));
}
