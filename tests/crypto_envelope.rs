use fetch::crypto::{Crypto, KeyDerivationStrength, NONCE_LENGTH, SALT_LENGTH, TOKEN_LENGTH};
use fetch::error::Error;

fn armed(byte: u8) -> Crypto {
    let mut c = Crypto::new();
    c.unlock(&[byte; 32]).unwrap();
    c
}

#[test]
fn round_trip_restores_plaintext() {
    let c = armed(7);
    for payload in [b"".to_vec(), b"hello".to_vec(), vec![0xDE, 0xAD], vec![42u8; 5000]] {
        let sealed = c.encrypt(&payload).unwrap();
        assert_eq!(c.decrypt(&sealed).unwrap(), payload);
    }
}

#[test]
fn two_encryptions_differ() {
    let c = armed(7);
    let a = c.encrypt(b"same").unwrap();
    let b = c.encrypt(b"same").unwrap();
    assert_ne!(a, b);
    assert_ne!(a[..NONCE_LENGTH], b[..NONCE_LENGTH]);
}

#[test]
fn envelope_is_nonce_ciphertext_tag() {
    let c = armed(1);
    let sealed = c.encrypt(b"hello").unwrap();
    assert_eq!(sealed.len(), 12 + 5 + 16);
    assert_ne!(&sealed[12..17], b"hello");
}

#[test]
fn encrypt_when_locked_fails() {
    let c = Crypto::new();
    assert!(matches!(c.encrypt(b"x"), Err(Error::VaultLocked)));
    assert!(matches!(c.decrypt(&[0u8; 40]), Err(Error::VaultLocked)));
}

#[test]
fn decrypt_rejects_short_input() {
    let c = armed(1);
    assert!(matches!(c.decrypt(&[0u8; 11]), Err(Error::Decryption(_))));
}

#[test]
fn decrypt_rejects_tampering() {
    let c = armed(1);
    let mut sealed = c.encrypt(b"secret").unwrap();
    let last = sealed.len() - 1;
    sealed[last] ^= 1;
    assert!(matches!(c.decrypt(&sealed), Err(Error::Decryption(_))));
}

#[test]
fn decrypt_rejects_other_key() {
    let sealed = armed(1).encrypt(b"secret").unwrap();
    assert!(matches!(armed(2).decrypt(&sealed), Err(Error::Decryption(_))));
}

#[test]
fn unlock_rejects_wrong_key_length() {
    let mut c = Crypto::new();
    assert!(matches!(c.unlock(&[1u8; 16]), Err(Error::Crypto(_))));
    assert!(!c.is_unlocked());
}

#[test]
fn lock_disarms_cipher() {
    let mut c = armed(3);
    assert!(c.is_unlocked());
    c.lock();
    assert!(!c.is_unlocked());
    c.lock();
    assert!(!c.is_unlocked());
}

#[test]
fn strength_profiles_are_exact() {
    assert_eq!(KeyDerivationStrength::Fast.get_params(), (262144, 2, 2));
    assert_eq!(KeyDerivationStrength::Recommended.get_params(), (524288, 3, 4));
    assert_eq!(KeyDerivationStrength::Paranoid.get_params(), (1048576, 4, 4));
    assert_eq!(KeyDerivationStrength::default(), KeyDerivationStrength::Recommended);
    assert_eq!(KeyDerivationStrength::Paranoid.as_meta_str(), "Paranoid");
}

#[test]
fn random_material_has_fixed_lengths() {
    let a = Crypto::generate_salt();
    let b = Crypto::generate_salt();
    assert_eq!(a.len(), SALT_LENGTH);
    assert_ne!(a, b);
    assert_eq!(Crypto::generate_verification_token().len(), TOKEN_LENGTH);
}

#[test]
fn derive_key_gives_a_32_byte_key() {
    let c = Crypto::new();
    let k = c.derive_key("pw", &[9u8; 16], KeyDerivationStrength::Fast).unwrap();
    assert_eq!(k.len(), 32);
    assert_ne!(&k[..2], b"pw");
    assert_ne!(k, vec![0u8; 32]);
}

#[test]
fn derive_key_rejects_short_salt() {
    let c = Crypto::new();
    assert!(matches!(c.derive_key("pw", &[1u8; 4], KeyDerivationStrength::Fast), Err(Error::KeyDerivation(_))));
}
