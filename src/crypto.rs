use aes_gcm::aead::{Aead, KeyInit};
use aes_gcm::{Aes256Gcm, Key, Nonce};
use rand::rngs::OsRng;
use rand::RngCore;
use vstd::prelude::*;
use vstd::utf8::encode_utf8;
use zeroize::Zeroize;

use crate::error::{detail, Error, Result};

verus! {

pub const SALT_LENGTH: usize = 16;

pub const NONCE_LENGTH: usize = 12;

pub const TOKEN_LENGTH: usize = 32;

pub const KEY_LENGTH: usize = 32;

pub const TAG_LENGTH: usize = 16;

/// The largest plaintext AES-256-GCM accepts, in bytes.
pub const MAX_PLAINTEXT_LEN: u64 = 68719476736;

/// The key Argon2id (version 1.3) derives from a password and a salt under the
/// given memory, iteration and parallelism costs, with the given output length.
pub uninterp spec fn argon2id_key(
    password: Seq<u8>,
    salt: Seq<u8>,
    m_cost: u32,
    t_cost: u32,
    p_cost: u32,
    out_len: usize,
) -> Seq<u8>;

/// What AES-256-GCM decryption (no associated data) yields for a key, a nonce
/// and a ciphertext with its trailing tag: the plaintext, or nothing when the
/// tag does not verify.
pub uninterp spec fn aes256gcm_open_of(key: Seq<u8>, nonce: Seq<u8>, ciphertext: Seq<u8>) -> Option<
    Seq<u8>,
>;

/// Relies on `argon2::Params::new` and `Argon2::hash_password_into` (Argon2id,
/// version 0x13): the parameter checks of `Params::new` and the salt and
/// password length checks of `hash_password_into` are the only failures.
#[verifier::external_body]
fn argon2id_derive(
    password: &[u8],
    salt: &[u8],
    m_cost: u32,
    t_cost: u32,
    p_cost: u32,
    out_len: usize,
) -> (r: Option<Vec<u8>>)
    requires
        p_cost <= 0xFFFFFF,
    ensures
        r is Some <==> (8 <= m_cost && 8 * p_cost <= m_cost && 1 <= t_cost && 1 <= p_cost && 4
            <= out_len <= 0xFFFF_FFFF && 8 <= salt@.len() <= 0xFFFF_FFFF && password@.len()
            <= 0xFFFF_FFFF),
        r matches Some(k) ==> k@ == argon2id_key(password@, salt@, m_cost, t_cost, p_cost, out_len)
            && k@.len() == out_len,
{
    let params = argon2::Params::new(m_cost, t_cost, p_cost, Some(out_len)).ok()?;
    let mut out = vec![0u8; out_len];
    argon2::Argon2::new(argon2::Algorithm::Argon2id, argon2::Version::V0x13, params)
        .hash_password_into(password, salt, &mut out)
        .ok()?;
    Some(out)
}

/// Relies on `Aead::encrypt` of `Aes256Gcm`: plaintexts up to 2^36 bytes are
/// accepted, the output is the ciphertext followed by a 16-byte tag, and
/// decrypting it under the same key and nonce gives the plaintext back.
#[verifier::external_body]
fn aes256gcm_seal(key: &[u8], nonce: &[u8], plaintext: &[u8]) -> (r: Option<Vec<u8>>)
    requires
        key@.len() == 32,
        nonce@.len() == 12,
    ensures
        r is Some <==> plaintext@.len() <= MAX_PLAINTEXT_LEN,
        r matches Some(c) ==> c@.len() == plaintext@.len() + 16 && aes256gcm_open_of(
            key@,
            nonce@,
            c@,
        ) == Some(plaintext@),
{
    Aes256Gcm::new(Key::<Aes256Gcm>::from_slice(key)).encrypt(Nonce::from_slice(nonce), plaintext).ok()
}

/// Relies on `Aead::decrypt` of `Aes256Gcm`: verify-then-decrypt, with a
/// constant-time tag comparison.
#[verifier::external_body]
fn aes256gcm_open(key: &[u8], nonce: &[u8], ciphertext: &[u8]) -> (r: Option<Vec<u8>>)
    requires
        key@.len() == 32,
        nonce@.len() == 12,
    ensures
        r is Some <==> aes256gcm_open_of(key@, nonce@, ciphertext@) is Some,
        r matches Some(p) ==> aes256gcm_open_of(key@, nonce@, ciphertext@) == Some(p@),
{
    Aes256Gcm::new(Key::<Aes256Gcm>::from_slice(key)).decrypt(Nonce::from_slice(nonce), ciphertext).ok()
}

/// Relies on `OsRng::fill_bytes` of rand: the buffer is filled from the
/// operating system's secure generator.
#[verifier::external_body]
pub(crate) fn os_random_bytes(len: usize) -> (r: Vec<u8>)
    ensures
        r@.len() == len,
{
    let mut buf = vec![0u8; len];
    OsRng.fill_bytes(&mut buf);
    buf
}

/// Relies on zeroize's `Zeroize` for `Vec<u8>`: every byte and the spare
/// capacity are overwritten with zeros, then the vector is cleared.
#[verifier::external_body]
fn wipe(buf: &mut Vec<u8>)
    ensures
        final(buf)@.len() == 0,
    opens_invariants none
    no_unwind
{
    buf.zeroize();
}

/// How expensive key derivation is.
#[derive(Debug, Clone, Copy, PartialEq, Eq)]
pub enum KeyDerivationStrength {
    Fast,
    Recommended,
    Paranoid,
}

impl Default for KeyDerivationStrength {
    fn default() -> (r: Self)
        ensures
            r == KeyDerivationStrength::Recommended,
    {
        KeyDerivationStrength::Recommended
    }
}

impl KeyDerivationStrength {
    /// Argon2id memory (KiB), iterations and parallelism of each profile.
    pub open spec fn costs(self) -> (u32, u32, u32) {
        match self {
            KeyDerivationStrength::Fast => (262144, 2, 2),
            KeyDerivationStrength::Recommended => (524288, 3, 4),
            KeyDerivationStrength::Paranoid => (1048576, 4, 4),
        }
    }

    /// The profile's Argon2id costs: memory in KiB, iterations, parallelism.
    pub fn get_params(&self) -> (r: (u32, u32, u32))
        ensures
            r == self.costs(),
    {
        match self {
            KeyDerivationStrength::Fast => (256 * 1024, 2, 2),
            KeyDerivationStrength::Recommended => (512 * 1024, 3, 4),
            KeyDerivationStrength::Paranoid => (1024 * 1024, 4, 4),
        }
    }

    pub open spec fn meta_text(self) -> Seq<char> {
        match self {
            KeyDerivationStrength::Fast => "Fast"@,
            KeyDerivationStrength::Recommended => "Recommended"@,
            KeyDerivationStrength::Paranoid => "Paranoid"@,
        }
    }

    /// The name under which the profile is kept in the vault's settings.
    pub fn as_meta_str(&self) -> (r: &'static str)
        ensures
            r@ == self.meta_text(),
    {
        match self {
            KeyDerivationStrength::Fast => "Fast",
            KeyDerivationStrength::Recommended => "Recommended",
            KeyDerivationStrength::Paranoid => "Paranoid",
        }
    }
}

/// The key derived from `password` and `salt` under `strength`.
pub open spec fn derived_key(password: Seq<u8>, salt: Seq<u8>, strength: KeyDerivationStrength) -> Seq<
    u8,
> {
    argon2id_key(
        password,
        salt,
        strength.costs().0,
        strength.costs().1,
        strength.costs().2,
        KEY_LENGTH,
    )
}

/// Whether a key can be derived at all from inputs of these lengths.
pub open spec fn derivable(password: Seq<u8>, salt: Seq<u8>) -> bool {
    8 <= salt.len() <= 0xFFFF_FFFF && password.len() <= 0xFFFF_FFFF
}

/// The plaintext held in an envelope `nonce ‖ ciphertext ‖ tag` under `key`.
pub open spec fn opened(key: Seq<u8>, payload: Seq<u8>) -> Option<Seq<u8>> {
    if payload.len() < NONCE_LENGTH {
        None
    } else {
        aes256gcm_open_of(
            key,
            payload.subrange(0, NONCE_LENGTH as int),
            payload.subrange(NONCE_LENGTH as int, payload.len() as int),
        )
    }
}

/// `payload` is an envelope of `plaintext` under `key`, as `encrypt` makes one.
pub open spec fn sealed(key: Seq<u8>, payload: Seq<u8>, plaintext: Seq<u8>) -> bool {
    &&& payload.len() == NONCE_LENGTH + plaintext.len() + TAG_LENGTH
    &&& aes256gcm_open_of(
        key,
        payload.subrange(0, NONCE_LENGTH as int),
        payload.subrange(NONCE_LENGTH as int, payload.len() as int),
    ) == Some(plaintext)
}

/// Decrypting an envelope made by `encrypt` under the same key gives the
/// original plaintext back.
pub proof fn lemma_round_trip(key: Seq<u8>, payload: Seq<u8>, plaintext: Seq<u8>)
    requires
        sealed(key, payload, plaintext),
    ensures
        opened(key, payload) == Some(plaintext),
{
}

/// The in-memory cipher: empty, or armed with a 32-byte AES-256-GCM key.
pub struct Crypto {
    key: Option<Vec<u8>>,
}

impl Crypto {
    /// The armed key, if any.
    pub closed spec fn key_view(&self) -> Option<Seq<u8>> {
        match self.key {
            Some(k) => Some(k@),
            None => None,
        }
    }

    #[verifier::type_invariant]
    closed spec fn key_well_formed(&self) -> bool {
        self.key matches Some(k) ==> k@.len() == KEY_LENGTH
    }

    pub fn new() -> (r: Crypto)
        ensures
            r.key_view() is None,
    {
        Crypto { key: None }
    }

    pub fn is_unlocked(&self) -> (r: bool)
        ensures
            r == self.key_view() is Some,
    {
        self.key.is_some()
    }

    /// Derives the 32-byte key for `password` from `salt` under `strength`
    /// with Argon2id. The salt is fed to the function as it is.
    pub fn derive_key(&self, password: &str, salt: &[u8], strength: KeyDerivationStrength) -> (r:
        Result<Vec<u8>>)
        ensures
            r is Ok <==> derivable(encode_utf8(password@), salt@),
            r matches Ok(k) ==> k@ == derived_key(encode_utf8(password@), salt@, strength) && k@.len()
                == KEY_LENGTH,
            r matches Err(e) ==> e is KeyDerivation,
    {
        let (m_cost, t_cost, p_cost) = strength.get_params();
        match argon2id_derive(password.as_bytes(), salt, m_cost, t_cost, p_cost, KEY_LENGTH) {
            Some(k) => Ok(k),
            None => Err(Error::KeyDerivation(detail("argon2 rejected its inputs"))),
        }
    }

    /// Arms the cipher with `key`, which must be 32 bytes long.
    pub fn unlock(&mut self, key: &[u8]) -> (r: Result<()>)
        ensures
            r is Ok <==> key@.len() == KEY_LENGTH,
            r is Ok ==> final(self).key_view() == Some(key@),
            r is Err ==> final(self).key_view() == old(self).key_view(),
            r matches Err(e) ==> e is Crypto,
    {
        if key.len() != KEY_LENGTH {
            return Err(Error::Crypto(detail("a key is 32 bytes long")));
        }
        let fresh = vstd::slice::slice_to_vec(key);
        self.lock();
        self.key = Some(fresh);
        Ok(())
    }

    /// Overwrites the held key and leaves the cipher empty.
    pub fn lock(&mut self)
        ensures
            final(self).key_view() is None,
        opens_invariants none
        no_unwind
    {
        let mut taken: Option<Vec<u8>> = None;
        core::mem::swap(&mut self.key, &mut taken);
        match taken {
            Some(k) => {
                let mut k = k;
                wipe(&mut k);
            },
            None => {},
        }
    }

    /// Encrypts `data` under a fresh random nonce: `nonce ‖ ciphertext ‖ tag`.
    pub fn encrypt(&self, data: &[u8]) -> (r: Result<Vec<u8>>)
        ensures
            self.key_view() is None ==> r == Err::<Vec<u8>, Error>(Error::VaultLocked),
            self.key_view() is Some ==> (r is Ok <==> data@.len() <= MAX_PLAINTEXT_LEN),
            r matches Ok(c) ==> sealed(self.key_view().unwrap(), c@, data@),
            r matches Err(e) ==> if self.key_view() is None {
                e is VaultLocked
            } else {
                e is Encryption
            },
    {
        proof {
            use_type_invariant(self);
        }
        let key = match &self.key {
            Some(k) => k,
            None => return Err(Error::VaultLocked),
        };
        let nonce = os_random_bytes(NONCE_LENGTH);
        let ciphertext = match aes256gcm_seal(key.as_slice(), nonce.as_slice(), data) {
            Some(c) => c,
            None => return Err(Error::Encryption(detail("plaintext too long"))),
        };
        let mut result = nonce;
        let mut i: usize = 0;
        while i < ciphertext.len()
            invariant
                i <= ciphertext@.len(),
                nonce@.len() == NONCE_LENGTH,
                result@ == nonce@ + ciphertext@.subrange(0, i as int),
            decreases ciphertext@.len() - i,
        {
            result.push(ciphertext[i]);
            i = i + 1;
        }
        proof {
            assert(result@.subrange(0, NONCE_LENGTH as int) =~= nonce@);
            assert(result@.subrange(NONCE_LENGTH as int, result@.len() as int) =~= ciphertext@);
        }
        Ok(result)
    }

    /// Opens an envelope made by `encrypt`.
    pub fn decrypt(&self, encrypted_data: &[u8]) -> (r: Result<Vec<u8>>)
        ensures
            self.key_view() is None ==> r == Err::<Vec<u8>, Error>(Error::VaultLocked),
            self.key_view() is Some ==> (r is Ok <==> opened(
                self.key_view().unwrap(),
                encrypted_data@,
            ) is Some),
            r matches Ok(p) ==> opened(self.key_view().unwrap(), encrypted_data@) == Some(p@),
            r matches Err(e) ==> if self.key_view() is None {
                e is VaultLocked
            } else {
                e is Decryption
            },
    {
        proof {
            use_type_invariant(self);
        }
        let key = match &self.key {
            Some(k) => k,
            None => return Err(Error::VaultLocked),
        };
        if encrypted_data.len() < NONCE_LENGTH {
            return Err(Error::Decryption(detail("Invalid encrypted data length")));
        }
        let (nonce, ciphertext) = encrypted_data.split_at(NONCE_LENGTH);
        match aes256gcm_open(key.as_slice(), nonce, ciphertext) {
            Some(p) => Ok(p),
            None => Err(Error::Decryption(detail("authentication failed"))),
        }
    }

    /// 16 fresh random bytes.
    pub fn generate_salt() -> (r: Vec<u8>)
        ensures
            r@.len() == SALT_LENGTH,
    {
        os_random_bytes(SALT_LENGTH)
    }

    /// 32 fresh random bytes.
    pub fn generate_verification_token() -> (r: Vec<u8>)
        ensures
            r@.len() == TOKEN_LENGTH,
    {
        os_random_bytes(TOKEN_LENGTH)
    }
}

impl Drop for Crypto {
    fn drop(&mut self)
        opens_invariants none
        no_unwind
    {
        self.lock();
    }
}

} // verus!
