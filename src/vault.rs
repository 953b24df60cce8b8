use vstd::prelude::*;
use vstd::utf8::encode_utf8;

use crate::columns::{carried, column_text, column_time, row_carried, row_item, EncryptedRow};
use crate::crypto::{
    derivable, derived_key, lemma_round_trip, opened, sealed, Crypto, KeyDerivationStrength,
};
use crate::error::{Error, Result};
use crate::text::same_text;

verus! {

/// `password` opens the vault whose salt, strength and verification envelope
/// are given: a key can be derived, and the envelope decrypts under it.
pub open spec fn password_opens(
    password: Seq<u8>,
    salt: Seq<u8>,
    strength: KeyDerivationStrength,
    verify: Seq<u8>,
) -> bool {
    derivable(password, salt) && opened(derived_key(password, salt, strength), verify) is Some
}

/// What the vault reports about itself.
#[derive(Debug, Clone, Copy, PartialEq, Eq)]
pub struct VaultStatus {
    pub initialized: bool,
    pub unlocked: bool,
    pub strength: Option<KeyDerivationStrength>,
}

/// The status of a vault: the strength is reported once it is initialized.
pub fn vault_status(initialized: bool, crypto: &Crypto, strength: KeyDerivationStrength) -> (r:
    VaultStatus)
    ensures
        r.initialized == initialized,
        r.unlocked == crypto.key_view() is Some,
        r.strength == if initialized {
            Some(strength)
        } else {
            None
        },
{
    VaultStatus {
        initialized,
        unlocked: crypto.is_unlocked(),
        strength: if initialized {
            Some(strength)
        } else {
            None
        },
    }
}

/// Reads the stored strength name; anything but `Fast` or `Paranoid` is the
/// default.
pub fn parse_strength(value: Option<&str>) -> (r: KeyDerivationStrength)
    ensures
        r == match value {
            Some(v) => if v@ == KeyDerivationStrength::Fast.meta_text() {
                KeyDerivationStrength::Fast
            } else if v@ == KeyDerivationStrength::Paranoid.meta_text() {
                KeyDerivationStrength::Paranoid
            } else {
                KeyDerivationStrength::Recommended
            },
            None => KeyDerivationStrength::Recommended,
        },
{
    match value {
        Some(v) => {
            if same_text(v, KeyDerivationStrength::Fast.as_meta_str()) {
                KeyDerivationStrength::Fast
            } else if same_text(v, KeyDerivationStrength::Paranoid.as_meta_str()) {
                KeyDerivationStrength::Paranoid
            } else {
                KeyDerivationStrength::Recommended
            }
        },
        None => KeyDerivationStrength::Recommended,
    }
}

/// Derives the key for `password` and arms `crypto` with it.
fn arm_with_password(
    crypto: &mut Crypto,
    password: &str,
    salt: &[u8],
    strength: KeyDerivationStrength,
) -> (r: Result<()>)
    ensures
        r is Ok <==> derivable(encode_utf8(password@), salt@),
        r is Ok ==> final(crypto).key_view() == Some(
            derived_key(encode_utf8(password@), salt@, strength),
        ),
        r is Err ==> final(crypto).key_view() == old(crypto).key_view(),
        r matches Err(e) ==> e is KeyDerivation,
{
    let key = crypto.derive_key(password, salt, strength)?;
    match crypto.unlock(key.as_slice()) {
        Ok(()) => Ok(()),
        Err(_) => Err(Error::Internal(crate::error::detail("derived key of the wrong length"))),
    }
}

/// Checks `password` with a cipher of its own, never trusting one that is
/// already armed. On success that cipher, armed with the derived key, is
/// handed back.
pub fn check_password(
    password: &str,
    salt: &[u8],
    strength: KeyDerivationStrength,
    verify: &[u8],
) -> (r: Result<Crypto>)
    ensures
        r is Ok <==> password_opens(encode_utf8(password@), salt@, strength, verify@),
        r matches Ok(c) ==> c.key_view() == Some(
            derived_key(encode_utf8(password@), salt@, strength),
        ),
        r matches Err(e) ==> if derivable(encode_utf8(password@), salt@) {
            e is InvalidMasterKey
        } else {
            e is KeyDerivation
        },
{
    let mut probe = Crypto::new();
    arm_with_password(&mut probe, password, salt, strength)?;
    match probe.decrypt(verify) {
        Ok(_) => Ok(probe),
        Err(_) => Err(Error::InvalidMasterKey),
    }
}

/// Unlocks with `password`: derives the key, arms the cipher and test-decrypts
/// the verification envelope. Any failure leaves the cipher locked.
pub fn unlock_vault(
    crypto: &mut Crypto,
    password: &str,
    salt: &[u8],
    strength: KeyDerivationStrength,
    verify: &[u8],
) -> (r: Result<()>)
    ensures
        r is Ok <==> password_opens(encode_utf8(password@), salt@, strength, verify@),
        r is Ok ==> final(crypto).key_view() == Some(
            derived_key(encode_utf8(password@), salt@, strength),
        ),
        r is Err ==> final(crypto).key_view() is None,
        r matches Err(e) ==> if derivable(encode_utf8(password@), salt@) {
            e is InvalidMasterKey
        } else {
            e is KeyDerivation
        },
{
    match arm_with_password(crypto, password, salt, strength) {
        Ok(()) => {},
        Err(e) => {
            crypto.lock();
            return Err(e);
        },
    }
    match crypto.decrypt(verify) {
        Ok(_) => Ok(()),
        Err(_) => {
            crypto.lock();
            Err(Error::InvalidMasterKey)
        },
    }
}

/// Sets up a vault that is not yet initialized: derives the key from
/// `password` and `salt`, arms the cipher with it and returns the
/// verification envelope of `token`.
pub fn initialize_vault(
    crypto: &mut Crypto,
    already_initialized: bool,
    password: &str,
    strength: KeyDerivationStrength,
    salt: &[u8],
    token: &[u8],
) -> (r: Result<Vec<u8>>)
    ensures
        already_initialized ==> r == Err::<Vec<u8>, Error>(Error::VaultAlreadyInitialized),
        !already_initialized ==> (r is Ok <==> derivable(encode_utf8(password@), salt@) && token@.len()
            <= crate::crypto::MAX_PLAINTEXT_LEN),
        r matches Ok(v) ==> final(crypto).key_view() == Some(
            derived_key(encode_utf8(password@), salt@, strength),
        ) && sealed(derived_key(encode_utf8(password@), salt@, strength), v@, token@),
        r is Err ==> final(crypto).key_view() is None || already_initialized,
        r matches Err(e) ==> e is VaultAlreadyInitialized || e is KeyDerivation || e is Encryption,
{
    if already_initialized {
        return Err(Error::VaultAlreadyInitialized);
    }
    match arm_with_password(crypto, password, salt, strength) {
        Ok(()) => {},
        Err(e) => {
            crypto.lock();
            return Err(e);
        },
    }
    match crypto.encrypt(token) {
        Ok(v) => Ok(v),
        Err(e) => {
            crypto.lock();
            Err(e)
        },
    }
}

/// The two ciphers a master-key rotation works with.
pub struct RotationKeys {
    /// Armed with the current key, checked against the verification envelope.
    pub old: Crypto,
    /// Armed with the key derived from the new password and salt.
    pub new: Crypto,
    /// The strength the new key was derived under.
    pub strength: KeyDerivationStrength,
}

/// First steps of a master-key rotation: checks `current_password` with a
/// throwaway cipher, then derives the new key from `new_password`, `new_salt`
/// and the new strength (the current one when none is given).
pub fn prepare_rotation(
    current_password: &str,
    new_password: &str,
    new_strength: Option<KeyDerivationStrength>,
    salt: &[u8],
    strength: KeyDerivationStrength,
    verify: &[u8],
    new_salt: &[u8],
) -> (r: Result<RotationKeys>)
    ensures
        r is Ok <==> password_opens(encode_utf8(current_password@), salt@, strength, verify@)
            && derivable(encode_utf8(new_password@), new_salt@),
        r matches Ok(k) ==> {
            &&& k.strength == new_strength.unwrap_or(strength)
            &&& k.old.key_view() == Some(
                derived_key(encode_utf8(current_password@), salt@, strength),
            )
            &&& k.new.key_view() == Some(
                derived_key(encode_utf8(new_password@), new_salt@, k.strength),
            )
        },
        r matches Err(e) ==> e is InvalidMasterKey || e is KeyDerivation,
{
    let old = check_password(current_password, salt, strength, verify)?;
    let chosen = match new_strength {
        Some(s) => s,
        None => strength,
    };
    let mut new = Crypto::new();
    arm_with_password(&mut new, new_password, new_salt, chosen)?;
    Ok(RotationKeys { old, new, strength: chosen })
}

/// What a master-key rotation does next.
#[derive(Debug, Clone, Copy, PartialEq, Eq)]
pub enum RotationAction {
    /// Re-encrypt the row at this position, and its payload file if it has one.
    RewriteRow(usize),
    /// Store the verification envelope re-encrypted under the new key.
    StoreVerification,
    /// Store the new salt and strength.
    StoreSaltAndStrength,
    /// Make the new cipher the vault's live one; the old one is wiped.
    SwapCipher,
    Finished,
}

/// How far a master-key rotation has come.
#[derive(Debug, Clone, Copy, PartialEq, Eq)]
pub struct RotationProgress {
    pub rows_done: usize,
    pub total_rows: usize,
    pub verification_stored: bool,
    pub settings_stored: bool,
    pub cipher_swapped: bool,
}

/// The steps of a rotation happen in order: every row before the
/// verification envelope, the envelope before the salt and strength, those
/// before the cipher swap.
pub open spec fn rotation_in_order(p: RotationProgress) -> bool {
    &&& p.rows_done <= p.total_rows
    &&& p.verification_stored ==> p.rows_done == p.total_rows
    &&& p.settings_stored ==> p.verification_stored
    &&& p.cipher_swapped ==> p.settings_stored
}

pub open spec fn rotation_next(p: RotationProgress) -> RotationAction {
    if p.rows_done < p.total_rows {
        RotationAction::RewriteRow(p.rows_done)
    } else if !p.verification_stored {
        RotationAction::StoreVerification
    } else if !p.settings_stored {
        RotationAction::StoreSaltAndStrength
    } else if !p.cipher_swapped {
        RotationAction::SwapCipher
    } else {
        RotationAction::Finished
    }
}

impl RotationProgress {
    /// A rotation over `total_rows` rows that has done nothing yet.
    pub fn start(total_rows: usize) -> (r: RotationProgress)
        ensures
            r.total_rows == total_rows,
            r.rows_done == 0,
            !r.verification_stored && !r.settings_stored && !r.cipher_swapped,
            rotation_in_order(r),
    {
        RotationProgress {
            rows_done: 0,
            total_rows,
            verification_stored: false,
            settings_stored: false,
            cipher_swapped: false,
        }
    }

    /// The step to perform next.
    pub fn next_action(&self) -> (r: RotationAction)
        ensures
            r == rotation_next(*self),
    {
        if self.rows_done < self.total_rows {
            RotationAction::RewriteRow(self.rows_done)
        } else if !self.verification_stored {
            RotationAction::StoreVerification
        } else if !self.settings_stored {
            RotationAction::StoreSaltAndStrength
        } else if !self.cipher_swapped {
            RotationAction::SwapCipher
        } else {
            RotationAction::Finished
        }
    }

    /// The progress once `done`, the step `next_action` named, has been
    /// performed.
    pub fn advance(&self, done: RotationAction) -> (r: RotationProgress)
        requires
            rotation_in_order(*self),
            done == rotation_next(*self),
        ensures
            rotation_in_order(r),
            r.total_rows == self.total_rows,
            match done {
                RotationAction::RewriteRow(i) => r == RotationProgress {
                    rows_done: (i + 1) as usize,
                    ..*self
                },
                RotationAction::StoreVerification => r == RotationProgress {
                    verification_stored: true,
                    ..*self
                },
                RotationAction::StoreSaltAndStrength => r == RotationProgress {
                    settings_stored: true,
                    ..*self
                },
                RotationAction::SwapCipher => r == RotationProgress { cipher_swapped: true, ..*self },
                RotationAction::Finished => r == *self,
            },
    {
        match done {
            RotationAction::RewriteRow(i) => RotationProgress { rows_done: i + 1, ..*self },
            RotationAction::StoreVerification => RotationProgress {
                verification_stored: true,
                ..*self
            },
            RotationAction::StoreSaltAndStrength => RotationProgress {
                settings_stored: true,
                ..*self
            },
            RotationAction::SwapCipher => RotationProgress { cipher_swapped: true, ..*self },
            RotationAction::Finished => *self,
        }
    }
}

/// The verification envelope is stored only once every row has been
/// rewritten, and the cipher is swapped only after the salt and strength.
pub proof fn lemma_rotation_order(p: RotationProgress)
    requires
        rotation_in_order(p),
    ensures
        rotation_next(p) == RotationAction::StoreVerification ==> p.rows_done == p.total_rows,
        rotation_next(p) == RotationAction::SwapCipher ==> p.verification_stored
            && p.settings_stored,
        rotation_next(p) == RotationAction::Finished ==> p.cipher_swapped && p.rows_done
            == p.total_rows,
{
}

/// After initialization with `password`, `salt` and `strength`, unlocking
/// with that same password succeeds.
pub proof fn lemma_initial_password_unlocks(
    password: Seq<u8>,
    salt: Seq<u8>,
    strength: KeyDerivationStrength,
    token: Seq<u8>,
    verify: Seq<u8>,
)
    requires
        derivable(password, salt),
        sealed(derived_key(password, salt, strength), verify, token),
    ensures
        password_opens(password, salt, strength, verify),
{
    lemma_round_trip(derived_key(password, salt, strength), verify, token);
}

/// After a rotation re-encrypts the verification envelope from the old key to
/// the key of the new password, salt and strength, the new password unlocks.
pub proof fn lemma_rotation_new_password_unlocks(
    new_password: Seq<u8>,
    new_salt: Seq<u8>,
    new_strength: KeyDerivationStrength,
    old_key: Seq<u8>,
    old_verify: Seq<u8>,
    new_verify: Seq<u8>,
)
    requires
        derivable(new_password, new_salt),
        carried(old_key, old_verify, derived_key(new_password, new_salt, new_strength), new_verify),
    ensures
        password_opens(new_password, new_salt, new_strength, new_verify),
{
    let p = opened(old_key, old_verify).unwrap();
    lemma_round_trip(derived_key(new_password, new_salt, new_strength), new_verify, p);
}

/// A column re-encrypted by a rotation reads back as the same text.
pub proof fn lemma_carried_column_reads_same(
    old_key: Seq<u8>,
    old_column: Seq<u8>,
    new_key: Seq<u8>,
    new_column: Seq<u8>,
)
    requires
        carried(old_key, old_column, new_key, new_column),
    ensures
        column_text(new_key, new_column) == column_text(old_key, old_column),
        column_time(new_key, new_column) == column_time(old_key, old_column),
{
    lemma_round_trip(new_key, new_column, opened(old_key, old_column).unwrap());
}

/// A row re-encrypted by a rotation holds exactly the item it held before.
pub proof fn lemma_rotation_keeps_items(
    old_key: Seq<u8>,
    old_row: EncryptedRow,
    new_key: Seq<u8>,
    new_row: EncryptedRow,
)
    requires
        row_carried(old_key, old_row, new_key, new_row),
    ensures
        row_item(new_key, new_row) == row_item(old_key, old_row),
{
    lemma_carried_column_reads_same(old_key, old_row.name@, new_key, new_row.name@);
    lemma_carried_column_reads_same(old_key, old_row.item_type@, new_key, new_row.item_type@);
    lemma_carried_column_reads_same(old_key, old_row.data_path@, new_key, new_row.data_path@);
    lemma_carried_column_reads_same(old_key, old_row.tags@, new_key, new_row.tags@);
    lemma_carried_column_reads_same(old_key, old_row.created_at@, new_key, new_row.created_at@);
    lemma_carried_column_reads_same(old_key, old_row.updated_at@, new_key, new_row.updated_at@);
    match (old_row.folder_type, new_row.folder_type) {
        (Some(a), Some(b)) => lemma_carried_column_reads_same(old_key, a@, new_key, b@),
        _ => {},
    }
}

} // verus!
