use chrono::{DateTime, Utc};
use vstd::prelude::*;
use vstd::utf8::{decode_utf8, encode_utf8, valid_utf8};

use crate::crypto::{opened, sealed, Crypto, MAX_PLAINTEXT_LEN};
use crate::error::{detail, Error, Result};
use crate::item::{opt_view, ItemView, Timestamp, VaultItem};

verus! {

/// The RFC 3339 text chrono writes for an instant given as seconds and
/// nanoseconds since the epoch, or nothing when chrono cannot represent it.
pub uninterp spec fn rfc3339_of(secs: i64, nanos: u32) -> Option<Seq<char>>;

/// The instant chrono reads from an RFC 3339 text, as seconds and
/// nanoseconds since the epoch, or nothing when the text is not one.
pub uninterp spec fn rfc3339_parsed(text: Seq<char>) -> Option<(i64, u32)>;

/// The JSON text serde_json writes for a list of strings, or nothing when it
/// reports a failure.
pub uninterp spec fn json_of_tags(tags: Seq<Seq<char>>) -> Option<Seq<char>>;

/// The list of strings serde_json reads from a JSON text, or nothing when the
/// text is not a JSON array of strings.
pub uninterp spec fn tags_of_json(text: Seq<char>) -> Option<Seq<Seq<char>>>;

/// Relies on chrono's `DateTime::<Utc>::from_timestamp` followed by
/// `to_rfc3339`.
#[verifier::external_body]
fn format_rfc3339(secs: i64, nanos: u32) -> (r: Option<String>)
    ensures
        opt_view(r) == rfc3339_of(secs, nanos),
{
    match DateTime::<Utc>::from_timestamp(secs, nanos) {
        Some(d) => Some(d.to_rfc3339()),
        None => None,
    }
}

/// Relies on chrono's `FromStr` for `DateTime<Utc>`, read back through
/// `timestamp` and `timestamp_subsec_nanos`.
#[verifier::external_body]
fn parse_rfc3339(text: &str) -> (r: Option<Timestamp>)
    ensures
        match r {
            Some(t) => rfc3339_parsed(text@) == Some((t.secs, t.nanos)),
            None => rfc3339_parsed(text@) is None,
        },
{
    match text.parse::<DateTime<Utc>>() {
        Ok(d) => Some(Timestamp { secs: d.timestamp(), nanos: d.timestamp_subsec_nanos() }),
        Err(_) => None,
    }
}

/// Relies on `serde_json::to_string` for `Vec<String>`.
#[verifier::external_body]
fn tags_to_json(tags: &Vec<String>) -> (r: Option<String>)
    ensures
        opt_view(r) == json_of_tags(tags.deep_view()),
{
    serde_json::to_string(tags).ok()
}

/// Relies on `serde_json::from_str::<Vec<String>>`.
#[verifier::external_body]
fn tags_from_json(text: &str) -> (r: Option<Vec<String>>)
    ensures
        match r {
            Some(v) => tags_of_json(text@) == Some(v.deep_view()),
            None => tags_of_json(text@) is None,
        },
{
    serde_json::from_str::<Vec<String>>(text).ok()
}

/// Relies on `String::from_utf8`, which accepts exactly the valid UTF-8 byte
/// strings.
#[verifier::external_body]
fn utf8_text(bytes: Vec<u8>) -> (r: Option<String>)
    ensures
        r is Some <==> valid_utf8(bytes@),
        r matches Some(s) ==> s@ == decode_utf8(bytes@),
{
    String::from_utf8(bytes).ok()
}

/// Reads a stored instant: no value or an empty text is none, anything else
/// must be RFC 3339.
pub fn timestamp_from_meta(value: Option<String>) -> (r: Result<Option<Timestamp>>)
    ensures
        match value {
            None => r == Ok::<Option<Timestamp>, Error>(None),
            Some(t) => if t@.len() == 0 {
                r == Ok::<Option<Timestamp>, Error>(None)
            } else {
                match rfc3339_parsed(t@) {
                    Some(p) => r == Ok::<Option<Timestamp>, Error>(
                        Some(Timestamp { secs: p.0, nanos: p.1 }),
                    ),
                    None => r matches Err(e) && e is Storage,
                }
            },
        },
{
    match value {
        None => Ok(None),
        Some(t) => {
            if t.as_str().is_empty() {
                Ok(None)
            } else {
                match parse_rfc3339(t.as_str()) {
                    Some(ts) => Ok(Some(ts)),
                    None => Err(Error::Storage(detail("Failed to parse timestamp"))),
                }
            }
        },
    }
}

/// The stored text of an instant: RFC 3339, or empty for none.
pub fn timestamp_to_meta(value: Option<Timestamp>) -> (r: Result<String>)
    ensures
        match value {
            None => r matches Ok(s) && s@.len() == 0,
            Some(t) => match rfc3339_of(t.secs, t.nanos) {
                Some(text) => r matches Ok(s) && s@ == text,
                None => r matches Err(e) && e is Internal,
            },
        },
{
    match value {
        None => Ok(String::new()),
        Some(t) => match format_rfc3339(t.secs, t.nanos) {
            Some(s) => Ok(s),
            None => Err(Error::Internal(detail("timestamp outside the representable range"))),
        },
    }
}

/// A catalogue row as stored: `id` and `parent_id` in the clear, every other
/// column an envelope made by `Crypto::encrypt`.
#[derive(Debug, Clone)]
pub struct EncryptedRow {
    pub id: String,
    pub parent_id: Option<String>,
    pub name: Vec<u8>,
    pub item_type: Vec<u8>,
    pub data_path: Vec<u8>,
    pub folder_type: Option<Vec<u8>>,
    pub tags: Vec<u8>,
    pub created_at: Vec<u8>,
    pub updated_at: Vec<u8>,
}

/// The text a column holds under `key`.
pub open spec fn column_text(key: Seq<u8>, column: Seq<u8>) -> Option<Seq<char>> {
    match opened(key, column) {
        Some(b) => if valid_utf8(b) {
            Some(decode_utf8(b))
        } else {
            None
        },
        None => None,
    }
}

/// The instant a column holds under `key`.
pub open spec fn column_time(key: Seq<u8>, column: Seq<u8>) -> Option<Timestamp> {
    match column_text(key, column) {
        Some(t) => match rfc3339_parsed(t) {
            Some(p) => Some(Timestamp { secs: p.0, nanos: p.1 }),
            None => None,
        },
        None => None,
    }
}

/// The tags a column holds under `key`; text that is not a JSON list of
/// strings counts as no tags.
pub open spec fn tags_or_none(text: Seq<char>) -> Seq<Seq<char>> {
    match tags_of_json(text) {
        Some(t) => t,
        None => Seq::empty(),
    }
}

/// The item a row holds under `key`, when every column reads back.
pub open spec fn row_item(key: Seq<u8>, row: EncryptedRow) -> Option<ItemView> {
    let name = column_text(key, row.name@);
    let item_type = column_text(key, row.item_type@);
    let data_path = column_text(key, row.data_path@);
    let folder_type = match row.folder_type {
        Some(c) => column_text(key, c@),
        None => None,
    };
    let tags = column_text(key, row.tags@);
    let created = column_time(key, row.created_at@);
    let updated = column_time(key, row.updated_at@);
    if name is Some && item_type is Some && data_path is Some && (row.folder_type is None
        || folder_type is Some) && tags is Some && created is Some && updated is Some {
        Some(
            ItemView {
                id: row.id@,
                parent_id: opt_view(row.parent_id),
                name: name.unwrap(),
                data_path: data_path.unwrap(),
                item_type: item_type.unwrap(),
                folder_type,
                tags: tags_or_none(tags.unwrap()),
                created_at: created.unwrap(),
                updated_at: updated.unwrap(),
            },
        )
    } else {
        None
    }
}

/// Whether a text fits in one envelope.
pub open spec fn fits(text: Seq<char>) -> bool {
    encode_utf8(text).len() <= MAX_PLAINTEXT_LEN
}

/// `column` is an envelope of `text` under `key`.
pub open spec fn sealed_text(key: Seq<u8>, column: Seq<u8>, text: Seq<char>) -> bool {
    sealed(key, column, encode_utf8(text))
}

/// The texts of an item's encrypted columns are all defined and fit.
pub open spec fn encodable(item: ItemView) -> bool {
    &&& fits(item.name)
    &&& fits(item.item_type)
    &&& fits(item.data_path)
    &&& (item.folder_type matches Some(f) ==> fits(f))
    &&& json_of_tags(item.tags) matches Some(j) && fits(j)
    &&& rfc3339_of(item.created_at.secs, item.created_at.nanos) matches Some(t) && fits(t)
    &&& rfc3339_of(item.updated_at.secs, item.updated_at.nanos) matches Some(t) && fits(t)
}

/// `row` stores `item` under `key`: plaintext identifiers, and each other
/// column an envelope of the item's text for it.
pub open spec fn row_stores(key: Seq<u8>, row: EncryptedRow, item: ItemView) -> bool {
    &&& row.id@ == item.id
    &&& opt_view(row.parent_id) == item.parent_id
    &&& sealed_text(key, row.name@, item.name)
    &&& sealed_text(key, row.item_type@, item.item_type)
    &&& sealed_text(key, row.data_path@, item.data_path)
    &&& match (row.folder_type, item.folder_type) {
        (Some(c), Some(f)) => sealed_text(key, c@, f),
        (None, None) => true,
        _ => false,
    }
    &&& json_of_tags(item.tags) matches Some(j) && sealed_text(key, row.tags@, j)
    &&& rfc3339_of(item.created_at.secs, item.created_at.nanos) matches Some(t) && sealed_text(
        key,
        row.created_at@,
        t,
    )
    &&& rfc3339_of(item.updated_at.secs, item.updated_at.nanos) matches Some(t) && sealed_text(
        key,
        row.updated_at@,
        t,
    )
}

fn clone_opt(o: &Option<String>) -> (r: Option<String>)
    ensures
        opt_view(r) == opt_view(*o),
{
    match o {
        Some(s) => Some(s.clone()),
        None => None,
    }
}

/// Encrypts the UTF-8 bytes of `text`.
fn seal_text(crypto: &Crypto, text: &str) -> (r: Result<Vec<u8>>)
    ensures
        crypto.key_view() is None ==> r == Err::<Vec<u8>, Error>(Error::VaultLocked),
        crypto.key_view() is Some ==> (r is Ok <==> fits(text@)),
        r matches Ok(c) ==> sealed_text(crypto.key_view().unwrap(), c@, text@),
        r matches Err(e) ==> if crypto.key_view() is None {
            e is VaultLocked
        } else {
            e is Encryption
        },
{
    crypto.encrypt(text.as_bytes())
}

/// Decrypts a column and reads it as UTF-8 text.
fn open_text(crypto: &Crypto, column: &Vec<u8>) -> (r: Option<String>)
    requires
        crypto.key_view() is Some,
    ensures
        opt_view(r) == column_text(crypto.key_view().unwrap(), column@),
{
    match crypto.decrypt(column.as_slice()) {
        Ok(b) => utf8_text(b),
        Err(_) => None,
    }
}

fn open_time(crypto: &Crypto, column: &Vec<u8>) -> (r: Option<Timestamp>)
    requires
        crypto.key_view() is Some,
    ensures
        r == column_time(crypto.key_view().unwrap(), column@),
{
    match open_text(crypto, column) {
        Some(t) => parse_rfc3339(t.as_str()),
        None => None,
    }
}

fn seal_time(crypto: &Crypto, t: Timestamp) -> (r: Result<Vec<u8>>)
    requires
        crypto.key_view() is Some,
    ensures
        r is Ok <==> (rfc3339_of(t.secs, t.nanos) matches Some(s) && fits(s)),
        r matches Ok(c) ==> (rfc3339_of(t.secs, t.nanos) matches Some(s) && sealed_text(
            crypto.key_view().unwrap(),
            c@,
            s,
        )),
        r matches Err(e) ==> e is Internal || e is Encryption,
{
    match format_rfc3339(t.secs, t.nanos) {
        Some(s) => seal_text(crypto, s.as_str()),
        None => Err(Error::Internal(detail("timestamp outside the representable range"))),
    }
}

/// Encrypts every sensitive column of `item`, each under its own nonce.
pub fn encrypt_item(item: &VaultItem, crypto: &Crypto) -> (r: Result<EncryptedRow>)
    ensures
        crypto.key_view() is None ==> r == Err::<EncryptedRow, Error>(Error::VaultLocked),
        crypto.key_view() is Some ==> (r is Ok <==> encodable(item@)),
        r matches Ok(row) ==> row_stores(crypto.key_view().unwrap(), row, item@),
        r matches Err(e) ==> e is VaultLocked || e is Serialization || e is Internal
            || e is Encryption,
{
    if !crypto.is_unlocked() {
        return Err(Error::VaultLocked);
    }
    let tags_json = match tags_to_json(&item.tags) {
        Some(j) => j,
        None => return Err(Error::Serialization(detail("tags could not be written"))),
    };
    let name = seal_text(crypto, item.name.as_str())?;
    let item_type = seal_text(crypto, item.item_type.as_str())?;
    let data_path = seal_text(crypto, item.data_path.as_str())?;
    let tags = seal_text(crypto, tags_json.as_str())?;
    let folder_type = match &item.folder_type {
        Some(ft) => Some(seal_text(crypto, ft.as_str())?),
        None => None,
    };
    let created_at = seal_time(crypto, item.created_at)?;
    let updated_at = seal_time(crypto, item.updated_at)?;
    Ok(
        EncryptedRow {
            id: item.id.clone(),
            parent_id: clone_opt(&item.parent_id),
            name,
            item_type,
            data_path,
            folder_type,
            tags,
            created_at,
            updated_at,
        },
    )
}

fn column_error(column: &str) -> (r: Error)
    ensures
        r matches Error::Storage(d) && d@ == column@,
{
    Error::Storage(column.to_owned())
}

/// The first column of `row`, in stored order, that does not read back under
/// `key`, if any.
pub open spec fn first_unreadable(key: Seq<u8>, row: EncryptedRow) -> Option<Seq<char>> {
    if column_text(key, row.name@) is None {
        Some("name"@)
    } else if column_text(key, row.item_type@) is None {
        Some("item_type"@)
    } else if column_text(key, row.data_path@) is None {
        Some("data_path"@)
    } else if row.folder_type matches Some(c) && column_text(key, c@) is None {
        Some("folder_type"@)
    } else if column_text(key, row.tags@) is None {
        Some("tags"@)
    } else if column_time(key, row.created_at@) is None {
        Some("created_at"@)
    } else if column_time(key, row.updated_at@) is None {
        Some("updated_at"@)
    } else {
        None
    }
}

/// Decrypts every column of a row back into an item. A column that does not
/// decrypt, or is not UTF-8, or a timestamp that does not parse, is reported
/// as a storage error naming the column; a tag list that is not JSON reads as
/// no tags.
pub fn decrypt_row(row: &EncryptedRow, crypto: &Crypto) -> (r: Result<VaultItem>)
    ensures
        crypto.key_view() is None ==> r == Err::<VaultItem, Error>(Error::VaultLocked),
        crypto.key_view() is Some ==> (r is Ok <==> row_item(crypto.key_view().unwrap(), *row) is Some),
        r matches Ok(item) ==> row_item(crypto.key_view().unwrap(), *row) == Some(item@),
        r matches Err(e) ==> e is VaultLocked || e is Storage,
        crypto.key_view() matches Some(k) ==> match first_unreadable(k, *row) {
            Some(c) => r matches Err(Error::Storage(d)) && d@ == c,
            None => r is Ok,
        },
{
    if !crypto.is_unlocked() {
        return Err(Error::VaultLocked);
    }
    let name = match open_text(crypto, &row.name) {
        Some(t) => t,
        None => return Err(column_error("name")),
    };
    let item_type = match open_text(crypto, &row.item_type) {
        Some(t) => t,
        None => return Err(column_error("item_type")),
    };
    let data_path = match open_text(crypto, &row.data_path) {
        Some(t) => t,
        None => return Err(column_error("data_path")),
    };
    let folder_type = match &row.folder_type {
        Some(c) => match open_text(crypto, c) {
            Some(t) => Some(t),
            None => return Err(column_error("folder_type")),
        },
        None => None,
    };
    let tags_text = match open_text(crypto, &row.tags) {
        Some(t) => t,
        None => return Err(column_error("tags")),
    };
    let tags = match tags_from_json(tags_text.as_str()) {
        Some(t) => t,
        None => {
            let empty: Vec<String> = Vec::new();
            assert(empty.deep_view() =~= Seq::<Seq<char>>::empty());
            empty
        },
    };
    let created_at = match open_time(crypto, &row.created_at) {
        Some(t) => t,
        None => return Err(column_error("created_at")),
    };
    let updated_at = match open_time(crypto, &row.updated_at) {
        Some(t) => t,
        None => return Err(column_error("updated_at")),
    };
    let item = VaultItem {
        id: row.id.clone(),
        parent_id: clone_opt(&row.parent_id),
        name,
        data_path,
        item_type,
        folder_type,
        tags,
        created_at,
        updated_at,
    };
    proof {
        assert(item@.tags == tags_or_none(tags_text@));
    }
    Ok(item)
}

/// The payload names of the rows that read back under `key` and carry a
/// payload, in row order. Rows that do not read back are passed over.
pub open spec fn payload_names(key: Seq<u8>, rows: Seq<EncryptedRow>) -> Seq<Seq<char>>
    decreases rows.len(),
{
    if rows.len() == 0 {
        Seq::empty()
    } else {
        let prev = payload_names(key, rows.drop_last());
        match row_item(key, rows.last()) {
            Some(v) => if v.data_path.len() > 0 {
                prev.push(v.data_path)
            } else {
                prev
            },
            None => prev,
        }
    }
}

/// The payload files to shred for rows that are being deleted.
pub fn doomed_payloads(rows: &Vec<EncryptedRow>, crypto: &Crypto) -> (r: Vec<String>)
    ensures
        crypto.key_view() matches Some(k) ==> r.deep_view() == payload_names(k, rows@),
        crypto.key_view() is None ==> r@.len() == 0,
{
    let mut out: Vec<String> = Vec::new();
    if !crypto.is_unlocked() {
        return out;
    }
    let mut i: usize = 0;
    while i < rows.len()
        invariant
            crypto.key_view() is Some,
            i <= rows@.len(),
            out.deep_view() == payload_names(crypto.key_view().unwrap(), rows@.subrange(0, i as int)),
        decreases rows@.len() - i,
    {
        let ghost prefix = rows@.subrange(0, i + 1);
        assert(prefix.drop_last() =~= rows@.subrange(0, i as int));
        match decrypt_row(&rows[i], crypto) {
            Ok(item) => {
                if !item.data_path.as_str().is_empty() {
                    out.push(item.data_path);
                    assert(out.deep_view() =~= payload_names(crypto.key_view().unwrap(), prefix));
                }
            },
            Err(_) => {},
        }
        i = i + 1;
    }
    assert(rows@.subrange(0, i as int) =~= rows@);
    out
}

/// Decrypts an envelope under `old` and encrypts the same plaintext under
/// `new`.
pub fn reencrypt_payload(payload: &[u8], old: &Crypto, new: &Crypto) -> (r: Result<Vec<u8>>)
    requires
        old.key_view() is Some,
        new.key_view() is Some,
    ensures
        r is Ok <==> (opened(old.key_view().unwrap(), payload@) matches Some(p) && p.len()
            <= MAX_PLAINTEXT_LEN),
        r matches Ok(c) ==> opened(old.key_view().unwrap(), payload@) matches Some(p) && sealed(
            new.key_view().unwrap(),
            c@,
            p,
        ),
        r matches Err(e) ==> e is Decryption || e is Encryption,
{
    let plain = old.decrypt(payload)?;
    new.encrypt(plain.as_slice())
}

/// The column holds the same plaintext under `new_key` as `old_column` does
/// under `old_key`.
pub open spec fn carried(old_key: Seq<u8>, old_column: Seq<u8>, new_key: Seq<u8>, new_column: Seq<
    u8,
>) -> bool {
    opened(old_key, old_column) matches Some(p) && sealed(new_key, new_column, p)
}

pub open spec fn reencryptable(key: Seq<u8>, column: Seq<u8>) -> bool {
    opened(key, column) matches Some(p) && p.len() <= MAX_PLAINTEXT_LEN
}

/// Every encrypted column of `row` opens under `key` to a plaintext that fits.
pub open spec fn row_reencryptable(key: Seq<u8>, row: EncryptedRow) -> bool {
    &&& reencryptable(key, row.name@)
    &&& reencryptable(key, row.item_type@)
    &&& reencryptable(key, row.data_path@)
    &&& (row.folder_type matches Some(c) ==> reencryptable(key, c@))
    &&& reencryptable(key, row.tags@)
    &&& reencryptable(key, row.created_at@)
    &&& reencryptable(key, row.updated_at@)
}

/// `new_row` holds under `new_key` exactly the plaintext `old_row` holds under
/// `old_key`, column by column.
pub open spec fn row_carried(old_key: Seq<u8>, old_row: EncryptedRow, new_key: Seq<u8>, new_row:
    EncryptedRow) -> bool {
    &&& new_row.id@ == old_row.id@
    &&& opt_view(new_row.parent_id) == opt_view(old_row.parent_id)
    &&& carried(old_key, old_row.name@, new_key, new_row.name@)
    &&& carried(old_key, old_row.item_type@, new_key, new_row.item_type@)
    &&& carried(old_key, old_row.data_path@, new_key, new_row.data_path@)
    &&& match (old_row.folder_type, new_row.folder_type) {
        (Some(a), Some(b)) => carried(old_key, a@, new_key, b@),
        (None, None) => true,
        _ => false,
    }
    &&& carried(old_key, old_row.tags@, new_key, new_row.tags@)
    &&& carried(old_key, old_row.created_at@, new_key, new_row.created_at@)
    &&& carried(old_key, old_row.updated_at@, new_key, new_row.updated_at@)
}

/// Re-encrypts every encrypted column of a row from `old` to `new`, keeping
/// each plaintext byte for byte.
pub fn reencrypt_row(row: &EncryptedRow, old: &Crypto, new: &Crypto) -> (r: Result<EncryptedRow>)
    requires
        old.key_view() is Some,
        new.key_view() is Some,
    ensures
        r is Ok <==> row_reencryptable(old.key_view().unwrap(), *row),
        r matches Ok(n) ==> row_carried(old.key_view().unwrap(), *row, new.key_view().unwrap(), n),
        r matches Err(e) ==> e is Decryption || e is Encryption,
{
    let name = reencrypt_payload(row.name.as_slice(), old, new)?;
    let item_type = reencrypt_payload(row.item_type.as_slice(), old, new)?;
    let data_path = reencrypt_payload(row.data_path.as_slice(), old, new)?;
    let folder_type = match &row.folder_type {
        Some(c) => Some(reencrypt_payload(c.as_slice(), old, new)?),
        None => None,
    };
    let tags = reencrypt_payload(row.tags.as_slice(), old, new)?;
    let created_at = reencrypt_payload(row.created_at.as_slice(), old, new)?;
    let updated_at = reencrypt_payload(row.updated_at.as_slice(), old, new)?;
    Ok(
        EncryptedRow {
            id: row.id.clone(),
            parent_id: clone_opt(&row.parent_id),
            name,
            item_type,
            data_path,
            folder_type,
            tags,
            created_at,
            updated_at,
        },
    )
}

} // verus!
