use fetch::blob::{shred_chunk_len, shred_patterns};
use fetch::columns::{decrypt_row, encrypt_item, reencrypt_payload, reencrypt_row, timestamp_from_meta, timestamp_to_meta};
use fetch::crypto::Crypto;
use fetch::error::Error;
use fetch::import::ImportResult;
use fetch::item::{arrange_listing, matches_filter, BruteForceConfig, SortOrder, Timestamp, VaultItem};
use fetch::tags::{collect_all_tags, remove_tag_from_items, remove_tag_list, rename_tag_in_items, rename_tag_list};
use fetch::text::clean_url_for_sorting;
use fetch::tree::collect_descendants;
use fetch::vault::{RotationAction, RotationProgress};

fn armed(byte: u8) -> Crypto {
    let mut c = Crypto::new();
    c.unlock(&[byte; 32]).unwrap();
    c
}

fn ts(secs: i64) -> Timestamp {
    Timestamp { secs, nanos: 0 }
}

fn item(id: &str, name: &str, item_type: &str, created: i64, updated: i64) -> VaultItem {
    VaultItem {
        id: id.to_string(),
        parent_id: None,
        name: name.to_string(),
        data_path: if item_type == "folder" { String::new() } else { format!("blob-{}", id) },
        item_type: item_type.to_string(),
        folder_type: None,
        tags: Vec::new(),
        created_at: ts(created),
        updated_at: ts(updated),
    }
}

fn names(items: &[VaultItem]) -> Vec<String> {
    items.iter().map(|i| i.name.clone()).collect()
}

fn strings(v: &[&str]) -> Vec<String> {
    v.iter().map(|s| s.to_string()).collect()
}

#[test]
fn row_round_trip_keeps_every_field() {
    let c = armed(5);
    let mut it = item("id1", "Nöte", "text/plain", 1_700_000_000, 1_700_000_100);
    it.parent_id = Some("p".to_string());
    it.tags = strings(&["x", "y \"quoted\""]);
    it.created_at.nanos = 123_456_789;
    let row = encrypt_item(&it, &c).unwrap();
    assert_eq!(row.id, "id1");
    assert_eq!(row.parent_id.as_deref(), Some("p"));
    assert_ne!(row.name, it.name.as_bytes());
    let back = decrypt_row(&row, &c).unwrap();
    assert_eq!(back.name, "Nöte");
    assert_eq!(back.item_type, "text/plain");
    assert_eq!(back.data_path, "blob-id1");
    assert_eq!(back.tags, it.tags);
    assert_eq!(back.created_at, it.created_at);
    assert_eq!(back.updated_at, it.updated_at);
    assert_eq!(back.folder_type, None);
}

#[test]
fn column_dump_holds_no_plaintext() {
    let c = armed(5);
    let mut it = item("id2", "secret-name", "application/pdf", 10, 20);
    it.tags = strings(&["tagvalue"]);
    let row = encrypt_item(&it, &c).unwrap();
    let columns = [&row.name, &row.item_type, &row.data_path, &row.tags, &row.created_at, &row.updated_at];
    for col in columns {
        for needle in [&b"secret-name"[..], b"application/pdf", b"blob-id2", b"tagvalue", b"1970"] {
            assert!(!col.windows(needle.len()).any(|w| w == needle));
        }
    }
}

#[test]
fn encrypt_item_when_locked_fails() {
    let it = item("a", "n", "text", 0, 0);
    assert!(matches!(encrypt_item(&it, &Crypto::new()), Err(Error::VaultLocked)));
}

#[test]
fn decrypt_row_names_bad_column() {
    let c = armed(5);
    let mut row = encrypt_item(&item("a", "n", "text", 0, 0), &c).unwrap();
    row.item_type = vec![0u8; 40];
    assert!(matches!(decrypt_row(&row, &c), Err(Error::Storage(col)) if col == "item_type"));
}

#[test]
fn unparsable_tags_read_as_none() {
    let c = armed(5);
    let mut row = encrypt_item(&item("a", "n", "text", 0, 0), &c).unwrap();
    row.tags = c.encrypt(b"not json").unwrap();
    assert!(decrypt_row(&row, &c).unwrap().tags.is_empty());
}

#[test]
fn timestamp_out_of_range_is_internal() {
    let c = armed(5);
    let it = item("a", "n", "text", i64::MAX, 0);
    assert!(matches!(encrypt_item(&it, &c), Err(Error::Internal(_))));
}

#[test]
fn rotation_keeps_row_plaintext() {
    let old = armed(1);
    let new = armed(2);
    let mut it = item("r", "name", "folder", 5, 6);
    it.folder_type = Some("cards".to_string());
    it.tags = strings(&["t"]);
    let row = encrypt_item(&it, &old).unwrap();
    let moved = reencrypt_row(&row, &old, &new).unwrap();
    assert!(decrypt_row(&moved, &old).is_err());
    let back = decrypt_row(&moved, &new).unwrap();
    assert_eq!(back.name, "name");
    assert_eq!(back.folder_type.as_deref(), Some("cards"));
    assert_eq!(back.tags, strings(&["t"]));
    assert_eq!(back.created_at, ts(5));
}

#[test]
fn rotation_keeps_payload() {
    let old = armed(1);
    let new = armed(2);
    let blob = old.encrypt(&[0xDE, 0xAD]).unwrap();
    let moved = reencrypt_payload(&blob, &old, &new).unwrap();
    assert_eq!(new.decrypt(&moved).unwrap(), vec![0xDE, 0xAD]);
    assert!(matches!(reencrypt_payload(&blob, &new, &old), Err(Error::Decryption(_))));
}

#[test]
fn folders_come_first_in_every_order() {
    let orders = [
        SortOrder::CreatedAtDesc,
        SortOrder::CreatedAtAsc,
        SortOrder::NameAsc,
        SortOrder::NameDesc,
        SortOrder::UpdatedAtDesc,
        SortOrder::UpdatedAtAsc,
    ];
    for order in orders {
        let items = vec![
            item("1", "b", "text", 1, 9),
            item("2", "z", "folder", 2, 8),
            item("3", "a", "text", 3, 7),
            item("4", "c", "folder", 4, 6),
        ];
        let out = arrange_listing(items, None, Some(order));
        assert_eq!(out.len(), 4);
        assert!(out[0].is_folder() && out[1].is_folder());
        assert!(!out[2].is_folder() && !out[3].is_folder());
    }
}

#[test]
fn listing_orders_within_partitions() {
    let make = || vec![item("1", "b", "text", 1, 30), item("2", "a", "text", 3, 10), item("3", "c", "text", 2, 20)];
    assert_eq!(names(&arrange_listing(make(), None, None)), strings(&["a", "c", "b"]));
    assert_eq!(names(&arrange_listing(make(), None, Some(SortOrder::CreatedAtAsc))), strings(&["b", "c", "a"]));
    assert_eq!(names(&arrange_listing(make(), None, Some(SortOrder::NameAsc))), strings(&["a", "b", "c"]));
    assert_eq!(names(&arrange_listing(make(), None, Some(SortOrder::NameDesc))), strings(&["c", "b", "a"]));
    assert_eq!(names(&arrange_listing(make(), None, Some(SortOrder::UpdatedAtDesc))), strings(&["b", "c", "a"]));
    assert_eq!(names(&arrange_listing(make(), None, Some(SortOrder::UpdatedAtAsc))), strings(&["a", "c", "b"]));
}

#[test]
fn equal_keys_keep_their_order() {
    let items = vec![item("1", "first", "text", 5, 5), item("2", "second", "text", 5, 5), item("3", "third", "text", 5, 5)];
    let out = arrange_listing(items, None, Some(SortOrder::CreatedAtAsc));
    assert_eq!(names(&out), strings(&["first", "second", "third"]));
}

#[test]
fn name_order_ignores_case_and_url_prefixes() {
    let items = vec![item("1", "http://Zeta.org", "text", 0, 0), item("2", "www.alpha.net", "text", 0, 0), item("3", "Beta", "text", 0, 0)];
    let out = arrange_listing(items, None, Some(SortOrder::NameAsc));
    assert_eq!(names(&out), strings(&["www.alpha.net", "Beta", "http://Zeta.org"]));
    assert_eq!(clean_url_for_sorting("https://www.Example.COM").into_iter().collect::<String>(), "example.com");
    assert_eq!(clean_url_for_sorting("HTTPS://X").into_iter().collect::<String>(), "https://x");
}

#[test]
fn type_filter_matches_prefix_or_folder_type() {
    let mut f = item("f", "folder", "folder", 0, 0);
    f.folder_type = Some("text".to_string());
    let mut g = item("g", "other folder", "folder", 0, 0);
    g.folder_type = Some("textual".to_string());
    let items = vec![item("1", "t", "text/plain", 0, 0), item("2", "p", "application/pdf", 0, 0), f, g];
    assert!(matches_filter(&items[0], &Some("text".to_string())));
    assert!(!matches_filter(&items[1], &Some("text".to_string())));
    let out = arrange_listing(items, Some("text".to_string()), Some(SortOrder::NameAsc));
    assert_eq!(names(&out), strings(&["folder", "t"]));
    assert_eq!(arrange_listing(Vec::new(), None, None).len(), 0);
}

#[test]
fn rename_tag_list_dedups() {
    assert_eq!(rename_tag_list(&strings(&["b", "B", "c"]), "b", "B"), strings(&["B", "c"]));
    assert_eq!(rename_tag_list(&strings(&["a"]), "x", "y"), strings(&["a"]));
}

#[test]
fn rename_to_itself_changes_nothing() {
    let mut it = item("1", "n", "text", 0, 0);
    it.tags = strings(&["x", "y"]);
    let (out, changed) = rename_tag_in_items(vec![it], "x", "x", ts(99));
    assert_eq!(changed, vec![false]);
    assert_eq!(out[0].tags, strings(&["x", "y"]));
    assert_eq!(out[0].updated_at, ts(0));
}

#[test]
fn delete_tag_twice_is_idempotent() {
    let mut it = item("1", "n", "text", 0, 0);
    it.tags = strings(&["x", "y", "x"]);
    let (once, changed1) = remove_tag_from_items(vec![it], "x", ts(50));
    assert_eq!(changed1, vec![true]);
    assert_eq!(once[0].tags, strings(&["y"]));
    assert_eq!(once[0].updated_at, ts(50));
    let (twice, changed2) = remove_tag_from_items(once, "x", ts(60));
    assert_eq!(changed2, vec![false]);
    assert_eq!(twice[0].tags, strings(&["y"]));
    assert_eq!(twice[0].updated_at, ts(50));
    assert_eq!(remove_tag_list(&strings(&["y"]), "x"), strings(&["y"]));
}

#[test]
fn descendants_reach_every_depth() {
    let link = |id: &str, p: Option<&str>| (id.to_string(), p.map(|s| s.to_string()));
    let links = vec![
        link("root", None),
        link("a", Some("root")),
        link("b", Some("a")),
        link("c", Some("b")),
        link("other", None),
        link("d", Some("other")),
    ];
    let mut got = collect_descendants("root", &links);
    assert_eq!(got[0], "root");
    got.sort();
    assert_eq!(got, strings(&["a", "b", "c", "root"]));
    assert_eq!(collect_descendants("missing", &links), strings(&["missing"]));
}

#[test]
fn descendants_survive_a_cycle() {
    let links = vec![("a".to_string(), Some("b".to_string())), ("b".to_string(), Some("a".to_string()))];
    let mut got = collect_descendants("a", &links);
    got.sort();
    assert_eq!(got, strings(&["a", "b"]));
}

#[test]
fn shred_plan_matches_passes() {
    let p = shred_patterns();
    assert_eq!(p.len(), 3);
    assert_eq!((p[0], p[1]), (0x00, 0xFF));
    assert_eq!(shred_chunk_len(10_000, 0), 4096);
    assert_eq!(shred_chunk_len(10_000, 8192), 1808);
}

#[test]
fn defaults_and_sql_names() {
    let b = BruteForceConfig::default();
    assert!(b.enabled && b.max_attempts == 5 && b.lockout_duration_minutes == 5);
    assert_eq!(SortOrder::default(), SortOrder::CreatedAtDesc);
    assert_eq!(SortOrder::NameDesc.to_sql(), "ORDER BY name DESC");
    assert_eq!(SortOrder::UpdatedAtAsc.to_sql(), "ORDER BY updated_at ASC");
}

#[test]
fn import_tally_counts() {
    let mut r = ImportResult::new();
    r.record_success();
    assert!(r.is_clean());
    r.record_error("bad".to_string());
    assert_eq!((r.success_count, r.error_count), (1, 1));
    assert_eq!(r.errors, strings(&["bad"]));
    assert!(!r.is_clean());
}

#[test]
fn all_tags_sorted_unique() {
    let mut a = item("1", "a", "text", 0, 0);
    a.tags = strings(&["b", "a", "b"]);
    let mut b = item("2", "b", "text", 0, 0);
    b.tags = strings(&["C", "a"]);
    assert_eq!(collect_all_tags(&vec![a, b]), strings(&["C", "a", "b"]));
    assert!(collect_all_tags(&Vec::new()).is_empty());
}

#[test]
fn new_entry_rejects_empty_inputs() {
    let t = ts(1);
    let ok = fetch::item::new_entry("i".into(), None, "n".into(), "text".into(), "d".into(), Vec::new(), b"hi", t).unwrap();
    assert_eq!((ok.created_at, ok.updated_at), (t, t));
    assert!(!ok.is_folder());
    let empty_name = fetch::item::new_entry("i".into(), None, "".into(), "text".into(), "d".into(), Vec::new(), b"hi", t);
    assert!(matches!(empty_name, Err(Error::InvalidInput(_))));
    let empty_content = fetch::item::new_entry("i".into(), None, "n".into(), "text".into(), "d".into(), Vec::new(), b"", t);
    assert!(matches!(empty_content, Err(Error::InvalidInput(_))));
    let as_folder = fetch::item::new_entry("i".into(), None, "n".into(), "folder".into(), "d".into(), Vec::new(), b"x", t);
    assert!(matches!(as_folder, Err(Error::InvalidInput(_))));
}

#[test]
fn new_folder_has_no_payload() {
    let f = fetch::item::new_folder("f".into(), Some("p".into()), "F".into(), Some("cards".into()), ts(2)).unwrap();
    assert!(f.is_folder());
    assert!(f.data_path.is_empty() && f.tags.is_empty());
    assert_eq!(f.parent_id.as_deref(), Some("p"));
    assert!(matches!(fetch::item::new_folder("f".into(), None, "".into(), None, ts(2)), Err(Error::InvalidInput(_))));
}

#[test]
fn stored_timestamps_read_back() {
    assert_eq!(timestamp_to_meta(None).unwrap(), "");
    assert_eq!(timestamp_from_meta(None).unwrap(), None);
    assert_eq!(timestamp_from_meta(Some(String::new())).unwrap(), None);
    let t = Timestamp { secs: 1_431_648_000, nanos: 0 };
    let text = timestamp_to_meta(Some(t)).unwrap();
    assert_eq!(text, "2015-05-15T00:00:00+00:00");
    assert_eq!(timestamp_from_meta(Some(text)).unwrap(), Some(t));
    assert!(matches!(timestamp_from_meta(Some("yesterday".to_string())), Err(Error::Storage(_))));
}

#[test]
fn folder_passes_by_item_type_prefix() {
    let plain = item("f", "plain folder", "folder", 0, 0);
    let mut typed = item("g", "typed folder", "folder", 0, 0);
    typed.folder_type = Some("cards".to_string());
    assert!(matches_filter(&plain, &Some("f".to_string())));
    assert!(matches_filter(&plain, &Some("fold".to_string())));
    assert!(matches_filter(&typed, &Some("cards".to_string())));
    assert!(!matches_filter(&plain, &Some("cards".to_string())));
    let items = vec![plain, typed, item("1", "file", "file/x", 0, 0), item("2", "text", "text/plain", 0, 0)];
    let out = arrange_listing(items, Some("f".to_string()), Some(SortOrder::NameAsc));
    assert_eq!(names(&out), strings(&["plain folder", "typed folder", "file"]));
}

#[test]
fn decrypt_row_names_first_bad_column() {
    let c = armed(5);
    let good = encrypt_item(&item("a", "n", "text", 0, 0), &c).unwrap();
    let bad = vec![0u8; 40];
    let cases: Vec<(&str, Box<dyn Fn(&mut fetch::columns::EncryptedRow)>)> = vec![
        ("name", Box::new(|r| r.name = vec![0u8; 40])),
        ("data_path", Box::new(|r| r.data_path = vec![1u8; 40])),
        ("folder_type", Box::new(|r| r.folder_type = Some(vec![2u8; 40]))),
        ("tags", Box::new(|r| r.tags = vec![3u8; 40])),
        ("created_at", Box::new(|r| r.created_at = vec![4u8; 40])),
        ("updated_at", Box::new(|r| r.updated_at = vec![5u8; 40])),
    ];
    for (column, spoil) in cases {
        let mut row = good.clone();
        spoil(&mut row);
        assert!(matches!(decrypt_row(&row, &c), Err(Error::Storage(d)) if d == column));
    }
    let mut both = good.clone();
    both.item_type = bad.clone();
    both.updated_at = bad;
    assert!(matches!(decrypt_row(&both, &c), Err(Error::Storage(d)) if d == "item_type"));
    let mut stamp = good.clone();
    stamp.created_at = c.encrypt(b"not a time").unwrap();
    assert!(matches!(decrypt_row(&stamp, &c), Err(Error::Storage(d)) if d == "created_at"));
}

#[test]
fn doomed_payloads_skip_folders_and_unreadable_rows() {
    let c = armed(5);
    let rows = vec![
        encrypt_item(&item("1", "a", "text", 0, 0), &c).unwrap(),
        encrypt_item(&item("2", "f", "folder", 0, 0), &c).unwrap(),
        encrypt_item(&item("3", "b", "text", 0, 0), &armed(6)).unwrap(),
        encrypt_item(&item("4", "c", "text", 0, 0), &c).unwrap(),
    ];
    assert_eq!(fetch::columns::doomed_payloads(&rows, &c), strings(&["blob-1", "blob-4"]));
    assert!(fetch::columns::doomed_payloads(&rows, &Crypto::new()).is_empty());
}

#[test]
fn rotation_steps_run_in_order() {
    let mut p = RotationProgress::start(2);
    let mut seen = Vec::new();
    loop {
        let a = p.next_action();
        seen.push(a);
        if a == RotationAction::Finished {
            break;
        }
        p = p.advance(a);
    }
    assert_eq!(
        seen,
        vec![
            RotationAction::RewriteRow(0),
            RotationAction::RewriteRow(1),
            RotationAction::StoreVerification,
            RotationAction::StoreSaltAndStrength,
            RotationAction::SwapCipher,
            RotationAction::Finished,
        ]
    );
}
