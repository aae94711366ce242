use cpandas::db::Database;
use cpandas::error::Error;
use cpandas::types::Export;
use cpandas::utils::{aes256_decode, aes256_encode, from_hex, sha256, to_hex};
use cpandas::vault::{Unlocked, Vault};
use std::collections::HashSet;

fn fresh() -> Vault {
    Vault::new(Database::new(".db").unwrap())
}

fn vault_with_one_record() -> (Vault, String) {
    let mut vault = fresh();
    assert_eq!(vault.initialize_or_verify("hunter2"), Ok(Unlocked::Created));
    let id = vault.create("gmail", "s3cret!", "mail").unwrap();
    (vault, id)
}

fn reopened(source: Vault) -> Vault {
    let mut table = Database::new(".db").unwrap();
    for key in [&b"SECRET_HASH"[..], &b"ITEM_KEYS"[..]] {
        if let Some(value) = source.database().get(key).unwrap() {
            table.restore(key, &value);
        }
    }
    for id in source.database().get_item_keys().unwrap().unwrap_or_default() {
        if let Some(value) = source.database().get(id.as_bytes()).unwrap() {
            table.restore(id.as_bytes(), &value);
        }
    }
    Vault::new(table)
}

#[test]
fn initialise_create_reveal() {
    let mut vault = fresh();
    assert!(!vault.is_unlocked());
    assert_eq!(vault.initialize_or_verify("hunter2"), Ok(Unlocked::Created));
    assert!(vault.is_unlocked());
    let sentinel = vault.database().get_secret_hash().unwrap().unwrap();
    assert_eq!(
        String::from_utf8(sentinel).unwrap(),
        sha256(b"hunter2hunter2hunter2hunter2hunt").unwrap()
    );
    let id = vault.create("gmail", "s3cret!", "mail").unwrap();
    assert_eq!(id.len(), 36);
    let list = vault.list().unwrap();
    assert_eq!(list.len(), 1);
    assert_eq!(list[0].id, id);
    assert_eq!(list[0].account, "gmail");
    assert_eq!(list[0].desc, "mail");
    assert_eq!(list[0].status, 0);
    assert_eq!(list[0].nonce.len(), 24);
    assert_eq!(from_hex(&list[0].nonce).unwrap().len(), 12);
    assert_eq!(from_hex(&list[0].secret).unwrap().len(), 7 + 16);
    assert_ne!(list[0].secret, "s3cret!");
    assert_eq!(vault.reveal_secret(&id).unwrap(), "s3cret!");
    assert_eq!(vault.list().unwrap()[0].secret, list[0].secret);
}

#[test]
fn unlock_twice_is_created_then_verified() {
    let mut vault = fresh();
    assert_eq!(vault.initialize_or_verify("pass word"), Ok(Unlocked::Created));
    let writes = vault.take_journal();
    assert_eq!(writes.len(), 1);
    assert_eq!(vault.initialize_or_verify("pass word"), Ok(Unlocked::Verified));
    assert!(vault.take_journal().is_empty());
}

#[test]
fn wrong_password() {
    let (vault, id) = vault_with_one_record();
    let before = vault.list().unwrap();
    let mut vault = reopened(vault);
    assert_eq!(vault.initialize_or_verify("wrong"), Err(Error::BadPassword));
    assert!(!vault.is_unlocked());
    assert!(vault.take_journal().is_empty());
    let list = vault.list().unwrap();
    assert_eq!(list.len(), 1);
    assert_eq!(list[0].id, id);
    assert_eq!(list[0].secret, before[0].secret);
    assert_eq!(list[0].status, 0);
    assert_eq!(vault.reveal_secret(&id), Err(Error::NotUnlocked));
    assert_eq!(vault.create("a", "b", "c"), Err(Error::NotUnlocked));
}

#[test]
fn delete_removes_index_entry_and_body() {
    let (mut vault, id) = vault_with_one_record();
    vault.delete(&id).unwrap();
    assert_eq!(vault.database().get_item_keys().unwrap().unwrap(), Vec::<String>::new());
    assert!(vault.list().unwrap().is_empty());
    assert_eq!(vault.database().get(id.as_bytes()).unwrap(), None);
    assert_eq!(vault.delete(&id), Err(Error::NotFound));
    assert_eq!(vault.reveal_secret(&id), Err(Error::NotFound));
}

#[test]
fn export_then_import_into_a_second_vault() {
    let (vault, id) = vault_with_one_record();
    let envelope = vault.export_all().unwrap();
    let export = Export::from_json(&envelope).unwrap();
    assert_eq!(export.version, 1);
    assert_eq!(export.desc, "");
    assert_eq!(export.time, "");
    let content = String::from_utf8(from_hex(&export.content).unwrap()).unwrap();
    assert!(content.starts_with("[{\"id\":\""));
    assert!(content.ends_with("\"}]"));
    assert_eq!(content.matches("\"id\"").count(), 1);
    let text = String::from_utf8(envelope.clone()).unwrap();
    assert!(text.starts_with("{\"version\":1,\"desc\":\"\",\"time\":\"\",\"content\":\""));

    let mut second = fresh();
    assert_eq!(second.initialize_or_verify("hunter2"), Ok(Unlocked::Created));
    assert_eq!(second.import_all(&envelope), Ok(1));
    assert_eq!(second.reveal_secret(&id).unwrap(), "s3cret!");
    let a = vault.list().unwrap();
    let b = second.list().unwrap();
    assert_eq!(a.len(), b.len());
    assert_eq!(a[0].id, b[0].id);
    assert_eq!(a[0].secret, b[0].secret);
    assert_eq!(a[0].nonce, b[0].nonce);
    assert_eq!(a[0].account, b[0].account);
    assert_eq!(a[0].desc, b[0].desc);
}

#[test]
fn export_import_keeps_all_records_in_order() {
    let mut vault = fresh();
    vault.initialize_or_verify("k").unwrap();
    let mut ids = Vec::new();
    for n in 0..5 {
        ids.push(vault.create(&format!("acc{n}"), &format!("sec\"{n}\\"), "d\n").unwrap());
    }
    vault.delete(&ids[2]).unwrap();
    let envelope = vault.export_all().unwrap();
    let mut second = fresh();
    assert_eq!(second.import_all(&envelope), Ok(4));
    let a = vault.list().unwrap();
    let b = second.list().unwrap();
    assert_eq!(a.len(), 4);
    assert_eq!(b.len(), 4);
    for (x, y) in a.iter().zip(b.iter()) {
        assert_eq!(x.id, y.id);
        assert_eq!(x.account, y.account);
        assert_eq!(x.secret, y.secret);
        assert_eq!(x.desc, y.desc);
        assert_eq!(x.nonce, y.nonce);
        assert_eq!(y.status, 0);
    }
    assert_eq!(second.import_all(&envelope), Ok(4));
    assert_eq!(second.list().unwrap().len(), 4);
}

#[test]
fn import_of_another_key_reveals_as_crypto_error() {
    let (vault, id) = vault_with_one_record();
    let envelope = vault.export_all().unwrap();
    let mut second = fresh();
    second.initialize_or_verify("other").unwrap();
    assert_eq!(second.import_all(&envelope), Ok(1));
    assert_eq!(second.reveal_secret(&id), Err(Error::CryptoError));
}

#[test]
fn corruption_surfaces() {
    let (mut vault, id) = vault_with_one_record();
    let body = vault.database().get(id.as_bytes()).unwrap().unwrap();
    let text = String::from_utf8(body).unwrap();
    let at = text.find("\"secret\":\"").unwrap() + "\"secret\":\"".len();
    let mut bytes = text.into_bytes();
    bytes[at] = if bytes[at] == b'0' { b'1' } else { b'0' };
    let mut table = Database::new(".db").unwrap();
    table.restore(id.as_bytes(), &bytes);
    for key in [&b"SECRET_HASH"[..], &b"ITEM_KEYS"[..]] {
        let value = vault.database().get(key).unwrap().unwrap();
        table.restore(key, &value);
    }
    vault = Vault::new(table);
    assert_eq!(vault.initialize_or_verify("hunter2"), Ok(Unlocked::Verified));
    assert_eq!(vault.reveal_secret(&id), Err(Error::CryptoError));
    let list = vault.list().unwrap();
    assert_eq!(list.len(), 1);
    assert_eq!(list[0].status, 0);
}

#[test]
fn password_too_long() {
    let mut vault = fresh();
    let password = "p".repeat(40);
    assert_eq!(vault.initialize_or_verify(&password), Err(Error::PasswordTooLong));
    assert_eq!(vault.initialize_or_verify(""), Err(Error::InvalidPassword));
    assert!(!vault.is_unlocked());
    assert!(vault.database().get_secret_hash().unwrap().is_none());
}

#[test]
fn bad_envelopes_change_nothing() {
    let (mut vault, _) = vault_with_one_record();
    vault.take_journal();
    assert_eq!(vault.import_all(b"not json"), Err(Error::BadEnvelope));
    assert_eq!(vault.import_all(b"{\"version\":1}"), Err(Error::BadEnvelope));
    assert_eq!(
        vault.import_all(br#"{"version":1,"desc":"","time":"","content":"zz"}"#),
        Err(Error::BadEnvelope)
    );
    assert_eq!(
        vault.import_all(br#"{"version":1,"desc":"","time":"","content":"7b7d"}"#),
        Err(Error::BadEnvelope)
    );
    let reserved =
        r#"[{"id":"ITEM_KEYS","account":"","secret":"","desc":"","status":0,"nonce":""}]"#;
    let envelope = format!(
        r#"{{"version":1,"desc":"","time":"","content":"{}"}}"#,
        to_hex(reserved.as_bytes())
    );
    assert_eq!(vault.import_all(envelope.as_bytes()), Err(Error::BadEnvelope));
    assert_eq!(
        vault.import_all(br#"{"version":4294967296,"desc":"","time":"","content":"5b5d"}"#),
        Err(Error::BadEnvelope)
    );
    assert!(vault.take_journal().is_empty());
    assert_eq!(vault.list().unwrap().len(), 1);
    assert_eq!(
        vault.import_all(br#"{"version":2,"desc":"x","time":"t","content":"5B5D"}"#),
        Ok(0)
    );
}

#[test]
fn duplicates_in_an_envelope_collapse_to_the_last() {
    let list = format!(
        "[{},{},{}]",
        r#"{"id":"a","account":"one","secret":"","desc":"","status":0,"nonce":""}"#,
        r#"{"id":"b","account":"two","secret":"","desc":"","status":0,"nonce":""}"#,
        r#"{"id":"a","account":"three","secret":"","desc":"","status":0,"nonce":""}"#
    );
    let envelope = format!(
        r#"{{"version":1,"desc":"","time":"","content":"{}"}}"#,
        to_hex(list.as_bytes())
    );
    let mut vault = fresh();
    assert_eq!(vault.import_all(envelope.as_bytes()), Ok(3));
    let items = vault.list().unwrap();
    assert_eq!(items.len(), 2);
    assert_eq!(items[0].id, "a");
    assert_eq!(items[0].account, "three");
    assert_eq!(items[1].id, "b");
}

#[test]
fn nonces_do_not_repeat() {
    let key = [3u8; 32];
    let mut seen = HashSet::new();
    for _ in 0..10_000 {
        let (_, nonce) = aes256_encode(b"x", &key).unwrap();
        assert_eq!(nonce.len(), 12);
        assert!(seen.insert(nonce));
    }
}

#[test]
fn any_flipped_bit_fails_decryption() {
    let key = [5u8; 32];
    let (sealed, nonce) = aes256_encode(b"s3cret!", &key).unwrap();
    for byte in 0..sealed.len() {
        for bit in 0..8 {
            let mut other = sealed.clone();
            other[byte] ^= 1 << bit;
            assert_eq!(aes256_decode(&other, &key, &nonce), Err(Error::CryptoError));
        }
    }
    for byte in 0..32 {
        for bit in 0..8 {
            let mut other = key;
            other[byte] ^= 1 << bit;
            assert_eq!(aes256_decode(&sealed, &other, &nonce), Err(Error::CryptoError));
        }
    }
    for byte in 0..12 {
        for bit in 0..8 {
            let mut other = nonce.clone();
            other[byte] ^= 1 << bit;
            assert_eq!(aes256_decode(&sealed, &key, &other), Err(Error::CryptoError));
        }
    }
    assert_eq!(aes256_decode(&sealed[..15], &key, &nonce), Err(Error::CryptoError));
    assert_eq!(aes256_decode(&sealed, &key, &nonce).unwrap(), b"s3cret!".to_vec());
}

#[test]
fn index_and_bodies_agree_after_creates_and_deletes() {
    let mut vault = fresh();
    vault.initialize_or_verify("pw").unwrap();
    let mut ids = Vec::new();
    for n in 0..6 {
        ids.push(vault.create("a", &n.to_string(), "d").unwrap());
    }
    vault.delete(&ids[0]).unwrap();
    vault.delete(&ids[3]).unwrap();
    ids.remove(3);
    ids.remove(0);
    let index = vault.database().get_item_keys().unwrap().unwrap();
    assert_eq!(index, ids);
    for id in &index {
        assert!(vault.database().has_item(id));
    }
    assert_eq!(vault.list().unwrap().len(), 4);
}

#[test]
fn revealing_an_unreadable_body_is_a_crypto_error() {
    let (vault, id) = vault_with_one_record();
    let mut table = Database::new(".db").unwrap();
    table.restore(id.as_bytes(), b"{}");
    for key in [&b"SECRET_HASH"[..], &b"ITEM_KEYS"[..]] {
        let value = vault.database().get(key).unwrap().unwrap();
        table.restore(key, &value);
    }
    let mut vault = Vault::new(table);
    assert_eq!(vault.initialize_or_verify("hunter2"), Ok(Unlocked::Verified));
    assert_eq!(vault.reveal_secret(&id), Err(Error::CryptoError));
    assert!(matches!(vault.list(), Err(Error::CorruptRecord)));
    assert_eq!(vault.export_all(), Err(Error::StoreError));
    vault.delete(&id).unwrap();
    assert!(vault.list().unwrap().is_empty());
}

#[test]
fn a_record_opens_only_with_its_own_nonce_and_hex() {
    let (vault, id) = vault_with_one_record();
    let mut item = vault.list().unwrap().remove(0);
    assert_eq!(item.id, id);
    assert_eq!(vault.open_secret(&item).unwrap(), "s3cret!");
    let shown = vault.reveal_item(&item).unwrap();
    assert_eq!(shown.secret, "s3cret!");
    assert_eq!(shown.status, 1);
    let again = vault.reseal_item(&shown).unwrap();
    assert_eq!(again.secret, item.secret);
    assert_eq!(again.status, 0);
    assert_eq!(vault.toggle_item(&again).unwrap().secret, "s3cret!");
    item.nonce = "00".to_string();
    assert_eq!(vault.open_secret(&item), Err(Error::CryptoError));
    item.nonce = "not hex".to_string();
    assert!(matches!(vault.reseal_item(&item), Err(Error::CryptoError)));
}

#[test]
fn creating_under_a_taken_or_reserved_id_is_refused() {
    let (mut vault, id) = vault_with_one_record();
    let nonce = [1u8; 12];
    assert_eq!(vault.create_with(id, &nonce, "a", "s", "d"), Err(Error::StoreError));
    assert_eq!(
        vault.create_with("ITEM_KEYS".to_string(), &nonce, "a", "s", "d"),
        Err(Error::StoreError)
    );
    assert_eq!(vault.create_with("mine".to_string(), &nonce, "a", "s", "d").unwrap(), "mine");
    assert_eq!(vault.reveal_secret("mine").unwrap(), "s");
    assert_eq!(vault.list().unwrap().len(), 2);
    vault.lock();
    assert_eq!(
        vault.create_with("other".to_string(), &nonce, "a", "s", "d"),
        Err(Error::NotUnlocked)
    );
}

#[test]
fn a_vault_that_lists_exports_text_whatever_ids_its_bodies_carry() {
    let (vault, id) = vault_with_one_record();
    let mut table = Database::new(".db").unwrap();
    let other = r#"{"id":"ITEM_KEYS","account":"","secret":"","desc":"","status":0,"nonce":""}"#;
    table.restore(id.as_bytes(), other.as_bytes());
    let index = vault.database().get(b"ITEM_KEYS").unwrap().unwrap();
    table.restore(b"ITEM_KEYS", &index);
    let odd = Vault::new(table);
    assert_eq!(odd.list().unwrap()[0].id, "ITEM_KEYS");
    let envelope = odd.export_all().unwrap();
    assert!(String::from_utf8(envelope.clone()).is_ok());
    let mut second = fresh();
    assert_eq!(second.import_all(&envelope), Err(Error::BadEnvelope));
}
