use cpandas::types::{Export, InputItem, Item};
use cpandas::text::utf8_text;
use cpandas::utils::{
    aes256_hex_decrypt, aes256_hex_encrypt, aes256_key, from_hex, from_prefixed_hex, new_id,
    to_hex,
};
use cpandas::Error;

#[test]
fn clear_empties_all_three_inputs() {
    let mut input = InputItem {
        account_value: "a".to_string(),
        secret_value: "s".to_string(),
        desc_value: "d".to_string(),
    };
    let copy = input.clone();
    input.clear();
    assert_eq!(input.account_value, "");
    assert_eq!(input.secret_value, "");
    assert_eq!(input.desc_value, "");
    assert_eq!(copy.secret_value, "s");
    let fresh = InputItem::default();
    assert_eq!(fresh.account_value, "");
}

#[test]
fn hex_text_is_lowercase_and_reads_either_case() {
    assert_eq!(to_hex(&[0x00, 0x0f, 0xa5, 0xff]), "000fa5ff");
    assert_eq!(to_hex(b"Hello world!"), "48656c6c6f20776f726c6421");
    assert_eq!(from_hex("000FA5ff"), Some(vec![0x00, 0x0f, 0xa5, 0xff]));
    assert_eq!(from_hex(""), Some(vec![]));
    assert_eq!(from_hex("abc"), None);
    assert_eq!(from_hex("zz"), None);
    assert_eq!(from_hex("0x12"), None);
    assert_eq!(from_hex("é1"), None);
    assert_eq!(from_prefixed_hex("0x12"), Some(vec![0x12]));
    assert_eq!(from_prefixed_hex("0x0x12"), Some(vec![0x12]));
    assert_eq!(from_prefixed_hex("12"), Some(vec![0x12]));
    assert_eq!(from_prefixed_hex("0X12"), None);
}

#[test]
fn hex_encrypt_then_hex_decrypt() {
    let key = to_hex(&aes256_key().unwrap());
    assert_eq!(key.len(), 64);
    let (cipher_hex, nonce_hex) = aes256_hex_encrypt("s3cret!", &key).unwrap();
    assert_eq!(nonce_hex.len(), 24);
    assert_eq!(cipher_hex.len(), 2 * (7 + 16));
    let plain = aes256_hex_decrypt(&cipher_hex, &format!("0x{key}"), &nonce_hex).unwrap();
    assert_eq!(plain, b"s3cret!".to_vec());
    assert_eq!(aes256_hex_decrypt("xyz", &key, &nonce_hex), Err(Error::CryptoError));
    assert_eq!(aes256_hex_encrypt("s3cret!", "not hex"), Err(Error::CryptoError));
}

#[test]
fn ids_are_hyphenated_lowercase_hex() {
    let id = new_id();
    assert_eq!(id.len(), 36);
    for (i, c) in id.chars().enumerate() {
        if [8, 13, 18, 23].contains(&i) {
            assert_eq!(c, '-');
        } else {
            assert!(c.is_ascii_digit() || ('a'..='f').contains(&c));
        }
    }
    assert_ne!(id, new_id());
}

#[test]
fn utf8_text_reads_only_utf8() {
    assert_eq!(utf8_text("é漢".as_bytes().to_vec()), Some("é漢".to_string()));
    assert_eq!(utf8_text(vec![0xff, 0x00]), None);
}

#[test]
fn record_json_round_trip() {
    let item = Item {
        id: "id-1".to_string(),
        account: "acc".to_string(),
        secret: "00ff".to_string(),
        desc: "d".to_string(),
        status: 1,
        nonce: "aa".to_string(),
    };
    let text = item.to_json();
    assert_eq!(
        String::from_utf8(text.clone()).unwrap(),
        r#"{"id":"id-1","account":"acc","secret":"00ff","desc":"d","status":0,"nonce":"aa"}"#
    );
    let back = Item::from_json(&text).unwrap();
    assert_eq!(back.id, "id-1");
    assert_eq!(back.secret, "00ff");
    assert_eq!(back.status, 0);
    let copy = item.clone();
    assert_eq!(copy.status, 1);
    assert_eq!(copy.nonce, "aa");
    assert!(Item::from_json(b"[]").is_none());
    for status in ["0.5", "\"0\"", "null", "-1", "18446744073709551616"] {
        let text = format!(
            r#"{{"id":"","account":"","secret":"","desc":"","status":{status},"nonce":""}}"#
        );
        assert!(Item::from_json(text.as_bytes()).is_none());
    }
    let number_for_id = r#"{"id":1,"account":"","secret":"","desc":"","status":0,"nonce":""}"#;
    assert!(Item::from_json(number_for_id.as_bytes()).is_none());
    assert_eq!(Item::default().id, "");
}

#[test]
fn envelope_json_round_trip() {
    let export = Export {
        version: 1,
        desc: "de\"sc".to_string(),
        time: "now".to_string(),
        content: "5b5d".to_string(),
    };
    let text = export.to_json();
    assert_eq!(
        String::from_utf8(text.clone()).unwrap(),
        r#"{"version":1,"desc":"de\"sc","time":"now","content":"5b5d"}"#
    );
    let back = Export::from_json(&text).unwrap();
    assert_eq!(back.version, 1);
    assert_eq!(back.desc, "de\"sc");
    assert_eq!(back.time, "now");
    assert_eq!(back.content, "5b5d");
    assert_eq!(export.clone().content, "5b5d");
    assert_eq!(Export::default().version, 0);
    let negative = br#"{"version":-3,"desc":"","time":"","content":""}"#;
    assert_eq!(Export::from_json(negative).unwrap().version, -3);
}

#[test]
fn types_test() {
    let key = "abcd12347".to_string();
    let new_key = cpandas::utils::get_valid_aes_key(key).unwrap();
    println!("{}", String::from_utf8_lossy(&new_key));
    assert_eq!(new_key, b"abcd12347abcd12347abcd12347abcd1".to_vec());
}

#[test]
fn envelope_versions_span_32_bits() {
    for version in [i32::MIN, -1, 0, 1, i32::MAX] {
        let export = Export {
            version,
            desc: String::new(),
            time: String::new(),
            content: String::new(),
        };
        assert_eq!(Export::from_json(&export.to_json()).unwrap().version, version);
    }
    assert!(Export::from_json(br#"{"version":2147483648,"desc":"","time":"","content":""}"#)
        .is_none());
    assert!(Export::from_json(br#"{"version":1.0,"desc":"","time":"","content":""}"#).is_none());
}

#[test]
fn widening_of_wide_characters_keeps_all_32_bytes() {
    let key = cpandas::utils::get_valid_aes_key("€".to_string()).unwrap();
    assert_eq!(key.len(), 32);
    assert_eq!(&key[..3], "€".as_bytes());
    assert_eq!(&key[30..], &"€".as_bytes()[..2]);
}

#[test]
fn any_status_that_is_a_natural_number_of_64_bits_is_passed_over() {
    for status in ["0", "1", "9223372036854775807", "9223372036854775808", "18446744073709551615"] {
        let text = format!(
            r#"{{"id":"a","account":"","secret":"","desc":"","status":{status},"nonce":""}}"#
        );
        let item = Item::from_json(text.as_bytes()).unwrap();
        assert_eq!(item.id, "a");
        assert_eq!(item.status, 0);
    }
}
