use cpandas::envelope::{pack_items, unpack_items};
use cpandas::json::JsonScalar;
use cpandas::types::{find_member, find_number, find_text, Export, Item};
use cpandas::utils::from_hex;
use cpandas::Database;
use rand::Rng;
use serde_json::Value;

fn tricky() -> Item {
    Item {
        id: "id \"1\"".to_string(),
        account: "back\\slash / slash".to_string(),
        secret: "\u{0}\u{8}\u{c}\n\r\t\u{1f}\u{7f}".to_string(),
        desc: "é ß 漢字 😀 \u{2028}".to_string(),
        status: 0,
        nonce: String::new(),
    }
}

fn random_text(rng: &mut impl Rng) -> String {
    let len = rng.gen_range(0..12);
    (0..len)
        .map(|_| loop {
            let code = match rng.gen_range(0..4) {
                0 => rng.gen_range(0..0x80u32),
                1 => rng.gen_range(0x80..0x800u32),
                2 => rng.gen_range(0x800..0x10000u32),
                _ => rng.gen_range(0x10000..0x110000u32),
            };
            if let Some(c) = char::from_u32(code) {
                break c;
            }
        })
        .collect()
}

#[test]
fn record_text_reads_as_the_same_members_with_serde_json() {
    let item = tricky();
    let value: Value = serde_json::from_slice(&item.to_json()).unwrap();
    let object = value.as_object().unwrap();
    let names: Vec<&str> = object.keys().map(|k| k.as_str()).collect();
    assert_eq!(names, ["id", "account", "secret", "desc", "status", "nonce"]);
    assert_eq!(object["id"].as_str().unwrap(), item.id);
    assert_eq!(object["account"].as_str().unwrap(), item.account);
    assert_eq!(object["secret"].as_str().unwrap(), item.secret);
    assert_eq!(object["desc"].as_str().unwrap(), item.desc);
    assert_eq!(object["status"].as_u64(), Some(0));
    assert_eq!(object["nonce"].as_str().unwrap(), item.nonce);
}

#[test]
fn text_written_by_serde_json_reads_as_a_record() {
    let item = tricky();
    let mut map = serde_json::Map::new();
    map.insert("nonce".to_string(), Value::from(item.nonce.clone()));
    map.insert("status".to_string(), Value::from(3u64));
    map.insert("more".to_string(), Value::from(vec![Value::Null, Value::from(true)]));
    map.insert("desc".to_string(), Value::from(item.desc.clone()));
    map.insert("secret".to_string(), Value::from(item.secret.clone()));
    map.insert("account".to_string(), Value::from(item.account.clone()));
    map.insert("id".to_string(), Value::from(item.id.clone()));
    let pretty = serde_json::to_vec_pretty(&Value::Object(map)).unwrap();
    let back = Item::from_json(&pretty).unwrap();
    assert_eq!(back.id, item.id);
    assert_eq!(back.account, item.account);
    assert_eq!(back.secret, item.secret);
    assert_eq!(back.desc, item.desc);
    assert_eq!(back.nonce, item.nonce);
    assert_eq!(back.status, 0);
}

#[test]
fn random_text_survives_record_index_and_envelope() {
    let mut rng = rand::thread_rng();
    for _ in 0..200 {
        let mut db = Database::new(".db").unwrap();
        let mut items = Vec::new();
        for n in 0..rng.gen_range(0..5) {
            let item = Item {
                id: format!("{n}{}", random_text(&mut rng)),
                account: random_text(&mut rng),
                secret: random_text(&mut rng),
                desc: random_text(&mut rng),
                status: 0,
                nonce: random_text(&mut rng),
            };
            db.put_item(&item).unwrap();
            items.push(item);
        }
        let listed = db.get_item_list().unwrap().unwrap_or_default();
        let unpacked = unpack_items(&pack_items(&items)).unwrap();
        assert_eq!(listed.len(), items.len());
        assert_eq!(unpacked.len(), items.len());
        for ((a, b), c) in items.iter().zip(&listed).zip(&unpacked) {
            for other in [b, c] {
                assert_eq!(a.id, other.id);
                assert_eq!(a.account, other.account);
                assert_eq!(a.secret, other.secret);
                assert_eq!(a.desc, other.desc);
                assert_eq!(a.nonce, other.nonce);
            }
        }
        let ids: Vec<String> = items.iter().map(|i| i.id.clone()).collect();
        if !ids.is_empty() {
            assert_eq!(db.get_item_keys().unwrap().unwrap(), ids);
            let index = db.get(b"ITEM_KEYS").unwrap().unwrap();
            assert_eq!(serde_json::from_slice::<Vec<String>>(&index).unwrap(), ids);
        }
    }
}

#[test]
fn envelope_content_is_the_json_array_that_serde_json_reads() {
    let items = vec![tricky(), Item { id: "b".to_string(), ..tricky() }];
    let content = pack_items(&items);
    let array: Vec<Value> = serde_json::from_slice(&from_hex(&content).unwrap()).unwrap();
    assert_eq!(array.len(), 2);
    assert_eq!(array[0]["id"].as_str().unwrap(), items[0].id);
    assert_eq!(array[1]["id"].as_str().unwrap(), "b");
    assert_eq!(array[1]["desc"].as_str().unwrap(), items[1].desc);
    assert!(unpack_items("5b5d").unwrap().is_empty());
    assert!(unpack_items("5b").is_none());
    assert!(unpack_items("5b315d").is_none());
    assert!(unpack_items("5b7b7d5d").is_none());
}

#[test]
fn members_are_found_by_name_and_kind() {
    let export = Export {
        version: 7,
        desc: "d".to_string(),
        time: "t".to_string(),
        content: "c".to_string(),
    };
    let fields = export.to_members();
    assert_eq!(fields.len(), 4);
    assert!(matches!(find_member(&fields, "version"), Some(JsonScalar::Number(7))));
    assert!(find_member(&fields, "missing").is_none());
    assert_eq!(find_number(&fields, "version"), Some(7));
    assert_eq!(find_number(&fields, "desc"), None);
    assert_eq!(find_text(&fields, "time"), Some("t".to_string()));
    assert_eq!(find_text(&fields, "version"), None);
    let copy = fields[1].1.clone();
    assert!(matches!(copy, JsonScalar::Text(ref s) if s == "d"));
}
