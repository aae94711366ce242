use cpandas::db::{Database, Write};
use cpandas::error::Error;
use cpandas::types::Item;
use cpandas::utils::new_id;

fn sample(id: &str) -> Item {
    Item {
        id: id.to_string(),
        account: "test01".to_string(),
        secret: "abcd1234".to_string(),
        desc: "email".to_string(),
        status: 0,
        nonce: "".to_string(),
    }
}

#[test]
fn it_works() {
    let mut database = Database::new(".db").unwrap();
    database.put(b"account", b"password").unwrap();
    let data = database.get(b"account").unwrap().unwrap();
    println!("{:?}", String::from_utf8(data.clone()));
    assert_eq!(data, b"password".to_vec());
    database.delete(b"account").unwrap();

    let option = database.get(b"account").unwrap();
    println!("{:?}", option);
    assert_eq!(option, None);
}

#[test]
fn db_test() {
    let mut database = Database::new(".db").unwrap();
    database.put(b"account", b"password").unwrap();
    let data = database.get(b"account").unwrap().unwrap();
    println!("{:?}", String::from_utf8(data.clone()));
    assert_eq!(data, b"password".to_vec());
    database.delete(b"account").unwrap();

    let option = database.get(b"account").unwrap();
    println!("{:?}", option);
    assert!(option.is_none());
}

#[test]
fn secret_hash() {
    let mut db = Database::new(".db").unwrap();
    db.put_secret_hash(b"ddddd").unwrap();
    let option = db.get_secret_hash().unwrap().unwrap();
    let result = String::from_utf8(option).unwrap();
    println!("{:?}", result);
    assert_eq!(result, "ddddd");
}

#[test]
fn db_operation() {
    let mut db = Database::new(".db").unwrap();
    let items = db.get_item_list().unwrap();
    assert!(items.is_none());

    let uuid = new_id();
    let item = sample(&uuid);
    db.put_item(&item).unwrap();
    println!("add item: {:?}", uuid);

    let option = db.get_item(&uuid).unwrap();
    let it = option.unwrap();
    println!("get item: {:?}", it);
    assert_eq!(it.id, uuid);
    assert_eq!(it.account, "test01");
    assert_eq!(it.secret, "abcd1234");
    assert_eq!(it.desc, "email");
    assert_eq!(it.status, 0);
    assert_eq!(it.nonce, "");

    let items = db.get_item_list().unwrap().unwrap();
    for i in &items {
        println!("item2 list: {:?}", i);
    }
    assert_eq!(items.len(), 1);
    assert_eq!(items[0].id, uuid);
    println!("end ...");
}

#[test]
fn record_body_has_the_persisted_layout() {
    let mut db = Database::new(".db").unwrap();
    db.put_item(&sample("a-1")).unwrap();
    let body = db.get(b"a-1").unwrap().unwrap();
    assert_eq!(
        String::from_utf8(body).unwrap(),
        r#"{"id":"a-1","account":"test01","secret":"abcd1234","desc":"email","status":0,"nonce":""}"#
    );
    let index = db.get(b"ITEM_KEYS").unwrap().unwrap();
    assert_eq!(String::from_utf8(index).unwrap(), r#"["a-1"]"#);
}

#[test]
fn writes_are_journaled_index_first() {
    let mut db = Database::new(".db").unwrap();
    db.put_item(&sample("a-1")).unwrap();
    let writes = db.take_journal();
    assert_eq!(writes.len(), 2);
    match &writes[0] {
        Write::Put { key, value } => {
            assert_eq!(key, b"ITEM_KEYS");
            assert_eq!(value, br#"["a-1"]"#);
        }
        Write::Delete { .. } => panic!("the index is written, not deleted"),
    }
    match &writes[1] {
        Write::Put { key, .. } => assert_eq!(key, b"a-1"),
        Write::Delete { .. } => panic!("the body is written, not deleted"),
    }
    assert!(db.take_journal().is_empty());

    db.del_item("a-1").unwrap();
    let writes = db.take_journal();
    assert_eq!(writes.len(), 2);
    match &writes[0] {
        Write::Put { key, value } => {
            assert_eq!(key, b"ITEM_KEYS");
            assert_eq!(value, b"[]");
        }
        Write::Delete { .. } => panic!("the index is written first"),
    }
    match &writes[1] {
        Write::Delete { key } => assert_eq!(key, b"a-1"),
        Write::Put { .. } => panic!("the body is deleted"),
    }
}

#[test]
fn index_keeps_insertion_order_and_no_id_twice() {
    let mut db = Database::new(".db").unwrap();
    db.put_item(&sample("b")).unwrap();
    db.put_item(&sample("a")).unwrap();
    db.put_item(&sample("c")).unwrap();
    let mut again = sample("a");
    again.account = "changed".to_string();
    db.put_item(&again).unwrap();
    assert_eq!(db.get_item_keys().unwrap().unwrap(), vec!["b", "a", "c"]);
    let items = db.get_item_list().unwrap().unwrap();
    assert_eq!(items.len(), 3);
    assert_eq!(items[1].account, "changed");
    db.del_item("b").unwrap();
    assert_eq!(db.get_item_keys().unwrap().unwrap(), vec!["a", "c"]);
    assert_eq!(db.get(b"b").unwrap(), None);
}

#[test]
fn deleting_what_is_not_there_is_not_found() {
    let mut db = Database::new(".db").unwrap();
    assert_eq!(db.del_item("nothing"), Err(Error::NotFound));
    db.put_item(&sample("a")).unwrap();
    assert_eq!(db.del_item("nothing"), Err(Error::NotFound));
    assert_eq!(db.del_item("ITEM_KEYS"), Err(Error::NotFound));
    assert_eq!(db.del_item("SECRET_HASH"), Err(Error::NotFound));
    assert_eq!(db.get_item_keys().unwrap().unwrap(), vec!["a"]);
}

#[test]
fn reserved_keys_name_no_record() {
    let mut db = Database::new(".db").unwrap();
    assert_eq!(db.put_item(&sample("ITEM_KEYS")), Err(Error::StoreError));
    assert_eq!(db.put_item(&sample("SECRET_HASH")), Err(Error::StoreError));
    assert!(db.get(b"ITEM_KEYS").unwrap().is_none());
    db.put_secret_hash(b"00").unwrap();
    assert!(db.get_item("SECRET_HASH").unwrap().is_none());
}

#[test]
fn unreadable_index_is_a_store_error() {
    let mut db = Database::new(".db").unwrap();
    db.put(b"ITEM_KEYS", b"not json").unwrap();
    assert_eq!(db.get_item_keys(), Err(Error::StoreError));
    assert!(matches!(db.get_item_list(), Err(Error::StoreError)));
    assert_eq!(db.put_item(&sample("a")), Err(Error::StoreError));
    assert_eq!(db.del_item("a"), Err(Error::StoreError));
    assert!(db.get(b"a").unwrap().is_none());
}

#[test]
fn unreadable_body_is_a_corrupt_record() {
    let mut db = Database::new(".db").unwrap();
    db.put_item(&sample("a")).unwrap();
    db.put(b"a", b"{\"id\":\"a\"}").unwrap();
    assert!(matches!(db.get_item("a"), Err(Error::CorruptRecord)));
    assert!(matches!(db.get_item_list(), Err(Error::CorruptRecord)));
    db.del_item("a").unwrap();
    assert_eq!(db.get_item_list().unwrap().unwrap().len(), 0);
}

#[test]
fn status_is_ignored_on_read_and_unknown_members_are_passed_over() {
    let mut db = Database::new(".db").unwrap();
    db.put_item(&sample("a")).unwrap();
    db.put(
        b"a",
        br#"{"extra":[1,{"x":null}],"nonce":"n","status":7,"desc":"d","secret":"s",
            "account":"acc","id":"a"}"#,
    )
    .unwrap();
    let item = db.get_item("a").unwrap().unwrap();
    assert_eq!(item.status, 0);
    assert_eq!(item.account, "acc");
    assert_eq!(item.nonce, "n");
    db.put(
        b"a",
        br#"{"id":"a","account":"","secret":"","desc":"","status":-1,"nonce":""}"#,
    )
    .unwrap();
    assert!(matches!(db.get_item("a"), Err(Error::CorruptRecord)));
}

#[test]
fn an_indexed_id_without_a_body_is_skipped_then_pruned() {
    let mut db = Database::new(".db").unwrap();
    db.put_item(&sample("a")).unwrap();
    db.put_item(&sample("b")).unwrap();
    db.delete(b"a").unwrap();
    let items = db.get_item_list().unwrap().unwrap();
    assert_eq!(items.len(), 1);
    assert_eq!(items[0].id, "b");
    assert_eq!(db.get_item_keys().unwrap().unwrap(), vec!["a", "b"]);
    db.put_item(&sample("c")).unwrap();
    assert_eq!(db.get_item_keys().unwrap().unwrap(), vec!["b", "c"]);
}

#[test]
fn text_with_quotes_and_controls_survives_the_body() {
    let mut db = Database::new(".db").unwrap();
    let mut item = sample("a");
    item.account = "q\"uote\\ \n\t\u{1} é 漢 😀".to_string();
    db.put_item(&item).unwrap();
    assert_eq!(db.get_item("a").unwrap().unwrap().account, item.account);
}

#[test]
fn ids_with_quotes_controls_and_wide_characters_survive_the_index() {
    let mut db = Database::new(".db").unwrap();
    let ids = ["we\"ird\\id", "line\nbreak\ttab", "\u{1}\u{7f}", "é漢😀", "", " "];
    for id in ids {
        db.put_item(&sample(id)).unwrap();
    }
    assert_eq!(db.get_item_keys().unwrap().unwrap(), ids);
    let items = db.get_item_list().unwrap().unwrap();
    assert_eq!(items.len(), ids.len());
    for (item, id) in items.iter().zip(ids) {
        assert_eq!(item.id, id);
        assert!(db.has_item(id));
    }
    db.del_item("é漢😀").unwrap();
    assert_eq!(db.get_item_keys().unwrap().unwrap().len(), ids.len() - 1);
    assert_eq!(db.location(), ".db");
}

#[test]
fn restoring_records_no_write() {
    let mut db = Database::new("somewhere").unwrap();
    db.restore(b"k", b"v");
    assert!(db.contains(b"k"));
    assert!(db.take_journal().is_empty());
    db.restore(b"k", b"w");
    assert_eq!(db.get(b"k").unwrap().unwrap(), b"w".to_vec());
}

#[test]
fn a_record_is_listed_as_its_body_holds_it_whatever_id_it_carries() {
    let mut db = Database::new(".db").unwrap();
    db.put_item(&sample("a")).unwrap();
    db.put(b"a", br#"{"id":"b","account":"x","secret":"","desc":"","status":0,"nonce":""}"#)
        .unwrap();
    let found = db.get_item("a").unwrap().unwrap();
    assert_eq!(found.id, "b");
    assert_eq!(found.account, "x");
    let items = db.get_item_list().unwrap().unwrap();
    assert_eq!(items.len(), 1);
    assert_eq!(items[0].id, "b");
    assert!(db.get_item("b").unwrap().is_none());
}
