use cpandas::{CPandas, Database, Error, Screen, Unlocked};

fn started() -> CPandas {
    CPandas::new(Database::new(".db").unwrap())
}

fn unlocked() -> CPandas {
    let mut cp = started();
    cp.input_secret = "hunter2".to_string();
    assert_eq!(cp.confirm(), Some(Ok(Unlocked::Created)));
    cp
}

fn with_record() -> CPandas {
    let mut cp = unlocked();
    cp.open_new();
    cp.new_temp_item.account_value = "gmail".to_string();
    cp.new_temp_item.secret_value = "s3cret!".to_string();
    cp.new_temp_item.desc_value = "mail".to_string();
    cp.submit().unwrap();
    cp.close_new();
    cp
}

#[test]
fn starts_on_the_password_screen() {
    let mut cp = started();
    assert_eq!(cp.state, Screen::Guild);
    assert!(cp.items.is_empty());
    assert_eq!(cp.confirm(), None);
    assert_eq!(cp.state, Screen::Guild);
    assert!(!cp.vault.is_unlocked());
}

#[test]
fn confirm_unlocks_and_shows_the_list() {
    let mut cp = unlocked();
    assert_eq!(cp.state, Screen::Home);
    assert_eq!(cp.input_secret, "");
    assert!(cp.vault.is_unlocked());
    cp.vault.lock();
    cp.state = Screen::Guild;
    cp.input_secret = "wrong".to_string();
    assert_eq!(cp.confirm(), Some(Err(Error::BadPassword)));
    assert_eq!(cp.state, Screen::Guild);
    assert_eq!(cp.input_secret, "wrong");
    cp.input_secret = "hunter2".to_string();
    assert_eq!(cp.confirm(), Some(Ok(Unlocked::Verified)));
    assert_eq!(cp.state, Screen::Home);
}

#[test]
fn submit_adds_the_record_to_vault_and_list() {
    let mut cp = unlocked();
    cp.open_new();
    assert_eq!(cp.state, Screen::New);
    cp.new_temp_item.account_value = "gmail".to_string();
    cp.new_temp_item.secret_value = "s3cret!".to_string();
    cp.new_temp_item.desc_value = "mail".to_string();
    let id = cp.submit().unwrap();
    assert_eq!(cp.state, Screen::New);
    assert_eq!(cp.new_temp_item.account_value, "gmail");
    assert_eq!(cp.items.len(), 1);
    assert_eq!(cp.items[0].id, id);
    assert_eq!(cp.items[0].account, "gmail");
    assert_eq!(cp.vault.list().unwrap().len(), 1);
    cp.close_new();
    assert_eq!(cp.state, Screen::Home);
    assert_eq!(cp.new_temp_item.account_value, "");
    assert_eq!(cp.new_temp_item.secret_value, "");
}

#[test]
fn submit_without_a_session_is_refused() {
    let mut cp = started();
    cp.new_temp_item.secret_value = "x".to_string();
    assert_eq!(cp.submit(), Err(Error::NotUnlocked));
    assert!(cp.items.is_empty());
}

#[test]
fn toggling_shows_the_secret_and_seals_it_to_the_same_text() {
    let mut cp = with_record();
    cp.view(0);
    assert_eq!(cp.state, Screen::Detail(0));
    let sealed = cp.items[0].secret.clone();
    cp.toggle_secret(0).unwrap();
    assert_eq!(cp.items[0].secret, "s3cret!");
    assert_eq!(cp.items[0].status, 1);
    assert_eq!(cp.vault.list().unwrap()[0].secret, sealed);
    cp.toggle_secret(0).unwrap();
    assert_eq!(cp.items[0].secret, sealed);
    assert_eq!(cp.items[0].status, 0);
    assert_eq!(cp.toggle_secret(3), Err(Error::NotFound));
    cp.close_detail();
    assert_eq!(cp.state, Screen::Home);
    cp.view(9);
    assert_eq!(cp.state, Screen::Home);
}

#[test]
fn deleting_the_selected_record() {
    let mut cp = with_record();
    let id = cp.items[0].id.clone();
    cp.view(0);
    assert_eq!(cp.delete_selected(1), Err(Error::NotFound));
    assert_eq!(cp.state, Screen::Detail(0));
    cp.delete_selected(0).unwrap();
    assert_eq!(cp.state, Screen::Home);
    assert!(cp.items.is_empty());
    assert!(cp.vault.list().unwrap().is_empty());
    assert!(!cp.vault.database().has_item(&id));
}

#[test]
fn export_text_is_taken_in_by_a_second_vault() {
    let cp = with_record();
    let text = cp.export().unwrap();
    assert!(text.starts_with("{\"version\":1,"));
    let mut second = unlocked();
    assert_eq!(second.import(&text), Ok(1));
    assert_eq!(second.items.len(), 1);
    assert_eq!(second.items[0].id, cp.items[0].id);
    assert_eq!(second.items[0].secret, cp.items[0].secret);
    assert_eq!(second.items[0].nonce, cp.items[0].nonce);
    second.toggle_secret(0).unwrap();
    assert_eq!(second.items[0].secret, "s3cret!");
    assert_eq!(second.import("nonsense"), Err(Error::BadEnvelope));
    assert_eq!(second.items.len(), 1);
}

#[test]
fn starts_with_the_records_that_the_table_lists() {
    let mut cp = with_record();
    let id = cp.items[0].id.clone();
    let mut table = Database::new(".db").unwrap();
    for write in cp.vault.take_journal() {
        match write {
            cpandas::db::Write::Put { key, value } => table.restore(&key, &value),
            cpandas::db::Write::Delete { key } => {
                table.delete(&key).unwrap();
            }
        }
    }
    table.take_journal();
    let again = CPandas::new(table);
    assert_eq!(again.items.len(), 1);
    assert_eq!(again.items[0].id, id);
    assert_eq!(again.state, Screen::Guild);
}

#[test]
fn error_messages_are_told_apart() {
    assert_eq!(Error::BadPassword.message(), "the password does not match");
    assert_ne!(Error::NotFound.message(), Error::StoreError.message());
}
