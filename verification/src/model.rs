//! The state behind the vault's screens, and what each action of the user does to it.

use crate::db::{Database, WriteView};
use crate::envelope::{all_record_ids, envelope_items, envelope_of};
use crate::error::Error;
use crate::json::strings_json;
use crate::records::{
    consistent, deleting, index_of, is_live, item_at, item_keys_key, live, own_ids, put_all_table,
    put_all_writes, record_key, secret_hash_key, sentinel, without,
};
use crate::shelf::{shelf_del, shelf_of, shelf_put, shelf_put_all};
use crate::text::utf8_text;
use crate::types::{item_json, items_view, InputItem, Item, ItemView};
use crate::utils::{is_uuid_text, widened_key, AES_256_MAX_PLAINTEXT};
use crate::vault::{
    importing, listed, revealing, sealed_under_some_nonce, sentinel_of, toggled, unlocking,
    uuid_taken, Unlocked, Vault,
};
use vstd::prelude::*;
use vstd::string::*;
use vstd::utf8::*;

verus! {

/// The screen that is shown.
#[derive(Clone, Copy, Debug, PartialEq, Eq, Structural)]
pub enum Screen {
    /// The master password is asked for.
    Guild,
    /// The records are listed.
    Home,
    /// A new record is typed in.
    New,
    /// The record at the given place of the list is shown.
    Detail(usize),
}

/// The vault together with what the screens show of it.
#[derive(Debug)]
pub struct CPandas {
    pub vault: Vault,
    pub items: Vec<Item>,
    pub input_secret: String,
    pub new_temp_item: InputItem,
    pub state: Screen,
}

impl CPandas {
    /// Whether the vault is left as it was: table, writes and session.
    pub open spec fn same_vault(&self, other: &CPandas) -> bool {
        &&& self.vault.table() == other.vault.table()
        &&& self.vault.journal() == other.vault.journal()
        &&& self.vault.session() == other.vault.session()
    }

    /// Whether what the user has typed is left as it was.
    pub open spec fn same_inputs(&self, other: &CPandas) -> bool {
        &&& self.input_secret@ == other.input_secret@
        &&& self.new_temp_item.account_value@ == other.new_temp_item.account_value@
        &&& self.new_temp_item.secret_value@ == other.new_temp_item.secret_value@
        &&& self.new_temp_item.desc_value@ == other.new_temp_item.desc_value@
    }

    /// The state at start: the password screen, nothing typed, the vault locked, and the
    /// records that the table lists, or none where it cannot be listed.
    pub fn new(db: Database) -> (cp: CPandas)
        ensures
            cp.vault.table() == db@,
            cp.vault.journal() == db.journal(),
            cp.vault.session() is None,
            cp.state == Screen::Guild,
            cp.input_secret@ == Seq::<char>::empty(),
            cp.new_temp_item.is_clear(),
            items_view(cp.items@) == match listed(db@) {
                Ok(items) => items,
                Err(_) => Seq::empty(),
            },
    {
        let vault = Vault::new(db);
        let items = match vault.list() {
            Ok(items) => items,
            Err(_) => {
                let none: Vec<Item> = Vec::new();
                assert(items_view(none@) =~= Seq::<ItemView>::empty());
                none
            },
        };
        CPandas {
            vault,
            items,
            input_secret: String::new(),
            new_temp_item: InputItem::default(),
            state: Screen::Guild,
        }
    }

    /// The user confirms the master password that is typed in. Nothing happens while
    /// nothing is typed. Else the vault is unlocked with it; where that succeeds the list
    /// of records is shown and the typed password is forgotten.
    pub fn confirm(&mut self) -> (res: Option<Result<Unlocked, Error>>)
        ensures
            res == if old(self).input_secret@.len() == 0 {
                None::<Result<Unlocked, Error>>
            } else {
                Some(unlocking(old(self).vault.table(), old(self).input_secret@))
            },
            final(self).items == old(self).items,
            final(self).new_temp_item == old(self).new_temp_item,
            res matches Some(Ok(_)) ==> {
                let key = widened_key(encode_utf8(old(self).input_secret@));
                &&& final(self).state == Screen::Home
                &&& final(self).input_secret@ == Seq::<char>::empty()
                &&& final(self).vault.session() == Some(key)
                &&& sentinel(final(self).vault.table()) == Some(sentinel_of(key))
                &&& sentinel_of(key).len() == 64
            },
            !(res matches Some(Ok(_))) ==> {
                &&& final(self).state == old(self).state
                &&& final(self).input_secret@ == old(self).input_secret@
                &&& final(self).vault.session() == old(self).vault.session()
            },
            res == Some(Ok::<Unlocked, Error>(Unlocked::Created)) ==> {
                let kept = sentinel_of(widened_key(encode_utf8(old(self).input_secret@)));
                &&& final(self).vault.table() == old(self).vault.table().insert(
                    secret_hash_key(),
                    kept,
                )
                &&& final(self).vault.journal() == old(self).vault.journal().push(
                    WriteView::Put { key: secret_hash_key(), value: kept },
                )
            },
            res != Some(Ok::<Unlocked, Error>(Unlocked::Created)) ==> final(self).vault.table()
                == old(self).vault.table() && final(self).vault.journal() == old(
                self,
            ).vault.journal(),
    {
        if self.input_secret.as_str().unicode_len() == 0 {
            return None;
        }
        let res = self.vault.initialize_or_verify(self.input_secret.as_str());
        if res.is_ok() {
            self.input_secret = String::new();
            self.state = Screen::Home;
        }
        Some(res)
    }

    /// The user asks for the screen on which a new record is typed in.
    pub fn open_new(&mut self)
        ensures
            final(self).state == Screen::New,
            final(self).same_vault(old(self)),
            final(self).same_inputs(old(self)),
            final(self).items == old(self).items,
    {
        self.state = Screen::New;
    }

    /// The user leaves the screen for a new record: what was typed is forgotten and the
    /// list is shown.
    pub fn close_new(&mut self)
        ensures
            final(self).state == Screen::Home,
            final(self).new_temp_item.is_clear(),
            final(self).input_secret@ == old(self).input_secret@,
            final(self).same_vault(old(self)),
            final(self).items == old(self).items,
    {
        self.new_temp_item.clear();
        self.state = Screen::Home;
    }

    /// The user submits the new record that is typed in: it is created in the vault and
    /// joins the end of the list. What was typed stays, and so does the screen.
    /// `NotUnlocked` exactly without a session, `CryptoError` exactly for a secret over the
    /// cipher's limit; `StoreError` where the index cannot be read, and else only where the
    /// id that was drawn already has a body.
    pub fn submit(&mut self) -> (res: Result<String, Error>)
        ensures
            final(self).state == old(self).state,
            final(self).same_inputs(old(self)),
            final(self).vault.session() == old(self).vault.session(),
            old(self).vault.session() is Some && encode_utf8(
                old(self).new_temp_item.secret_value@,
            ).len() <= AES_256_MAX_PLAINTEXT && index_of(old(self).vault.table()) is None ==> res
                == Err::<String, Error>(Error::StoreError),
            res matches Err(e) ==> {
                &&& (e == Error::NotUnlocked) == (old(self).vault.session() is None)
                &&& (e == Error::CryptoError) == (old(self).vault.session() is Some
                    && encode_utf8(old(self).new_temp_item.secret_value@).len()
                    > AES_256_MAX_PLAINTEXT)
                &&& e == Error::StoreError ==> index_of(old(self).vault.table()) is None
                    || uuid_taken(old(self).vault.table())
                &&& e == Error::NotUnlocked || e == Error::CryptoError || e == Error::StoreError
                &&& final(self).same_vault(old(self))
                &&& final(self).items == old(self).items
            },
            res matches Ok(id) ==> {
                &&& old(self).vault.session() matches Some(key)
                &&& encode_utf8(old(self).new_temp_item.secret_value@).len()
                    <= AES_256_MAX_PLAINTEXT
                &&& is_uuid_text(id@)
                &&& !is_live(old(self).vault.table(), id@)
                &&& index_of(old(self).vault.table()) is Some
                &&& index_of(final(self).vault.table()) == Some(
                    live(old(self).vault.table(), index_of(old(self).vault.table())->0).push(id@),
                )
                &&& item_at(final(self).vault.table(), id@) matches Some(item)
                &&& sealed_under_some_nonce(
                    key,
                    item,
                    id@,
                    old(self).new_temp_item.account_value@,
                    old(self).new_temp_item.secret_value@,
                    old(self).new_temp_item.desc_value@,
                )
                &&& final(self).vault.table() == old(self).vault.table().insert(
                    item_keys_key(),
                    strings_json(
                        live(
                            old(self).vault.table(),
                            index_of(old(self).vault.table())->0,
                        ).push(id@),
                    ),
                ).insert(record_key(id@), item_json(item))
                &&& final(self).vault.journal() == old(self).vault.journal().push(
                    WriteView::Put {
                        key: item_keys_key(),
                        value: strings_json(
                            live(
                                old(self).vault.table(),
                                index_of(old(self).vault.table())->0,
                            ).push(id@),
                        ),
                    },
                ).push(WriteView::Put { key: record_key(id@), value: item_json(item) })
                &&& shelf_of(final(self).vault.table()) == shelf_put(
                    shelf_of(old(self).vault.table()),
                    item,
                )
                &&& revealing(final(self).vault.table(), final(self).vault.session(), id@)
                    == Ok::<Seq<char>, Error>(old(self).new_temp_item.secret_value@)
                &&& items_view(final(self).items@) == items_view(old(self).items@).push(item)
            },
            consistent(old(self).vault.table()) ==> consistent(final(self).vault.table()),
            own_ids(old(self).vault.table()) ==> own_ids(final(self).vault.table()),
    {
        let uuid = self.vault.create(
            self.new_temp_item.account_value.as_str(),
            self.new_temp_item.secret_value.as_str(),
            self.new_temp_item.desc_value.as_str(),
        )?;
        match self.vault.database().get_item(uuid.as_str()) {
            Ok(Some(item)) => {
                let ghost before = self.items@;
                self.items.push(item);
                assert(items_view(self.items@) =~= items_view(before).push(item@));
            },
            _ => {},
        }
        Ok(uuid)
    }

    /// The user asks to see, or to hide again, the secret of the record at `index` of the
    /// list: the record in the list is replaced by the one with its secret turned over.
    /// Nothing that is persisted changes. `NotFound` where the list has no such place.
    pub fn toggle_secret(&mut self, index: usize) -> (res: Result<(), Error>)
        ensures
            final(self).state == old(self).state,
            final(self).same_vault(old(self)),
            final(self).same_inputs(old(self)),
            match res {
                Ok(_) => {
                    &&& index < old(self).items@.len()
                    &&& old(self).vault.session() matches Some(key)
                    &&& toggled(key, old(self).items@[index as int]@) matches Ok(turned)
                    &&& items_view(final(self).items@) == items_view(old(self).items@).update(
                        index as int,
                        turned,
                    )
                },
                Err(e) => {
                    &&& final(self).items == old(self).items
                    &&& if index >= old(self).items@.len() {
                        e == Error::NotFound
                    } else {
                        match old(self).vault.session() {
                            Some(key) => toggled(key, old(self).items@[index as int]@) == Err::<
                                ItemView,
                                Error,
                            >(e),
                            None => e == Error::NotUnlocked,
                        }
                    }
                },
            },
    {
        if index >= self.items.len() {
            return Err(Error::NotFound);
        }
        let turned = self.vault.toggle_item(&self.items[index])?;
        let ghost before = self.items@;
        self.items.set(index, turned);
        assert(items_view(self.items@) =~= items_view(before).update(index as int, turned@));
        Ok(())
    }

    /// The user deletes the record at `index` of the list: it is deleted in the vault and
    /// leaves the list, and the list is shown. `NotFound`, and nothing changed, where the
    /// list has no such place or the vault has no such record.
    pub fn delete_selected(&mut self, index: usize) -> (res: Result<(), Error>)
        ensures
            final(self).same_inputs(old(self)),
            final(self).vault.session() == old(self).vault.session(),
            match res {
                Ok(_) => index < old(self).items@.len() && deleting(
                    old(self).vault.table(),
                    old(self).items@[index as int]@.id,
                ) is Ok,
                Err(e) => if index >= old(self).items@.len() {
                    e == Error::NotFound
                } else {
                    deleting(old(self).vault.table(), old(self).items@[index as int]@.id) == Err::<
                        (),
                        Error,
                    >(e)
                },
            },
            res is Ok ==> ({
                let id = old(self).items@[index as int]@.id;
                let next = without(
                    live(old(self).vault.table(), index_of(old(self).vault.table())->0),
                    id,
                );
                &&& final(self).state == Screen::Home
                &&& items_view(final(self).items@) == items_view(old(self).items@).remove(
                    index as int,
                )
                &&& final(self).vault.table() == old(self).vault.table().insert(
                    item_keys_key(),
                    strings_json(next),
                ).remove(record_key(id))
                &&& final(self).vault.journal() == old(self).vault.journal().push(
                    WriteView::Put { key: item_keys_key(), value: strings_json(next) },
                ).push(WriteView::Delete { key: record_key(id) })
                &&& shelf_of(final(self).vault.table()) == shelf_del(
                    shelf_of(old(self).vault.table()),
                    id,
                )
            }),
            res is Err ==> final(self).same_vault(old(self)) && final(self).items == old(
                self,
            ).items && final(self).state == old(self).state,
            consistent(old(self).vault.table()) ==> consistent(final(self).vault.table()),
            own_ids(old(self).vault.table()) ==> own_ids(final(self).vault.table()),
    {
        if index >= self.items.len() {
            return Err(Error::NotFound);
        }
        self.vault.delete(self.items[index].id.as_str())?;
        let ghost before = self.items@;
        self.items.remove(index);
        assert(items_view(self.items@) =~= items_view(before).remove(index as int));
        self.state = Screen::Home;
        Ok(())
    }

    /// The user asks for the envelope of all records, as text for the clipboard.
    /// `StoreError` where the vault cannot be listed.
    pub fn export(&self) -> (res: Result<String, Error>)
        ensures
            match listed(self.vault.table()) {
                Ok(items) => {
                    &&& res matches Ok(text)
                    &&& encode_utf8(text@) == envelope_of(items, Seq::empty(), Seq::empty())
                    &&& envelope_items(encode_utf8(text@)) == if all_record_ids(items) {
                        Some(items)
                    } else {
                        None
                    }
                    &&& own_ids(self.vault.table()) ==> all_record_ids(items)
                },
                Err(_) => res == Err::<String, Error>(Error::StoreError),
            },
    {
        let envelope = self.vault.export_all()?;
        match utf8_text(envelope) {
            Some(text) => Ok(text),
            None => Err(Error::StoreError),
        }
    }

    /// The user hands in the text of an envelope, from the clipboard: its records are
    /// taken into the vault, and the list is read from the vault again. Where the vault
    /// cannot be listed afterwards the list stays as it was.
    pub fn import(&mut self, content: &str) -> (res: Result<usize, Error>)
        ensures
            final(self).state == old(self).state,
            final(self).same_inputs(old(self)),
            final(self).vault.session() == old(self).vault.session(),
            match res {
                Ok(n) => importing(old(self).vault.table(), encode_utf8(content@)) == Ok::<
                    nat,
                    Error,
                >(n as nat),
                Err(e) => importing(old(self).vault.table(), encode_utf8(content@)) == Err::<
                    nat,
                    Error,
                >(e),
            },
            res is Ok ==> ({
                let items = envelope_items(encode_utf8(content@))->0;
                &&& final(self).vault.table() == put_all_table(old(self).vault.table(), items)
                &&& final(self).vault.journal() == old(self).vault.journal() + put_all_writes(
                    old(self).vault.table(),
                    items,
                )
                &&& shelf_of(final(self).vault.table()) == shelf_put_all(
                    shelf_of(old(self).vault.table()),
                    items,
                )
                &&& match listed(final(self).vault.table()) {
                    Ok(now) => items_view(final(self).items@) == now,
                    Err(_) => final(self).items == old(self).items,
                }
            }),
            res is Err ==> final(self).same_vault(old(self)) && final(self).items == old(
                self,
            ).items,
            consistent(old(self).vault.table()) ==> consistent(final(self).vault.table()),
            own_ids(old(self).vault.table()) ==> own_ids(final(self).vault.table()),
    {
        let n = self.vault.import_all(content.as_bytes())?;
        match self.vault.list() {
            Ok(items) => {
                self.items = items;
            },
            Err(_) => {},
        }
        Ok(n)
    }

    /// The user picks the record at `index` of the list: it is shown in detail. Nothing
    /// happens where the list has no such place.
    pub fn view(&mut self, index: usize)
        ensures
            final(self).state == if index < old(self).items@.len() {
                Screen::Detail(index)
            } else {
                old(self).state
            },
            final(self).same_vault(old(self)),
            final(self).same_inputs(old(self)),
            final(self).items == old(self).items,
    {
        if index < self.items.len() {
            self.state = Screen::Detail(index);
        }
    }

    /// The user leaves the detail of a record: the list is shown.
    pub fn close_detail(&mut self)
        ensures
            final(self).state == Screen::Home,
            final(self).same_vault(old(self)),
            final(self).same_inputs(old(self)),
            final(self).items == old(self).items,
    {
        self.state = Screen::Home;
    }
}

} // verus!
