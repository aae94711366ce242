//! The vault: the records under a master password, and the session that holds the key
//! while the vault is unlocked.

use crate::db::{writes_view, Database, Kv, Write, WriteView};
use crate::envelope::{
    all_record_ids, envelope_items, envelope_of, items_from_content, pack_items, unpack_items,
};
use crate::error::Error;
use crate::hexcode::{hex_bytes, hex_decoded, hex_text, lemma_hex_round_trip, lemma_hex_text_bytes};
use crate::json::strings_json;
use crate::records::{
    consistent, deleting, has_index, index_of, is_live, is_record_id, item_at, item_keys_key,
    lemma_live_members, lemma_records_listed, listing, live, looked_up, no_dangling, own_ids,
    put_all_table, put_all_writes, put_writes, record_key, secret_hash_key, sentinel, without,
};
use crate::shelf::{shelf_del, shelf_of, shelf_put, shelf_put_all};
use crate::text::{bytes_equal, str_equal, utf8_text};
use crate::types::{
    export_from_json, item_json, items_view, persisted_all, Export, Item, ItemView, EXPORT_VERSION,
    STATUS_REVEALED, STATUS_SEALED,
};
use crate::utils::{
    aes256_decode, aes256_encode_with_nonce, aes256_gcm_opened, aes256_gcm_sealed, from_hex,
    gen_rand_key, get_valid_aes_key, is_uuid_text, new_id, opened_or_error, sha256, sha256_digest,
    to_hex, widened_key, widening, AES_256_KEY_NUM, AES_256_MAX_PLAINTEXT, AES_256_NONCE_NUM,
    AES_256_TAG_NUM,
};
use vstd::prelude::*;
use vstd::string::*;
use vstd::utf8::*;

verus! {

/// How an unlock ended where the password was accepted.
#[derive(Clone, Copy, Debug, PartialEq, Eq, Structural)]
pub enum Unlocked {
    /// The vault had no digest yet: the password's digest is kept from now on.
    Created,
    /// The password's digest is the one that the vault keeps.
    Verified,
}

/// The digest that is kept for a key: the hex text of its SHA-256 digest, as bytes.
pub open spec fn sentinel_of(key: Seq<u8>) -> Seq<u8> {
    hex_bytes(sha256_digest(key))
}

/// How unlocking with `password` ends: the password is widened to a key, and the key's
/// digest is kept where the table has none, or else has to be the one that the table keeps.
pub open spec fn unlocking(kv: Kv, password: Seq<char>) -> Result<Unlocked, Error> {
    match widening(encode_utf8(password)) {
        Err(e) => Err(e),
        Ok(key) => match sentinel(kv) {
            None => Ok(Unlocked::Created),
            Some(kept) => if kept == sentinel_of(key) {
                Ok(Unlocked::Verified)
            } else {
                Err(Error::BadPassword)
            },
        },
    }
}

/// What listing the vault gives: the records in the order of the index, none where the
/// table holds no index.
pub open spec fn listed(kv: Kv) -> Result<Seq<ItemView>, Error> {
    match listing(kv) {
        Ok(Some(items)) => Ok(items),
        Ok(None) => Ok(Seq::empty()),
        Err(e) => Err(e),
    }
}

/// The secret of a sealed record in plain text, under `key`: `CryptoError` where secret or
/// nonce is not hex text, the nonce is not 12 bytes, the ciphertext is over the cipher's
/// limit or does not authenticate, or the plaintext is not UTF-8.
pub open spec fn plaintext_of(key: Seq<u8>, item: ItemView) -> Result<Seq<char>, Error> {
    match (hex_decoded(encode_utf8(item.secret)), hex_decoded(encode_utf8(item.nonce))) {
        (Some(sealed), Some(nonce)) => if nonce.len() != AES_256_NONCE_NUM {
            Err(Error::CryptoError)
        } else {
            match opened_or_error(key, nonce, sealed) {
                Ok(plain) => if valid_utf8(plain) {
                    Ok(decode_utf8(plain))
                } else {
                    Err(Error::CryptoError)
                },
                Err(_) => Err(Error::CryptoError),
            }
        },
        _ => Err(Error::CryptoError),
    }
}

/// What revealing the record `id` gives: `NotUnlocked` without a session, `NotFound` where
/// no body is kept under the id, `CryptoError` where the body cannot be read as the record
/// of that id or its secret does not open, else the secret in plain text.
pub open spec fn revealing(kv: Kv, session: Option<Seq<u8>>, id: Seq<char>) -> Result<
    Seq<char>,
    Error,
> {
    match session {
        None => Err(Error::NotUnlocked),
        Some(key) => match looked_up(kv, id) {
            Ok(Some(item)) => plaintext_of(key, item),
            Ok(None) => Err(Error::NotFound),
            Err(_) => Err(Error::CryptoError),
        },
    }
}

/// What a result that holds text holds.
pub open spec fn text_result(res: Result<String, Error>) -> Result<Seq<char>, Error> {
    match res {
        Ok(text) => Ok(text@),
        Err(e) => Err(e),
    }
}

/// What a result that holds records holds.
pub open spec fn items_result(res: Result<Vec<Item>, Error>) -> Result<Seq<ItemView>, Error> {
    match res {
        Ok(items) => Ok(items_view(items@)),
        Err(e) => Err(e),
    }
}

/// The sealed record for a secret: the secret's ciphertext under `key` and `nonce` and the
/// nonce, both as hex text.
pub open spec fn sealed_item(
    key: Seq<u8>,
    nonce: Seq<u8>,
    id: Seq<char>,
    account: Seq<char>,
    secret: Seq<char>,
    desc: Seq<char>,
) -> ItemView {
    ItemView {
        id,
        account,
        secret: hex_text(aes256_gcm_sealed(key, nonce, encode_utf8(secret))),
        desc,
        status: STATUS_SEALED as nat,
        nonce: hex_text(nonce),
    }
}

/// Whether a record can be created under `id`: `NotUnlocked` without a session,
/// `CryptoError` for a secret over the cipher's limit, `StoreError` where the id is a
/// reserved key or already has a body, or the index cannot be read.
pub open spec fn creating(
    kv: Kv,
    session: Option<Seq<u8>>,
    id: Seq<char>,
    secret: Seq<char>,
) -> Result<(), Error> {
    if session is None {
        Err(Error::NotUnlocked)
    } else if encode_utf8(secret).len() > AES_256_MAX_PLAINTEXT {
        Err(Error::CryptoError)
    } else if !is_record_id(id) || is_live(kv, id) || index_of(kv) is None {
        Err(Error::StoreError)
    } else {
        Ok(())
    }
}

/// Whether `item` is the sealed record for the secret under some nonce of the right width.
pub open spec fn sealed_under_some_nonce(
    key: Seq<u8>,
    item: ItemView,
    id: Seq<char>,
    account: Seq<char>,
    secret: Seq<char>,
    desc: Seq<char>,
) -> bool {
    exists|nonce: Seq<u8>|
        nonce.len() == AES_256_NONCE_NUM && item == #[trigger] sealed_item(
            key,
            nonce,
            id,
            account,
            secret,
            desc,
        )
}

/// Whether a body is kept under some id of the shape that fresh ids have.
pub open spec fn uuid_taken(kv: Kv) -> bool {
    exists|id: Seq<char>| is_uuid_text(id) && #[trigger] is_live(kv, id)
}

/// An id of the shape that fresh ids have can name a record.
pub proof fn lemma_uuid_names_a_record(id: Seq<char>)
    requires
        is_uuid_text(id),
    ensures
        is_record_id(id),
{
    reveal_strlit("SECRET_HASH");
    reveal_strlit("ITEM_KEYS");
    assert("SECRET_HASH"@.len() == 11 && "ITEM_KEYS"@.len() == 9);
}

/// A sealed record as it is shown: its secret in plain text, its status `STATUS_REVEALED`.
pub open spec fn shown(key: Seq<u8>, item: ItemView) -> Result<ItemView, Error> {
    match plaintext_of(key, item) {
        Ok(plain) => Ok(ItemView { secret: plain, status: STATUS_REVEALED as nat, ..item }),
        Err(e) => Err(e),
    }
}

/// A shown record sealed again under its own nonce: `CryptoError` where the nonce is not
/// the hex text of 12 bytes or the secret is over the cipher's limit.
pub open spec fn resealed(key: Seq<u8>, item: ItemView) -> Result<ItemView, Error> {
    match hex_decoded(encode_utf8(item.nonce)) {
        Some(nonce) => if nonce.len() != AES_256_NONCE_NUM || encode_utf8(item.secret).len()
            > AES_256_MAX_PLAINTEXT {
            Err(Error::CryptoError)
        } else {
            Ok(
                ItemView {
                    secret: hex_text(aes256_gcm_sealed(key, nonce, encode_utf8(item.secret))),
                    status: STATUS_SEALED as nat,
                    ..item
                },
            )
        },
        None => Err(Error::CryptoError),
    }
}

/// A record with its secret turned over: a sealed one is shown, any other is sealed again.
pub open spec fn toggled(key: Seq<u8>, item: ItemView) -> Result<ItemView, Error> {
    if item.status == STATUS_SEALED {
        shown(key, item)
    } else {
        resealed(key, item)
    }
}

/// Whether the secret of a record is ciphertext in the form in which sealing writes it:
/// lowercase hex text.
pub open spec fn canonical_secret(item: ItemView) -> bool {
    hex_decoded(encode_utf8(item.secret)) matches Some(sealed) && item.secret == hex_text(sealed)
}

/// What a result that holds a record holds.
pub open spec fn item_result(res: Result<Item, Error>) -> Result<ItemView, Error> {
    match res {
        Ok(item) => Ok(item@),
        Err(e) => Err(e),
    }
}

/// Whether an envelope can be taken in, and how many records it carries: `BadEnvelope`
/// where the text carries no records, `StoreError` where the index cannot be read.
pub open spec fn importing(kv: Kv, text: Seq<u8>) -> Result<nat, Error> {
    match envelope_items(text) {
        None => Err(Error::BadEnvelope),
        Some(items) => if index_of(kv) is None {
            Err(Error::StoreError)
        } else {
            Ok(items.len())
        },
    }
}

/// The records under a master password.
#[derive(Debug)]
pub struct Vault {
    db: Database,
    key: Option<Vec<u8>>,
}

impl Vault {
    /// What the vault's table holds.
    pub closed spec fn table(&self) -> Kv {
        self.db@
    }

    /// The writes made to the table since they were last taken.
    pub closed spec fn journal(&self) -> Seq<WriteView> {
        self.db.journal()
    }

    /// The session key, while the vault is unlocked.
    pub closed spec fn session(&self) -> Option<Seq<u8>> {
        match self.key {
            Some(key) => if key@.len() == AES_256_KEY_NUM {
                Some(key@)
            } else {
                None
            },
            None => None,
        }
    }

    /// A locked vault over the given table.
    pub fn new(db: Database) -> (vault: Vault)
        ensures
            vault.table() == db@,
            vault.journal() == db.journal(),
            vault.session() is None,
    {
        Vault { db, key: None }
    }

    /// The table under the vault.
    pub fn database(&self) -> (db: &Database)
        ensures
            db@ == self.table(),
            db.journal() == self.journal(),
    {
        &self.db
    }

    /// Hands out the writes made to the table since they were last taken, oldest first.
    pub fn take_journal(&mut self) -> (writes: Vec<Write>)
        ensures
            writes_view(writes@) == old(self).journal(),
            final(self).journal() == Seq::<WriteView>::empty(),
            final(self).table() == old(self).table(),
            final(self).session() == old(self).session(),
    {
        self.db.take_journal()
    }

    /// Whether a session is active.
    pub fn is_unlocked(&self) -> (res: bool)
        ensures
            res == self.session() is Some,
    {
        match &self.key {
            Some(key) => key.len() == AES_256_KEY_NUM,
            None => false,
        }
    }

    /// Ends the session: the key is forgotten.
    pub fn lock(&mut self)
        ensures
            final(self).session() is None,
            final(self).table() == old(self).table(),
            final(self).journal() == old(self).journal(),
    {
        self.key = None;
    }

    /// Unlocks the vault with the master password. The first password that a vault sees
    /// initialises it: the digest of the widened key is written. Later the digest has to
    /// match. On success the widened key becomes the session key; on failure nothing
    /// changes.
    pub fn initialize_or_verify(&mut self, password: &str) -> (res: Result<Unlocked, Error>)
        ensures
            res == unlocking(old(self).table(), password@),
            res is Ok ==> {
                let key = widened_key(encode_utf8(password@));
                &&& final(self).session() == Some(key)
                &&& sentinel(final(self).table()) == Some(sentinel_of(key))
                &&& sentinel_of(key).len() == 64
            },
            res is Err ==> final(self).session() == old(self).session(),
            res == Ok::<Unlocked, Error>(Unlocked::Created) ==> {
                let kept = sentinel_of(widened_key(encode_utf8(password@)));
                &&& final(self).table() == old(self).table().insert(secret_hash_key(), kept)
                &&& final(self).journal() == old(self).journal().push(
                    WriteView::Put { key: secret_hash_key(), value: kept },
                )
            },
            res != Ok::<Unlocked, Error>(Unlocked::Created) ==> final(self).table() == old(
                self,
            ).table() && final(self).journal() == old(self).journal(),
    {
        let secret_key = get_valid_aes_key(String::from_str(password))?;
        let input_secret_hash = match sha256(secret_key.as_slice()) {
            Ok(text) => text,
            Err(e) => { return Err(Error::CryptoError); },
        };
        proof {
            lemma_hex_text_bytes(sha256_digest(secret_key@));
        }
        let secret_hash_opt = match self.db.get_secret_hash() {
            Ok(found) => found,
            Err(e) => { return Err(Error::StoreError); },
        };
        match secret_hash_opt {
            Some(secret_hash) => {
                if bytes_equal(input_secret_hash.as_str().as_bytes(), secret_hash.as_slice()) {
                    self.key = Some(secret_key);
                    Ok(Unlocked::Verified)
                } else {
                    Err(Error::BadPassword)
                }
            },
            None => {
                match self.db.put_secret_hash(input_secret_hash.as_str().as_bytes()) {
                    Ok(()) => {},
                    Err(e) => { return Err(Error::StoreError); },
                }
                self.key = Some(secret_key);
                Ok(Unlocked::Created)
            },
        }
    }
}

/// A sealed record opens under its key to the secret it was sealed from.
pub proof fn lemma_sealed_item_opens(
    key: Seq<u8>,
    nonce: Seq<u8>,
    id: Seq<char>,
    account: Seq<char>,
    secret: Seq<char>,
    desc: Seq<char>,
)
    requires
        nonce.len() == AES_256_NONCE_NUM,
        encode_utf8(secret).len() <= AES_256_MAX_PLAINTEXT,
        aes256_gcm_sealed(key, nonce, encode_utf8(secret)).len() == encode_utf8(secret).len()
            + AES_256_TAG_NUM,
        aes256_gcm_opened(key, nonce, aes256_gcm_sealed(key, nonce, encode_utf8(secret))) == Some(
            encode_utf8(secret),
        ),
    ensures
        plaintext_of(key, sealed_item(key, nonce, id, account, secret, desc)) == Ok::<
            Seq<char>,
            Error,
        >(secret),
{
    let sealed = aes256_gcm_sealed(key, nonce, encode_utf8(secret));
    lemma_hex_text_bytes(sealed);
    lemma_hex_text_bytes(nonce);
    lemma_hex_round_trip(sealed);
    lemma_hex_round_trip(nonce);
    encode_utf8_valid_utf8(secret);
    encode_utf8_decode_utf8(secret);
}

impl Vault {
    /// The session key, if a key of the right width is held.
    fn session_key(&self) -> (res: Option<&Vec<u8>>)
        ensures
            match res {
                Some(key) => self.session() == Some(key@) && key@.len() == AES_256_KEY_NUM,
                None => self.session() is None,
            },
    {
        match &self.key {
            Some(key) => if key.len() == AES_256_KEY_NUM {
                Some(key)
            } else {
                None
            },
            None => None,
        }
    }

    /// All records in insertion order, their secrets sealed. No session is needed.
    pub fn list(&self) -> (res: Result<Vec<Item>, Error>)
        ensures
            items_result(res) == listed(self.table()),
    {
        match self.db.get_item_list()? {
            Some(items) => Ok(items),
            None => {
                let items: Vec<Item> = Vec::new();
                assert(items_view(items@) =~= Seq::<ItemView>::empty());
                Ok(items)
            },
        }
    }

    /// The secret of a sealed record in plain text, under the session key.
    pub fn open_secret(&self, item: &Item) -> (res: Result<String, Error>)
        ensures
            text_result(res) == match self.session() {
                Some(key) => plaintext_of(key, item@),
                None => Err(Error::NotUnlocked),
            },
            res matches Ok(plain) ==> {
                &&& encode_utf8(plain@).len() <= AES_256_MAX_PLAINTEXT
                &&& aes256_gcm_sealed(
                    self.session()->0,
                    hex_decoded(encode_utf8(item@.nonce))->0,
                    encode_utf8(plain@),
                ) == hex_decoded(encode_utf8(item@.secret))->0
            },
    {
        let key = match self.session_key() {
            Some(key) => key,
            None => { return Err(Error::NotUnlocked); },
        };
        let sealed = match from_hex(item.secret.as_str()) {
            Some(bytes) => bytes,
            None => { return Err(Error::CryptoError); },
        };
        let nonce = match from_hex(item.nonce.as_str()) {
            Some(bytes) => bytes,
            None => { return Err(Error::CryptoError); },
        };
        if nonce.len() != AES_256_NONCE_NUM {
            return Err(Error::CryptoError);
        }
        let plain = aes256_decode(sealed.as_slice(), key.as_slice(), nonce.as_slice())?;
        match utf8_text(plain) {
            Some(text) => Ok(text),
            None => Err(Error::CryptoError),
        }
    }

    /// The secret of the record `id` in plain text. Nothing that is persisted changes.
    pub fn reveal_secret(&self, id: &str) -> (res: Result<String, Error>)
        ensures
            text_result(res) == revealing(self.table(), self.session(), id@),
    {
        if !self.is_unlocked() {
            return Err(Error::NotUnlocked);
        }
        match self.db.get_item(id) {
            Ok(Some(item)) => self.open_secret(&item),
            Ok(None) => Err(Error::NotFound),
            Err(_) => Err(Error::CryptoError),
        }
    }

    /// Deletes the record `id`: the index is written without it, then the body is removed.
    /// No session is needed.
    pub fn delete(&mut self, id: &str) -> (res: Result<(), Error>)
        ensures
            final(self).session() == old(self).session(),
            match res {
                Ok(_) => deleting(old(self).table(), id@) is Ok,
                Err(e) => deleting(old(self).table(), id@) == Err::<(), Error>(e),
            },
            res is Ok ==> ({
                let next = without(
                    live(old(self).table(), index_of(old(self).table())->0),
                    id@,
                );
                &&& final(self).table() == old(self).table().insert(
                    item_keys_key(),
                    strings_json(next),
                ).remove(record_key(id@))
                &&& final(self).journal() == old(self).journal().push(
                    WriteView::Put { key: item_keys_key(), value: strings_json(next) },
                ).push(WriteView::Delete { key: record_key(id@) })
                &&& index_of(final(self).table()) == Some(next)
                &&& !is_live(final(self).table(), id@)
                &&& shelf_of(final(self).table()) == shelf_del(shelf_of(old(self).table()), id@)
                &&& no_dangling(final(self).table())
            }),
            sentinel(final(self).table()) == sentinel(old(self).table()),
            res is Err ==> final(self).table() == old(self).table() && final(self).journal()
                == old(self).journal(),
            consistent(old(self).table()) ==> consistent(final(self).table()),
            own_ids(old(self).table()) ==> own_ids(final(self).table()),
    {
        self.db.del_item(id)
    }

    /// Creates a record under the given id, its secret sealed with the given nonce: the
    /// index is written with the id at its end, then the record under the id. Revealing
    /// the record afterwards gives the secret.
    pub fn create_with(
        &mut self,
        id: String,
        nonce: &[u8],
        account: &str,
        secret: &str,
        desc: &str,
    ) -> (res: Result<String, Error>)
        requires
            nonce@.len() == AES_256_NONCE_NUM,
        ensures
            final(self).session() == old(self).session(),
            match res {
                Ok(made) => made@ == id@ && creating(
                    old(self).table(),
                    old(self).session(),
                    id@,
                    secret@,
                ) is Ok,
                Err(e) => creating(old(self).table(), old(self).session(), id@, secret@) == Err::<
                    (),
                    Error,
                >(e),
            },
            res is Ok ==> ({
                let item = sealed_item(
                    old(self).session()->0,
                    nonce@,
                    id@,
                    account@,
                    secret@,
                    desc@,
                );
                let next = live(old(self).table(), index_of(old(self).table())->0).push(id@);
                &&& final(self).table() == old(self).table().insert(
                    item_keys_key(),
                    strings_json(next),
                ).insert(record_key(id@), item_json(item))
                &&& final(self).journal() == old(self).journal().push(
                    WriteView::Put { key: item_keys_key(), value: strings_json(next) },
                ).push(WriteView::Put { key: record_key(id@), value: item_json(item) })
                &&& index_of(final(self).table()) == Some(next)
                &&& item_at(final(self).table(), id@) == Some(item)
                &&& shelf_of(final(self).table()) == shelf_put(shelf_of(old(self).table()), item)
                &&& no_dangling(final(self).table())
                &&& revealing(final(self).table(), final(self).session(), id@) == Ok::<
                    Seq<char>,
                    Error,
                >(secret@)
            }),
            res is Err ==> final(self).table() == old(self).table() && final(self).journal()
                == old(self).journal(),
            sentinel(final(self).table()) == sentinel(old(self).table()),
            consistent(old(self).table()) ==> consistent(final(self).table()),
            own_ids(old(self).table()) ==> own_ids(final(self).table()),
    {
        let key = match self.session_key() {
            Some(key) => key,
            None => { return Err(Error::NotUnlocked); },
        };
        let ciphertext = aes256_encode_with_nonce(secret.as_bytes(), key.as_slice(), nonce)?;
        if self.db.has_item(id.as_str()) {
            return Err(Error::StoreError);
        }
        let made = id.clone();
        let item = Item {
            id,
            account: String::from_str(account),
            secret: to_hex(ciphertext.as_slice()),
            desc: String::from_str(desc),
            status: STATUS_SEALED,
            nonce: to_hex(nonce),
        };
        proof {
            lemma_sealed_item_opens(key@, nonce@, item@.id, account@, secret@, desc@);
            lemma_live_members(self.db@, index_of(self.db@)->0);
            let base = live(self.db@, index_of(self.db@)->0);
            if base.contains(item@.id) {
                let i = choose|i: int| 0 <= i < base.len() && base[i] == item@.id;
                assert(is_live(self.db@, base[i]));
            }
        }
        self.db.put_item(&item)?;
        Ok(made)
    }

    /// Creates a record with a fresh random id and a fresh random nonce, and returns the
    /// id. Revealing the record afterwards gives the secret. `NotUnlocked` exactly without
    /// a session, `CryptoError` exactly for a secret over the cipher's limit;
    /// `StoreError` where the index cannot be read, and else only where the id that was
    /// drawn already has a body. On a table where no id of that shape has a body the
    /// record is created whatever is drawn.
    pub fn create(&mut self, account: &str, secret: &str, desc: &str) -> (res: Result<
        String,
        Error,
    >)
        ensures
            final(self).session() == old(self).session(),
            old(self).session() is Some && encode_utf8(secret@).len() <= AES_256_MAX_PLAINTEXT
                && index_of(old(self).table()) is None ==> res == Err::<String, Error>(
                Error::StoreError,
            ),
            res matches Err(e) ==> {
                &&& (e == Error::NotUnlocked) == (old(self).session() is None)
                &&& (e == Error::CryptoError) == (old(self).session() is Some && encode_utf8(
                    secret@,
                ).len() > AES_256_MAX_PLAINTEXT)
                &&& e == Error::StoreError ==> index_of(old(self).table()) is None || uuid_taken(
                    old(self).table(),
                )
                &&& e == Error::NotUnlocked || e == Error::CryptoError || e == Error::StoreError
                &&& final(self).table() == old(self).table()
                &&& final(self).journal() == old(self).journal()
            },
            res matches Ok(id) ==> {
                &&& old(self).session() matches Some(key)
                &&& encode_utf8(secret@).len() <= AES_256_MAX_PLAINTEXT
                &&& is_uuid_text(id@)
                &&& !is_live(old(self).table(), id@)
                &&& index_of(old(self).table()) is Some
                &&& index_of(final(self).table()) == Some(
                    live(old(self).table(), index_of(old(self).table())->0).push(id@),
                )
                &&& item_at(final(self).table(), id@) matches Some(item)
                &&& sealed_under_some_nonce(key, item, id@, account@, secret@, desc@)
                &&& final(self).table() == old(self).table().insert(
                    item_keys_key(),
                    strings_json(
                        live(old(self).table(), index_of(old(self).table())->0).push(id@),
                    ),
                ).insert(record_key(id@), item_json(item))
                &&& final(self).journal() == old(self).journal().push(
                    WriteView::Put {
                        key: item_keys_key(),
                        value: strings_json(
                            live(old(self).table(), index_of(old(self).table())->0).push(id@),
                        ),
                    },
                ).push(WriteView::Put { key: record_key(id@), value: item_json(item) })
                &&& shelf_of(final(self).table()) == shelf_put(shelf_of(old(self).table()), item)
                &&& no_dangling(final(self).table())
                &&& revealing(final(self).table(), final(self).session(), id@) == Ok::<
                    Seq<char>,
                    Error,
                >(secret@)
            },
            sentinel(final(self).table()) == sentinel(old(self).table()),
            consistent(old(self).table()) ==> consistent(final(self).table()),
            own_ids(old(self).table()) ==> own_ids(final(self).table()),
    {
        let uuid = new_id();
        let nonce = match gen_rand_key(AES_256_NONCE_NUM) {
            Ok(nonce) => nonce,
            Err(e) => { return Err(Error::CryptoError); },
        };
        let ghost id = uuid@;
        proof {
            lemma_uuid_names_a_record(id);
        }
        let res = self.create_with(uuid, nonce.as_slice(), account, secret, desc);
        proof {
            if res is Ok {
                let key = old(self).session()->0;
                let item = sealed_item(key, nonce@, id, account@, secret@, desc@);
                assert(sealed_under_some_nonce(key, item, id, account@, secret@, desc@));
            } else if res == Err::<String, Error>(Error::StoreError) && index_of(
                old(self).table(),
            ) is Some {
                assert(is_uuid_text(id) && is_live(old(self).table(), id));
            }
        }
        res
    }
}

impl Vault {
    /// A copy of a sealed record with its secret in plain text. Sealing the copy again
    /// gives the record back, where its secret was lowercase hex text: nothing that is
    /// persisted has to change for a look at a secret.
    pub fn reveal_item(&self, item: &Item) -> (res: Result<Item, Error>)
        ensures
            item_result(res) == match self.session() {
                Some(key) => shown(key, item@),
                None => Err(Error::NotUnlocked),
            },
            res matches Ok(open) ==> item@.status == STATUS_SEALED && canonical_secret(item@)
                ==> resealed(self.session()->0, open@) == Ok::<ItemView, Error>(item@),
    {
        let plain = self.open_secret(item)?;
        proof {
            let key = self.session()->0;
            let sealed = hex_decoded(encode_utf8(item@.secret))->0;
            let nonce = hex_decoded(encode_utf8(item@.nonce))->0;
            if self.session() is Some && aes256_gcm_opened(key, nonce, sealed) is Some {
                decode_utf8_encode_utf8(aes256_gcm_opened(key, nonce, sealed)->0);
            }
        }
        Ok(
            Item {
                id: item.id.clone(),
                account: item.account.clone(),
                secret: plain,
                desc: item.desc.clone(),
                status: STATUS_REVEALED,
                nonce: item.nonce.clone(),
            },
        )
    }

    /// A copy of a shown record with its secret sealed again under the record's own nonce.
    pub fn reseal_item(&self, item: &Item) -> (res: Result<Item, Error>)
        ensures
            item_result(res) == match self.session() {
                Some(key) => resealed(key, item@),
                None => Err(Error::NotUnlocked),
            },
    {
        let key = match self.session_key() {
            Some(key) => key,
            None => { return Err(Error::NotUnlocked); },
        };
        let nonce = match from_hex(item.nonce.as_str()) {
            Some(bytes) => bytes,
            None => { return Err(Error::CryptoError); },
        };
        if nonce.len() != AES_256_NONCE_NUM {
            return Err(Error::CryptoError);
        }
        let sealed = aes256_encode_with_nonce(
            item.secret.as_str().as_bytes(),
            key.as_slice(),
            nonce.as_slice(),
        )?;
        Ok(
            Item {
                id: item.id.clone(),
                account: item.account.clone(),
                secret: to_hex(sealed.as_slice()),
                desc: item.desc.clone(),
                status: STATUS_SEALED,
                nonce: item.nonce.clone(),
            },
        )
    }

    /// A copy of a record with its secret turned over: a sealed record is shown, any other
    /// is sealed again.
    pub fn toggle_item(&self, item: &Item) -> (res: Result<Item, Error>)
        ensures
            item_result(res) == match self.session() {
                Some(key) => toggled(key, item@),
                None => Err(Error::NotUnlocked),
            },
    {
        if item.status == STATUS_SEALED {
            self.reveal_item(item)
        } else {
            self.reseal_item(item)
        }
    }

    /// All records as one envelope text, for another vault to take in. The envelope has the
    /// current version and no description or time, and is UTF-8. It carries the records as
    /// they are listed; a vault can take it in unless one of them carries a reserved key as
    /// its id. `StoreError` where the vault cannot be listed.
    pub fn export_all(&self) -> (res: Result<Vec<u8>, Error>)
        ensures
            match listed(self.table()) {
                Ok(items) => {
                    &&& res matches Ok(text)
                    &&& text@ == envelope_of(items, Seq::empty(), Seq::empty())
                    &&& valid_utf8(text@)
                    &&& envelope_items(text@) == if all_record_ids(items) {
                        Some(items)
                    } else {
                        None
                    }
                    &&& own_ids(self.table()) ==> all_record_ids(items)
                },
                Err(_) => res == Err::<Vec<u8>, Error>(Error::StoreError),
            },
    {
        let list = match self.list() {
            Ok(list) => list,
            Err(e) => { return Err(Error::StoreError); },
        };
        proof {
            let kv = self.table();
            let items = items_view(list@);
            if has_index(kv) {
                lemma_records_listed(kv, live(kv, index_of(kv)->0));
            }
            assert(persisted_all(items) =~= items);
        }
        let export = Export {
            version: EXPORT_VERSION,
            desc: String::new(),
            time: String::new(),
            content: pack_items(&list),
        };
        Ok(export.to_json())
    }

    /// Takes in the records of an envelope, in their order, each as `create` persists one:
    /// a record whose id the vault has already takes the place of the one it had. Returns
    /// how many records the envelope carried. Nothing is written unless the whole envelope
    /// can be read. No session is needed; whether this vault's key opens the records shows
    /// when one is revealed.
    pub fn import_all(&mut self, envelope: &[u8]) -> (res: Result<usize, Error>)
        ensures
            final(self).session() == old(self).session(),
            match res {
                Ok(n) => importing(old(self).table(), envelope@) == Ok::<nat, Error>(n as nat),
                Err(e) => importing(old(self).table(), envelope@) == Err::<nat, Error>(e),
            },
            res is Ok ==> ({
                let items = envelope_items(envelope@)->0;
                &&& final(self).table() == put_all_table(old(self).table(), items)
                &&& final(self).journal() == old(self).journal() + put_all_writes(
                    old(self).table(),
                    items,
                )
                &&& index_of(final(self).table()) is Some
                &&& shelf_of(final(self).table()) == shelf_put_all(
                    shelf_of(old(self).table()),
                    items,
                )
            }),
            res is Err ==> final(self).table() == old(self).table() && final(self).journal()
                == old(self).journal(),
            sentinel(final(self).table()) == sentinel(old(self).table()),
            consistent(old(self).table()) ==> consistent(final(self).table()),
            own_ids(old(self).table()) ==> own_ids(final(self).table()),
    {
        let export = match Export::from_json(envelope) {
            Some(export) => export,
            None => { return Err(Error::BadEnvelope); },
        };
        let list = match unpack_items(export.content.as_str()) {
            Some(list) => list,
            None => { return Err(Error::BadEnvelope); },
        };
        let ghost items = items_view(list@);
        let mut k: usize = 0;
        while k < list.len()
            invariant
                k <= list@.len(),
                items == items_view(list@),
                export_from_json(envelope@) == Some(export@),
                items_from_content(export@.content) == Some(items),
                self == old(self),
                forall|j: int| 0 <= j < k ==> is_record_id((#[trigger] items[j]).id),
            decreases list@.len() - k,
        {
            let id = list[k].id.as_str();
            if str_equal(id, "SECRET_HASH") || str_equal(id, "ITEM_KEYS") {
                assert(!is_record_id(items[k as int].id));
                return Err(Error::BadEnvelope);
            }
            k = k + 1;
        }
        assert(envelope_items(envelope@) == Some(items));
        match self.db.get_item_keys() {
            Ok(_) => {},
            Err(e) => { return Err(Error::StoreError); },
        }
        let mut i: usize = 0;
        proof {
            assert(items.take(0) =~= Seq::<ItemView>::empty());
            assert(self.db.journal() =~= old(self).db.journal() + put_all_writes(
                old(self).db@,
                items.take(0),
            ));
        }
        while i < list.len()
            invariant
                i <= list@.len(),
                items == items_view(list@),
                all_record_ids(items),
                self.key == old(self).key,
                index_of(old(self).db@) is Some,
                index_of(self.db@) is Some,
                self.db@ == put_all_table(old(self).db@, items.take(i as int)),
                self.db.journal() == old(self).db.journal() + put_all_writes(
                    old(self).db@,
                    items.take(i as int),
                ),
                shelf_of(self.db@) == shelf_put_all(shelf_of(old(self).db@), items.take(i as int)),
                sentinel(self.db@) == sentinel(old(self).db@),
                consistent(old(self).db@) ==> consistent(self.db@),
                own_ids(old(self).db@) ==> own_ids(self.db@),
            decreases list@.len() - i,
        {
            let ghost before = self.db@;
            let ghost log = self.db.journal();
            proof {
                assert(items.take(i + 1).drop_last() =~= items.take(i as int));
                assert(items.take(i + 1).last() == items[i as int]);
                assert(is_record_id(items[i as int].id));
            }
            match self.db.put_item(&list[i]) {
                Ok(()) => {},
                Err(e) => { return Err(Error::StoreError); },
            }
            proof {
                assert(self.db.journal() =~= log + put_writes(before, items[i as int]));
                assert(self.db.journal() =~= old(self).db.journal() + put_all_writes(
                    old(self).db@,
                    items.take(i + 1),
                ));
            }
            i = i + 1;
        }
        assert(items.take(list@.len() as int) =~= items);
        Ok(list.len())
    }
}

} // verus!
