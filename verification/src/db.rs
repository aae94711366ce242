//! The key-value table under the vault, and the reading and writing of the vault's records,
//! key index and password digest in it.

use crate::error::Error;
use crate::json::{read_strings, strings_json, strings_view, write_strings};
use crate::records::{
    consistent, deleting, has_index, index_of, is_live, is_record_id, item_at, item_keys_key,
    lemma_delete_consistent, lemma_delete_own_ids, lemma_empty_consistent, lemma_put_consistent,
    lemma_put_own_ids, lemma_records_prefix, lemma_reserved_keys, listing, live, looked_up,
    no_dangling, own_ids, record_key, records_of, secret_hash_key, sentinel, with_id, without,
};
use crate::shelf::{lemma_delete_shelf, lemma_put_shelf, shelf_del, shelf_of, shelf_put};
use crate::text::{bytes_copy, bytes_equal, str_equal};
use crate::types::{item_json, items_view, option_item, Item, ItemView};
use vstd::prelude::*;
use vstd::string::*;
use vstd::utf8::*;

verus! {

/// What a table holds: a value for each key that is present.
pub type Kv = Map<Seq<u8>, Seq<u8>>;

/// One change to a single key, as the table records it for whoever persists the table.
#[derive(Debug)]
pub enum Write {
    /// The key now holds the value.
    Put { key: Vec<u8>, value: Vec<u8> },
    /// The key is gone.
    Delete { key: Vec<u8> },
}

/// What a `Write` holds.
pub enum WriteView {
    Put { key: Seq<u8>, value: Seq<u8> },
    Delete { key: Seq<u8> },
}

impl View for Write {
    type V = WriteView;

    open spec fn view(&self) -> WriteView {
        match self {
            Write::Put { key, value } => WriteView::Put { key: key@, value: value@ },
            Write::Delete { key } => WriteView::Delete { key: key@ },
        }
    }
}

/// What a list of writes holds.
pub open spec fn writes_view(writes: Seq<Write>) -> Seq<WriteView> {
    writes.map_values(|w: Write| w@)
}

/// The table after one write.
pub open spec fn applied(kv: Kv, write: WriteView) -> Kv {
    match write {
        WriteView::Put { key, value } => kv.insert(key, value),
        WriteView::Delete { key } => kv.remove(key),
    }
}

/// The table after the writes of a list, oldest first.
pub open spec fn replayed(kv: Kv, writes: Seq<WriteView>) -> Kv
    decreases writes.len(),
{
    if writes.len() == 0 {
        kv
    } else {
        applied(replayed(kv, writes.drop_last()), writes.last())
    }
}

/// One key with its value.
#[derive(Debug)]
struct Entry {
    key: Vec<u8>,
    value: Vec<u8>,
}

/// A table of byte keys and byte values, with the writes made to it since they were last
/// taken. Each write touches one key; whoever persists the table replays them in order.
#[derive(Debug)]
pub struct Database {
    path: String,
    entries: Vec<Entry>,
    journal: Vec<Write>,
}

/// What a list of entries holds: where a key stands more than once, its last entry counts.
spec fn table(entries: Seq<Entry>) -> Kv
    decreases entries.len(),
{
    if entries.len() == 0 {
        Map::empty()
    } else {
        table(entries.drop_last()).insert(entries.last().key@, entries.last().value@)
    }
}

/// Whether no entry at `from` or after it has the key.
spec fn absent_from(entries: Seq<Entry>, key: Seq<u8>, from: int) -> bool {
    forall|j: int| from <= j < entries.len() ==> (#[trigger] entries[j]).key@ != key
}

/// A key that no entry has is not in the table.
proof fn lemma_table_absent(entries: Seq<Entry>, key: Seq<u8>)
    requires
        absent_from(entries, key, 0),
    ensures
        !table(entries).dom().contains(key),
    decreases entries.len(),
{
    if entries.len() > 0 {
        let rest = entries.drop_last();
        assert(entries.last() == entries[entries.len() - 1]);
        assert forall|j: int| 0 <= j < rest.len() implies (#[trigger] rest[j]).key@ != key by {
            assert(rest[j] == entries[j]);
        }
        lemma_table_absent(rest, key);
    }
}

/// The table holds for a key the value of the last entry that has it.
proof fn lemma_table_last(entries: Seq<Entry>, key: Seq<u8>, i: int)
    requires
        0 <= i < entries.len(),
        entries[i].key@ == key,
        absent_from(entries, key, i + 1),
    ensures
        table(entries).dom().contains(key),
        table(entries)[key] == entries[i].value@,
    decreases entries.len(),
{
    let rest = entries.drop_last();
    if i < entries.len() - 1 {
        assert(entries[entries.len() - 1].key@ != key);
        assert forall|j: int| i + 1 <= j < rest.len() implies (#[trigger] rest[j]).key@ != key by {
            assert(rest[j] == entries[j]);
        }
        lemma_table_last(rest, key, i);
    }
}

/// Replacing the last entry of a key puts the new value under the key.
proof fn lemma_table_update(entries: Seq<Entry>, i: int, entry: Entry)
    requires
        0 <= i < entries.len(),
        entries[i].key@ == entry.key@,
        absent_from(entries, entry.key@, i + 1),
    ensures
        table(entries.update(i, entry)) == table(entries).insert(entry.key@, entry.value@),
    decreases entries.len(),
{
    let rest = entries.drop_last();
    let after = entries.update(i, entry);
    if i < entries.len() - 1 {
        assert(entries[entries.len() - 1].key@ != entry.key@);
        assert forall|j: int| i + 1 <= j < rest.len() implies (#[trigger] rest[j]).key@
            != entry.key@ by {
            assert(rest[j] == entries[j]);
        }
        lemma_table_update(rest, i, entry);
        assert(after.drop_last() =~= rest.update(i, entry));
        assert(after.last() == entries.last());
        assert(table(after) =~= table(entries).insert(entry.key@, entry.value@));
    } else {
        assert(after.drop_last() =~= rest);
        assert(table(after) =~= table(entries).insert(entry.key@, entry.value@));
    }
}

/// Removing an entry changes the table at most under the entry's key.
proof fn lemma_table_remove(entries: Seq<Entry>, i: int)
    requires
        0 <= i < entries.len(),
    ensures
        table(entries.remove(i)).remove(entries[i].key@) == table(entries).remove(entries[i].key@),
    decreases entries.len(),
{
    let key = entries[i].key@;
    let rest = entries.drop_last();
    let after = entries.remove(i);
    if i < entries.len() - 1 {
        assert(rest[i] == entries[i]);
        lemma_table_remove(rest, i);
        assert(after.drop_last() =~= rest.remove(i));
        assert(after.last() == entries.last());
        let last = entries.last();
        assert(table(after) == table(rest.remove(i)).insert(last.key@, last.value@));
        assert(table(entries) == table(rest).insert(last.key@, last.value@));
        assert(table(rest.remove(i)).insert(last.key@, last.value@).remove(key) =~= table(
            rest.remove(i),
        ).remove(key).insert(last.key@, last.value@).remove(key));
        assert(table(rest).insert(last.key@, last.value@).remove(key) =~= table(rest).remove(
            key,
        ).insert(last.key@, last.value@).remove(key));
    } else {
        assert(after =~= rest);
        assert(entries.last() == entries[i]);
        assert(table(entries) == table(rest).insert(key, entries[i].value@));
        assert(table(after).remove(key) =~= table(entries).remove(key));
    }
}

impl Database {
    /// What the table holds.
    pub closed spec fn view(&self) -> Kv {
        table(self.entries@)
    }

    /// The writes made since they were last taken, oldest first.
    pub closed spec fn journal(&self) -> Seq<WriteView> {
        writes_view(self.journal@)
    }

    /// Where the table is to be persisted.
    pub closed spec fn path(&self) -> Seq<char> {
        self.path@
    }

    /// An empty table that is to be persisted at `path`. Index and bodies agree in it:
    /// there is neither.
    pub fn new(path: &str) -> (res: Result<Database, Error>)
        ensures
            res matches Ok(db) && db@ == Map::<Seq<u8>, Seq<u8>>::empty() && db.journal()
                == Seq::<WriteView>::empty() && db.path() == path@ && consistent(db@) && own_ids(
                db@,
            ),
    {
        let db = Database {
            path: String::from_str(path),
            entries: Vec::new(),
            journal: Vec::new(),
        };
        assert(db.journal() =~= Seq::<WriteView>::empty());
        proof {
            lemma_empty_consistent();
        }
        Ok(db)
    }

    /// Where the table is to be persisted.
    pub fn location(&self) -> (path: &str)
        ensures
            path@ == self.path(),
    {
        self.path.as_str()
    }

    /// The place of the last entry with the key, if there is one.
    fn find(&self, key: &[u8]) -> (res: Option<usize>)
        ensures
            match res {
                Some(i) => {
                    &&& i < self.entries@.len()
                    &&& self.entries@[i as int].key@ == key@
                    &&& absent_from(self.entries@, key@, i + 1)
                    &&& self@.dom().contains(key@)
                    &&& self@[key@] == self.entries@[i as int].value@
                },
                None => absent_from(self.entries@, key@, 0) && !self@.dom().contains(key@),
            },
    {
        let mut i: usize = self.entries.len();
        while i > 0
            invariant
                i <= self.entries@.len(),
                absent_from(self.entries@, key@, i as int),
            decreases i,
        {
            i = i - 1;
            if bytes_equal(self.entries[i].key.as_slice(), key) {
                proof {
                    lemma_table_last(self.entries@, key@, i as int);
                }
                return Some(i);
            }
        }
        proof {
            lemma_table_absent(self.entries@, key@);
        }
        None
    }

    /// The value under `key`, if there is one.
    pub fn get(&self, key: &[u8]) -> (res: Result<Option<Vec<u8>>, Error>)
        ensures
            res matches Ok(found) && match found {
                Some(value) => self@.dom().contains(key@) && self@[key@] == value@,
                None => !self@.dom().contains(key@),
            },
    {
        match self.find(key) {
            Some(i) => Ok(Some(bytes_copy(self.entries[i].value.as_slice()))),
            None => Ok(None),
        }
    }

    /// Whether there is a value under `key`.
    pub fn contains(&self, key: &[u8]) -> (res: bool)
        ensures
            res == self@.dom().contains(key@),
    {
        self.find(key).is_some()
    }

    /// Takes in what is persisted already: `value` stands under `key` from now on, and no
    /// write is recorded for it.
    pub fn restore(&mut self, key: &[u8], value: &[u8])
        ensures
            final(self)@ == old(self)@.insert(key@, value@),
            final(self).journal() == old(self).journal(),
            final(self).path() == old(self).path(),
    {
        let ghost before = self.entries@;
        let entry = Entry { key: bytes_copy(key), value: bytes_copy(value) };
        match self.find(key) {
            Some(i) => {
                proof {
                    lemma_table_update(before, i as int, entry);
                }
                self.entries.set(i, entry);
            },
            None => {
                self.entries.push(entry);
                assert(self.entries@.drop_last() =~= before);
            },
        }
    }

    /// Puts `value` under `key`, in place of what was there.
    pub fn put(&mut self, key: &[u8], value: &[u8]) -> (res: Result<(), Error>)
        ensures
            res is Ok,
            final(self)@ == old(self)@.insert(key@, value@),
            final(self).journal() == old(self).journal().push(
                WriteView::Put { key: key@, value: value@ },
            ),
            final(self).path() == old(self).path(),
    {
        self.restore(key, value);
        self.journal.push(Write::Put { key: bytes_copy(key), value: bytes_copy(value) });
        assert(writes_view(self.journal@) =~= writes_view(old(self).journal@).push(
            WriteView::Put { key: key@, value: value@ },
        ));
        Ok(())
    }

    /// Removes `key` and its value; nothing changes in the table where the key is absent.
    pub fn delete(&mut self, key: &[u8]) -> (res: Result<(), Error>)
        ensures
            res is Ok,
            final(self)@ == old(self)@.remove(key@),
            final(self).journal() == old(self).journal().push(WriteView::Delete { key: key@ }),
            final(self).path() == old(self).path(),
    {
        let mut i: usize = self.entries.len();
        while i > 0
            invariant
                i <= self.entries@.len(),
                absent_from(self.entries@, key@, i as int),
                table(self.entries@).remove(key@) == table(old(self).entries@).remove(key@),
                self.journal == old(self).journal,
                self.path == old(self).path,
            decreases i,
        {
            i = i - 1;
            if bytes_equal(self.entries[i].key.as_slice(), key) {
                let ghost before = self.entries@;
                proof {
                    lemma_table_remove(before, i as int);
                }
                self.entries.remove(i);
                assert forall|j: int| i <= j < self.entries@.len() implies (
                #[trigger] self.entries@[j]).key@ != key@ by {
                    assert(self.entries@[j] == before[j + 1]);
                }
            }
        }
        proof {
            lemma_table_absent(self.entries@, key@);
            assert(table(self.entries@).remove(key@) =~= table(self.entries@));
        }
        self.journal.push(Write::Delete { key: bytes_copy(key) });
        assert(writes_view(self.journal@) =~= writes_view(old(self).journal@).push(
            WriteView::Delete { key: key@ },
        ));
        Ok(())
    }

    /// Hands out the writes made since they were last taken, oldest first, and forgets them.
    pub fn take_journal(&mut self) -> (writes: Vec<Write>)
        ensures
            writes_view(writes@) == old(self).journal(),
            final(self).journal() == Seq::<WriteView>::empty(),
            final(self)@ == old(self)@,
            final(self).path() == old(self).path(),
    {
        let mut writes: Vec<Write> = Vec::new();
        std::mem::swap(&mut self.journal, &mut writes);
        assert(writes_view(self.journal@) =~= Seq::<WriteView>::empty());
        writes
    }
}

/// Whether `id` is among `ids`.
pub fn contains_id(ids: &Vec<String>, id: &str) -> (found: bool)
    ensures
        found == strings_view(ids@).contains(id@),
{
    let mut i: usize = 0;
    while i < ids.len()
        invariant
            i <= ids@.len(),
            forall|j: int| 0 <= j < i ==> strings_view(ids@)[j] != id@,
        decreases ids@.len() - i,
    {
        if str_equal(ids[i].as_str(), id) {
            assert(strings_view(ids@)[i as int] == id@);
            return true;
        }
        i = i + 1;
    }
    false
}

/// `ids` without every occurrence of `id`.
pub fn without_id(ids: &Vec<String>, id: &str) -> (rest: Vec<String>)
    ensures
        strings_view(rest@) == without(strings_view(ids@), id@),
{
    let ghost all = strings_view(ids@);
    let ghost keep = |other: Seq<char>| other != id@;
    let mut rest: Vec<String> = Vec::new();
    let mut i: usize = 0;
    proof {
        reveal(Seq::filter);
        assert(all.take(0).filter(keep) =~= strings_view(rest@));
    }
    while i < ids.len()
        invariant
            i <= ids@.len(),
            all == strings_view(ids@),
            keep == |other: Seq<char>| other != id@,
            strings_view(rest@) == all.take(i as int).filter(keep),
        decreases ids@.len() - i,
    {
        proof {
            assert(all.take(i + 1) =~= all.take(i as int).push(all[i as int]));
            all.take(i as int).lemma_filter_push(all[i as int], keep);
        }
        if !str_equal(ids[i].as_str(), id) {
            let ghost before = rest@;
            rest.push(ids[i].clone());
            assert(strings_view(rest@) =~= strings_view(before).push(all[i as int]));
        }
        i = i + 1;
    }
    assert(all.take(ids@.len() as int) =~= all);
    rest
}

impl Database {
    /// Keeps the digest of the vault's key.
    pub fn put_secret_hash(&mut self, value: &[u8]) -> (res: Result<(), Error>)
        ensures
            res is Ok,
            final(self)@ == old(self)@.insert(secret_hash_key(), value@),
            final(self).journal() == old(self).journal().push(
                WriteView::Put { key: secret_hash_key(), value: value@ },
            ),
            final(self).path() == old(self).path(),
    {
        self.put("SECRET_HASH".as_bytes(), value)
    }

    /// The digest that is kept, if one is.
    pub fn get_secret_hash(&self) -> (res: Result<Option<Vec<u8>>, Error>)
        ensures
            res matches Ok(found) && match found {
                Some(value) => self@.dom().contains(secret_hash_key()) && self@[secret_hash_key()]
                    == value@,
                None => !self@.dom().contains(secret_hash_key()),
            },
    {
        self.get("SECRET_HASH".as_bytes())
    }

    /// The key index as it is kept: nothing where the table holds none, `StoreError` where
    /// it cannot be read.
    pub fn get_item_keys(&self) -> (res: Result<Option<Vec<String>>, Error>)
        ensures
            match res {
                Ok(Some(ids)) => has_index(self@) && index_of(self@) == Some(strings_view(ids@)),
                Ok(None) => !has_index(self@),
                Err(e) => e == Error::StoreError && has_index(self@) && index_of(self@) is None,
            },
    {
        match self.find("ITEM_KEYS".as_bytes()) {
            Some(i) => match read_strings(self.entries[i].value.as_slice()) {
                Some(ids) => Ok(Some(ids)),
                None => Err(Error::StoreError),
            },
            None => Ok(None),
        }
    }

    /// Whether a record body is kept under `id`.
    pub fn has_item(&self, id: &str) -> (res: bool)
        ensures
            res == is_live(self@, id@),
    {
        if str_equal(id, "SECRET_HASH") || str_equal(id, "ITEM_KEYS") {
            return false;
        }
        self.contains(id.as_bytes())
    }

    /// The ids of the index under which a record body is kept, in the order of the index;
    /// `StoreError` where the index cannot be read.
    pub fn live_item_keys(&self) -> (res: Result<Vec<String>, Error>)
        ensures
            match res {
                Ok(ids) => index_of(self@) matches Some(all) && strings_view(ids@) == live(
                    self@,
                    all,
                ),
                Err(e) => e == Error::StoreError && index_of(self@) is None,
            },
    {
        let ids = match self.get_item_keys()? {
            Some(ids) => ids,
            None => Vec::new(),
        };
        let ghost all = strings_view(ids@);
        let ghost keep = |id: Seq<char>| is_live(self@, id);
        let mut kept: Vec<String> = Vec::new();
        let mut i: usize = 0;
        proof {
            reveal(Seq::filter);
            assert(all.take(0).filter(keep) =~= strings_view(kept@));
            assert(all =~= index_of(self@)->0);
        }
        while i < ids.len()
            invariant
                i <= ids@.len(),
                all == strings_view(ids@),
                keep == |id: Seq<char>| is_live(self@, id),
                strings_view(kept@) == all.take(i as int).filter(keep),
            decreases ids@.len() - i,
        {
            proof {
                assert(all.take(i + 1) =~= all.take(i as int).push(all[i as int]));
                all.take(i as int).lemma_filter_push(all[i as int], keep);
            }
            if self.has_item(ids[i].as_str()) {
                let ghost before = kept@;
                kept.push(ids[i].clone());
                assert(strings_view(kept@) =~= strings_view(before).push(all[i as int]));
            }
            i = i + 1;
        }
        assert(all.take(ids@.len() as int) =~= all);
        Ok(kept)
    }

    /// The record kept under `key`, as the body holds it: nothing where no body is kept there
    /// or `key` is a reserved key, `CorruptRecord` where the body cannot be read as a record.
    pub fn get_item(&self, key: &str) -> (res: Result<Option<Item>, Error>)
        ensures
            match res {
                Ok(found) => looked_up(self@, key@) == Ok::<Option<ItemView>, Error>(
                    option_item(found),
                ),
                Err(e) => looked_up(self@, key@) == Err::<Option<ItemView>, Error>(e),
            },
    {
        if str_equal(key, "SECRET_HASH") || str_equal(key, "ITEM_KEYS") {
            return Ok(None);
        }
        match self.find(key.as_bytes()) {
            Some(i) => match Item::from_json(self.entries[i].value.as_slice()) {
                Some(item) => Ok(Some(item)),
                None => Err(Error::CorruptRecord),
            },
            None => Ok(None),
        }
    }

    /// All records in the order of the key index, the ids without a body passed over.
    /// Nothing where the table holds no index, `StoreError` where the index cannot be read,
    /// `CorruptRecord` where a body cannot be read.
    pub fn get_item_list(&self) -> (res: Result<Option<Vec<Item>>, Error>)
        ensures
            match res {
                Ok(Some(items)) => listing(self@) == Ok::<Option<Seq<ItemView>>, Error>(
                    Some(items_view(items@)),
                ),
                Ok(None) => listing(self@) == Ok::<Option<Seq<ItemView>>, Error>(None),
                Err(e) => listing(self@) == Err::<Option<Seq<ItemView>>, Error>(e),
            },
    {
        let mut items: Vec<Item> = Vec::new();
        if !self.contains("ITEM_KEYS".as_bytes()) {
            return Ok(None);
        }
        let ids = self.live_item_keys()?;
        let ghost all = strings_view(ids@);
        let mut i: usize = 0;
        assert(all.take(0) =~= Seq::<Seq<char>>::empty());
        assert(items_view(items@) =~= Seq::<ItemView>::empty());
        while i < ids.len()
            invariant
                i <= ids@.len(),
                all == strings_view(ids@),
                has_index(self@),
                index_of(self@) is Some,
                all == live(self@, index_of(self@)->0),
                records_of(self@, all.take(i as int)) == Some(items_view(items@)),
            decreases ids@.len() - i,
        {
            proof {
                assert(all.take(i + 1).drop_last() =~= all.take(i as int));
                assert(all.take(i + 1).last() == all[i as int]);
            }
            match self.get_item(ids[i].as_str()) {
                Ok(Some(item)) => {
                    let ghost before = items@;
                    items.push(item);
                    assert(items_view(items@) =~= items_view(before).push(item@));
                },
                _ => {
                    proof {
                        lemma_records_prefix(self@, all, i + 1);
                    }
                    return Err(Error::CorruptRecord);
                },
            }
            i = i + 1;
        }
        assert(all.take(ids@.len() as int) =~= all);
        Ok(Some(items))
    }
}

impl Database {
    /// Writes the index with `id` in it: the ids that still have a body, then `id` unless
    /// it is among them.
    fn put_item_key(&mut self, id: &str) -> (res: Result<(), Error>)
        ensures
            final(self).path() == old(self).path(),
            match res {
                Ok(()) => index_of(old(self)@) is Some && ({
                    let next = with_id(live(old(self)@, index_of(old(self)@)->0), id@);
                    &&& final(self)@ == old(self)@.insert(item_keys_key(), strings_json(next))
                    &&& index_of(final(self)@) == Some(next)
                    &&& final(self).journal() == old(self).journal().push(
                        WriteView::Put { key: item_keys_key(), value: strings_json(next) },
                    )
                }),
                Err(e) => e == Error::StoreError && index_of(old(self)@) is None && final(self)@
                    == old(self)@ && final(self).journal() == old(self).journal(),
            },
    {
        let mut keys = self.live_item_keys()?;
        if !contains_id(&keys, id) {
            let ghost before = keys@;
            keys.push(String::from_str(id));
            assert(strings_view(keys@) =~= strings_view(before).push(id@));
        }
        let db_keys = write_strings(&keys);
        self.put("ITEM_KEYS".as_bytes(), db_keys.as_slice())
    }

    /// Writes the index without `id`: the ids that still have a body, but for `id`.
    fn delete_item_key(&mut self, id: &str) -> (res: Result<(), Error>)
        ensures
            final(self).path() == old(self).path(),
            match res {
                Ok(()) => index_of(old(self)@) is Some && ({
                    let next = without(live(old(self)@, index_of(old(self)@)->0), id@);
                    &&& final(self)@ == old(self)@.insert(item_keys_key(), strings_json(next))
                    &&& index_of(final(self)@) == Some(next)
                    &&& final(self).journal() == old(self).journal().push(
                        WriteView::Put { key: item_keys_key(), value: strings_json(next) },
                    )
                }),
                Err(e) => e == Error::StoreError && index_of(old(self)@) is None && final(self)@
                    == old(self)@ && final(self).journal() == old(self).journal(),
            },
    {
        let live_keys = self.live_item_keys()?;
        let keys = without_id(&live_keys, id);
        let db_keys = write_strings(&keys);
        self.put("ITEM_KEYS".as_bytes(), db_keys.as_slice())
    }

    /// Persists a record: first the index with the record's id in it, then the body under
    /// the id, in place of what was there. Ids of the index that have lost their body leave
    /// the index on the way. `StoreError`, and nothing written, where the id is a reserved
    /// key or the index cannot be read.
    pub fn put_item(&mut self, item: &Item) -> (res: Result<(), Error>)
        ensures
            final(self).path() == old(self).path(),
            res is Ok <==> is_record_id(item@.id) && index_of(old(self)@) is Some,
            res is Ok ==> ({
                let next = with_id(live(old(self)@, index_of(old(self)@)->0), item@.id);
                &&& final(self)@ == old(self)@.insert(item_keys_key(), strings_json(next)).insert(
                    record_key(item@.id),
                    item_json(item@),
                )
                &&& final(self).journal() == old(self).journal().push(
                    WriteView::Put { key: item_keys_key(), value: strings_json(next) },
                ).push(WriteView::Put { key: record_key(item@.id), value: item_json(item@) })
                &&& index_of(final(self)@) == Some(next)
                &&& item_at(final(self)@, item@.id) == Some(item@.persisted())
                &&& shelf_of(final(self)@) == shelf_put(shelf_of(old(self)@), item@)
                &&& no_dangling(final(self)@)
            }),
            res matches Err(e) ==> e == Error::StoreError && final(self)@ == old(self)@
                && final(self).journal() == old(self).journal(),
            sentinel(final(self)@) == sentinel(old(self)@),
            consistent(old(self)@) ==> consistent(final(self)@),
            own_ids(old(self)@) ==> own_ids(final(self)@),
    {
        let uuid = item.id.as_str();
        if str_equal(uuid, "SECRET_HASH") || str_equal(uuid, "ITEM_KEYS") {
            return Err(Error::StoreError);
        }
        let data = item.to_json();
        self.put_item_key(uuid)?;
        let res = self.put(uuid.as_bytes(), data.as_slice());
        proof {
            lemma_reserved_keys(item@.id);
            let next = with_id(live(old(self)@, index_of(old(self)@)->0), item@.id);
            lemma_put_shelf(old(self)@, self@, item@, strings_json(next), item_json(item@));
            if own_ids(old(self)@) {
                lemma_put_own_ids(old(self)@, self@, item@, strings_json(next), item_json(item@));
            }
            if consistent(old(self)@) {
                lemma_put_consistent(
                    old(self)@,
                    self@,
                    item@.id,
                    strings_json(next),
                    item_json(item@),
                );
            }
        }
        res
    }

    /// Deletes a record: first the index is written without the id, then the body is
    /// removed. `NotFound`, and nothing written, where `key` is a reserved key or is
    /// neither in the index nor the key of a body; `StoreError` where the index cannot be
    /// read.
    pub fn del_item(&mut self, key: &str) -> (res: Result<(), Error>)
        ensures
            final(self).path() == old(self).path(),
            match res {
                Ok(_) => deleting(old(self)@, key@) is Ok,
                Err(e) => deleting(old(self)@, key@) == Err::<(), Error>(e),
            },
            res is Ok ==> ({
                let next = without(live(old(self)@, index_of(old(self)@)->0), key@);
                &&& final(self)@ == old(self)@.insert(item_keys_key(), strings_json(next)).remove(
                    record_key(key@),
                )
                &&& final(self).journal() == old(self).journal().push(
                    WriteView::Put { key: item_keys_key(), value: strings_json(next) },
                ).push(WriteView::Delete { key: record_key(key@) })
                &&& index_of(final(self)@) == Some(next)
                &&& !is_live(final(self)@, key@)
                &&& shelf_of(final(self)@) == shelf_del(shelf_of(old(self)@), key@)
                &&& no_dangling(final(self)@)
            }),
            res is Err ==> final(self)@ == old(self)@ && final(self).journal() == old(
                self,
            ).journal(),
            sentinel(final(self)@) == sentinel(old(self)@),
            consistent(old(self)@) ==> consistent(final(self)@),
            own_ids(old(self)@) ==> own_ids(final(self)@),
    {
        if str_equal(key, "SECRET_HASH") || str_equal(key, "ITEM_KEYS") {
            return Err(Error::NotFound);
        }
        let indexed = match self.get_item_keys()? {
            Some(ids) => contains_id(&ids, key),
            None => false,
        };
        if !indexed && !self.contains(key.as_bytes()) {
            return Err(Error::NotFound);
        }
        self.delete_item_key(key)?;
        let res = self.delete(key.as_bytes());
        proof {
            lemma_reserved_keys(key@);
            let next = without(live(old(self)@, index_of(old(self)@)->0), key@);
            lemma_delete_shelf(old(self)@, self@, key@, strings_json(next));
            if own_ids(old(self)@) {
                lemma_delete_own_ids(old(self)@, self@, key@, strings_json(next));
            }
            if consistent(old(self)@) {
                lemma_delete_consistent(old(self)@, self@, key@, strings_json(next));
            }
        }
        res
    }
}

} // verus!
