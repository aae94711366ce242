//! How the vault's records, key index and password digest are laid out in the table, and
//! what reading and writing them means.

use crate::db::{Kv, WriteView};
use crate::error::Error;
use crate::json::{strings_from_json, strings_json};
use crate::text::lemma_utf8_injective;
use crate::types::{item_from_json, item_json, ItemView};
use vstd::prelude::*;
use vstd::utf8::*;

verus! {

/// The key under which the digest of the vault's key is kept.
pub open spec fn secret_hash_key() -> Seq<u8> {
    encode_utf8("SECRET_HASH"@)
}

/// The key under which the key index is kept.
pub open spec fn item_keys_key() -> Seq<u8> {
    encode_utf8("ITEM_KEYS"@)
}

/// The key under which the record with the given id is kept: the id's UTF-8 bytes.
pub open spec fn record_key(id: Seq<char>) -> Seq<u8> {
    encode_utf8(id)
}

/// Whether `id` can name a record: any text but the two reserved keys.
pub open spec fn is_record_id(id: Seq<char>) -> bool {
    id != "SECRET_HASH"@ && id != "ITEM_KEYS"@
}

/// Whether `key` is one of the two reserved keys.
pub open spec fn is_reserved(key: Seq<u8>) -> bool {
    key == secret_hash_key() || key == item_keys_key()
}

/// The digest that the table keeps, if it keeps one.
pub open spec fn sentinel(kv: Kv) -> Option<Seq<u8>> {
    if kv.dom().contains(secret_hash_key()) {
        Some(kv[secret_hash_key()])
    } else {
        None
    }
}

/// Whether the table holds a key index.
pub open spec fn has_index(kv: Kv) -> bool {
    kv.dom().contains(item_keys_key())
}

/// The key index that the table holds: the ids in insertion order. No ids where the table
/// holds no index; `None` where what it holds under the index key cannot be read.
pub open spec fn index_of(kv: Kv) -> Option<Seq<Seq<char>>> {
    if has_index(kv) {
        strings_from_json(kv[item_keys_key()])
    } else {
        Some(Seq::empty())
    }
}

/// Whether a record body is kept under `id`.
pub open spec fn is_live(kv: Kv, id: Seq<char>) -> bool {
    is_record_id(id) && kv.dom().contains(record_key(id))
}

/// The ids among `ids` under which a record body is kept, in the same order.
pub open spec fn live(kv: Kv, ids: Seq<Seq<char>>) -> Seq<Seq<char>> {
    ids.filter(|id: Seq<char>| is_live(kv, id))
}

/// `ids` without every occurrence of `id`.
pub open spec fn without(ids: Seq<Seq<char>>, id: Seq<char>) -> Seq<Seq<char>> {
    ids.filter(|other: Seq<char>| other != id)
}

/// `ids` with `id` at the end, unless it is among them already.
pub open spec fn with_id(ids: Seq<Seq<char>>, id: Seq<char>) -> Seq<Seq<char>> {
    if ids.contains(id) {
        ids
    } else {
        ids.push(id)
    }
}

/// The record kept under `id`: `None` where no body is kept there or the body cannot be
/// read as a record. The record is returned as the body holds it, whatever id it carries.
pub open spec fn item_at(kv: Kv, id: Seq<char>) -> Option<ItemView> {
    if is_live(kv, id) {
        item_from_json(kv[record_key(id)])
    } else {
        None
    }
}

/// Whether every record that can be read carries the id under which it is kept.
pub open spec fn own_ids(kv: Kv) -> bool {
    forall|id: Seq<char>| (#[trigger] item_at(kv, id)) matches Some(item) ==> item.id == id
}

/// What looking up `id` gives: no record where no body is kept under it, `CorruptRecord`
/// where the body cannot be read, else the record.
pub open spec fn looked_up(kv: Kv, id: Seq<char>) -> Result<Option<ItemView>, Error> {
    if !is_live(kv, id) {
        Ok(None)
    } else if item_at(kv, id) is Some {
        Ok(item_at(kv, id))
    } else {
        Err(Error::CorruptRecord)
    }
}

/// The records kept under `ids`, in that order; `None` where one of them cannot be read.
pub open spec fn records_of(kv: Kv, ids: Seq<Seq<char>>) -> Option<Seq<ItemView>>
    decreases ids.len(),
{
    if ids.len() == 0 {
        Some(Seq::empty())
    } else if records_of(kv, ids.drop_last()) is Some && item_at(kv, ids.last()) is Some {
        Some(records_of(kv, ids.drop_last())->0.push(item_at(kv, ids.last())->0))
    } else {
        None
    }
}

/// What listing the vault gives: nothing where the table holds no index, `StoreError`
/// where the index cannot be read, `CorruptRecord` where a body cannot be read, else the
/// records in the order of the index, the ids without a body passed over.
pub open spec fn listing(kv: Kv) -> Result<Option<Seq<ItemView>>, Error> {
    if !has_index(kv) {
        Ok(None)
    } else if index_of(kv) is None {
        Err(Error::StoreError)
    } else if records_of(kv, live(kv, index_of(kv)->0)) is None {
        Err(Error::CorruptRecord)
    } else {
        Ok(records_of(kv, live(kv, index_of(kv)->0)))
    }
}

/// What deleting the record `id` reports.
pub open spec fn deleting(kv: Kv, id: Seq<char>) -> Result<(), Error> {
    if !is_record_id(id) {
        Err(Error::NotFound)
    } else if index_of(kv) is None {
        Err(Error::StoreError)
    } else if !index_of(kv)->0.contains(id) && !kv.dom().contains(record_key(id)) {
        Err(Error::NotFound)
    } else {
        Ok(())
    }
}

/// Whether the index can be read and a body is kept under every id that it names.
pub open spec fn no_dangling(kv: Kv) -> bool {
    index_of(kv) matches Some(ids) && forall|i: int|
        0 <= i < ids.len() ==> is_live(kv, #[trigger] ids[i])
}

/// The table after a record is written: the index with the record's id in it, and the
/// record's JSON text under the id.
pub open spec fn put_table(kv: Kv, item: ItemView) -> Kv {
    kv.insert(
        item_keys_key(),
        strings_json(with_id(live(kv, index_of(kv)->0), item.id)),
    ).insert(record_key(item.id), item_json(item))
}

/// The two writes that persist a record, the index first.
pub open spec fn put_writes(kv: Kv, item: ItemView) -> Seq<WriteView> {
    seq![
        WriteView::Put {
            key: item_keys_key(),
            value: strings_json(with_id(live(kv, index_of(kv)->0), item.id)),
        },
        WriteView::Put { key: record_key(item.id), value: item_json(item) },
    ]
}

/// The table after the records of a list are written one after the other.
pub open spec fn put_all_table(kv: Kv, items: Seq<ItemView>) -> Kv
    decreases items.len(),
{
    if items.len() == 0 {
        kv
    } else {
        put_table(put_all_table(kv, items.drop_last()), items.last())
    }
}

/// The writes that persist the records of a list one after the other.
pub open spec fn put_all_writes(kv: Kv, items: Seq<ItemView>) -> Seq<WriteView>
    decreases items.len(),
{
    if items.len() == 0 {
        Seq::empty()
    } else {
        put_all_writes(kv, items.drop_last()) + put_writes(
            put_all_table(kv, items.drop_last()),
            items.last(),
        )
    }
}

/// Whether index and bodies agree: the index can be read and names no id twice, a body
/// is kept under every id that it names, and every key but the two reserved ones is the
/// key of an id that it names.
pub open spec fn consistent(kv: Kv) -> bool {
    &&& index_of(kv) matches Some(ids)
    &&& ids.no_duplicates()
    &&& forall|i: int| 0 <= i < ids.len() ==> is_live(kv, #[trigger] ids[i])
    &&& forall|key: Seq<u8>| #[trigger]
        kv.dom().contains(key) && !is_reserved(key) ==> exists|i: int|
            0 <= i < ids.len() && record_key(#[trigger] ids[i]) == key
}

/// The two reserved keys differ, and an id that can name a record has neither as its key.
pub proof fn lemma_reserved_keys(id: Seq<char>)
    ensures
        secret_hash_key() != item_keys_key(),
        is_record_id(id) <==> !is_reserved(record_key(id)),
{
    reveal_strlit("SECRET_HASH");
    reveal_strlit("ITEM_KEYS");
    assert("SECRET_HASH"@.len() != "ITEM_KEYS"@.len());
    lemma_utf8_injective("SECRET_HASH"@, "ITEM_KEYS"@);
    lemma_utf8_injective(id, "SECRET_HASH"@);
    lemma_utf8_injective(id, "ITEM_KEYS"@);
}

/// What `without` keeps: each id but the one left out, and no id twice where none was.
pub proof fn lemma_without(ids: Seq<Seq<char>>, id: Seq<char>)
    ensures
        forall|other: Seq<char>| #[trigger]
            without(ids, id).contains(other) <==> ids.contains(other) && other != id,
        ids.no_duplicates() ==> without(ids, id).no_duplicates(),
    decreases ids.len(),
{
    reveal(Seq::filter);
    let keep = |other: Seq<char>| other != id;
    if ids.len() > 0 {
        let rest = ids.drop_last();
        let last = ids.last();
        lemma_without(rest, id);
        assert(ids =~= rest.push(last));
        assert forall|other: Seq<char>| #[trigger]
            without(ids, id).contains(other) <==> ids.contains(other) && other != id by {
            if without(ids, id).contains(other) {
                let i = choose|i: int|
                    0 <= i < without(ids, id).len() && without(ids, id)[i] == other;
                if last != id && i == without(ids, id).len() - 1 {
                    assert(ids[ids.len() - 1] == other);
                } else {
                    assert(without(rest, id)[i] == other);
                    assert(without(rest, id).contains(other));
                    let j = choose|j: int| 0 <= j < rest.len() && rest[j] == other;
                    assert(ids[j] == other);
                }
            }
            if ids.contains(other) && other != id {
                let j = choose|j: int| 0 <= j < ids.len() && ids[j] == other;
                if j == ids.len() - 1 {
                    assert(without(ids, id)[without(ids, id).len() - 1] == other);
                } else {
                    assert(rest[j] == other);
                    assert(rest.contains(other));
                    assert(without(rest, id).contains(other));
                    let i = choose|i: int|
                        0 <= i < without(rest, id).len() && without(rest, id)[i] == other;
                    assert(without(ids, id)[i] == other);
                }
            }
        }
        if ids.no_duplicates() {
            assert(rest.no_duplicates());
            if last != id {
                assert(!rest.contains(last)) by {
                    if rest.contains(last) {
                        let j = choose|j: int| 0 <= j < rest.len() && rest[j] == last;
                        assert(ids[j] == ids[ids.len() - 1]);
                    }
                }
                assert(!without(rest, id).contains(last));
            }
        }
    }
}

/// Where a body is kept under every id of a list, `live` keeps the whole list.
pub proof fn lemma_live_all(kv: Kv, ids: Seq<Seq<char>>)
    requires
        forall|i: int| 0 <= i < ids.len() ==> is_live(kv, #[trigger] ids[i]),
    ensures
        live(kv, ids) == ids,
    decreases ids.len(),
{
    reveal(Seq::filter);
    if ids.len() > 0 {
        let rest = ids.drop_last();
        assert forall|i: int| 0 <= i < rest.len() implies is_live(kv, #[trigger] rest[i]) by {
            assert(rest[i] == ids[i]);
        }
        lemma_live_all(kv, rest);
        assert(is_live(kv, ids[ids.len() - 1]));
        assert(ids =~= rest.push(ids.last()));
    }
}

/// Every id that `live` keeps has a body, and was in the list.
pub proof fn lemma_live_members(kv: Kv, ids: Seq<Seq<char>>)
    ensures
        forall|i: int| 0 <= i < live(kv, ids).len() ==> is_live(kv, #[trigger] live(kv, ids)[i]),
        forall|i: int|
            0 <= i < live(kv, ids).len() ==> ids.contains(#[trigger] live(kv, ids)[i]),
{
    let keep = |id: Seq<char>| is_live(kv, id);
    assert forall|i: int| 0 <= i < live(kv, ids).len() implies is_live(
        kv,
        #[trigger] live(kv, ids)[i],
    ) && ids.contains(live(kv, ids)[i]) by {
        ids.lemma_filter_pred(keep, i);
        assert(ids.filter(keep).contains(ids.filter(keep)[i]));
        ids.lemma_filter_contains_rev(keep, ids.filter(keep)[i]);
    }
}

/// Writing a record keeps index and bodies in agreement.
pub proof fn lemma_put_consistent(
    before: Kv,
    after: Kv,
    id: Seq<char>,
    index_text: Seq<u8>,
    body: Seq<u8>,
)
    requires
        consistent(before),
        is_record_id(id),
        after == before.insert(item_keys_key(), index_text).insert(record_key(id), body),
        index_of(after) == Some(with_id(live(before, index_of(before)->0), id)),
    ensures
        consistent(after),
{
    let ids = index_of(before)->0;
    lemma_live_all(before, ids);
    lemma_reserved_keys(id);
    let next = with_id(ids, id);
    assert(next.no_duplicates());
    assert forall|i: int| 0 <= i < next.len() implies is_live(after, #[trigger] next[i]) by {
        if i < ids.len() {
            assert(is_live(before, ids[i]));
        }
    }
    assert forall|key: Seq<u8>| #[trigger]
        after.dom().contains(key) && !is_reserved(key) implies exists|i: int|
        0 <= i < next.len() && record_key(#[trigger] next[i]) == key by {
        if key == record_key(id) {
            if ids.contains(id) {
                let i = choose|i: int| 0 <= i < ids.len() && ids[i] == id;
                assert(record_key(next[i]) == key);
            } else {
                assert(record_key(next[ids.len() as int]) == key);
            }
        } else {
            assert(before.dom().contains(key));
            let i = choose|i: int| 0 <= i < ids.len() && record_key(#[trigger] ids[i]) == key;
            assert(record_key(next[i]) == key);
        }
    }
}

/// Deleting a record keeps index and bodies in agreement.
pub proof fn lemma_delete_consistent(before: Kv, after: Kv, id: Seq<char>, index_text: Seq<u8>)
    requires
        consistent(before),
        is_record_id(id),
        after == before.insert(item_keys_key(), index_text).remove(record_key(id)),
        index_of(after) == Some(without(live(before, index_of(before)->0), id)),
    ensures
        consistent(after),
{
    let ids = index_of(before)->0;
    lemma_live_all(before, ids);
    lemma_reserved_keys(id);
    lemma_without(ids, id);
    let next = without(ids, id);
    assert forall|i: int| 0 <= i < next.len() implies is_live(after, #[trigger] next[i]) by {
        assert(next.contains(next[i]));
        let j = choose|j: int| 0 <= j < ids.len() && ids[j] == next[i];
        assert(is_live(before, ids[j]));
        lemma_utf8_injective(next[i], id);
    }
    assert forall|key: Seq<u8>| #[trigger]
        after.dom().contains(key) && !is_reserved(key) implies exists|i: int|
        0 <= i < next.len() && record_key(#[trigger] next[i]) == key by {
        assert(before.dom().contains(key));
        let j = choose|j: int| 0 <= j < ids.len() && record_key(#[trigger] ids[j]) == key;
        assert(ids.contains(ids[j]));
        assert(next.contains(ids[j]));
        let i = choose|i: int| 0 <= i < next.len() && next[i] == ids[j];
        assert(record_key(next[i]) == key);
    }
}

/// A table with no key at all has index and bodies in agreement, and no record that
/// carries another id than its own.
pub proof fn lemma_empty_consistent()
    ensures
        consistent(Map::<Seq<u8>, Seq<u8>>::empty()),
        own_ids(Map::<Seq<u8>, Seq<u8>>::empty()),
{
}

/// Writing a record under its own id leaves every record under the id that it carries.
pub proof fn lemma_put_own_ids(
    before: Kv,
    after: Kv,
    item: ItemView,
    index_text: Seq<u8>,
    body: Seq<u8>,
)
    requires
        own_ids(before),
        is_record_id(item.id),
        after == before.insert(item_keys_key(), index_text).insert(record_key(item.id), body),
        item_at(after, item.id) == Some(item.persisted()),
    ensures
        own_ids(after),
{
    lemma_reserved_keys(item.id);
    assert forall|id: Seq<char>| (#[trigger] item_at(after, id)) is Some implies item_at(
        after,
        id,
    )->0.id == id by {
        if id != item.id {
            lemma_reserved_keys(id);
            lemma_utf8_injective(id, item.id);
            assert(item_at(after, id) == item_at(before, id));
        }
    }
}

/// Deleting a record leaves every other record under the id that it carries.
pub proof fn lemma_delete_own_ids(before: Kv, after: Kv, id: Seq<char>, index_text: Seq<u8>)
    requires
        own_ids(before),
        is_record_id(id),
        after == before.insert(item_keys_key(), index_text).remove(record_key(id)),
    ensures
        own_ids(after),
{
    lemma_reserved_keys(id);
    assert forall|other: Seq<char>| (#[trigger] item_at(after, other)) is Some implies item_at(
        after,
        other,
    )->0.id == other by {
        lemma_reserved_keys(other);
        lemma_utf8_injective(other, id);
        if other != id {
            assert(item_at(after, other) == item_at(before, other));
        }
    }
}

/// Where the records under the first ids cannot all be read, neither can those under all.
pub proof fn lemma_records_prefix(kv: Kv, ids: Seq<Seq<char>>, n: int)
    requires
        0 <= n <= ids.len(),
        records_of(kv, ids.take(n)) is None,
    ensures
        records_of(kv, ids) is None,
    decreases ids.len() - n,
{
    if n < ids.len() {
        assert(ids.take(n + 1).drop_last() =~= ids.take(n));
        lemma_records_prefix(kv, ids, n + 1);
    } else {
        assert(ids.take(n) =~= ids);
    }
}

/// What a table lists: as many records as ids, each the one kept under the id at its
/// place, and each sealed. Where every record carries the id under which it is kept, the
/// records listed carry the ids in their order, and each id can name a record.
pub proof fn lemma_records_listed(kv: Kv, ids: Seq<Seq<char>>)
    requires
        records_of(kv, ids) is Some,
    ensures
        records_of(kv, ids)->0.len() == ids.len(),
        forall|i: int|
            0 <= i < ids.len() ==> {
                let item = #[trigger] records_of(kv, ids)->0[i];
                &&& item_at(kv, ids[i]) == Some(item)
                &&& item.persisted() == item
                &&& own_ids(kv) ==> item.id == ids[i] && is_record_id(item.id)
            },
    decreases ids.len(),
{
    if ids.len() > 0 {
        lemma_records_listed(kv, ids.drop_last());
        let items = records_of(kv, ids)->0;
        assert forall|i: int| 0 <= i < ids.len() implies {
            let item = #[trigger] items[i];
            &&& item_at(kv, ids[i]) == Some(item)
            &&& item.persisted() == item
            &&& own_ids(kv) ==> item.id == ids[i] && is_record_id(item.id)
        } by {
            if i < ids.len() - 1 {
                assert(items[i] == records_of(kv, ids.drop_last())->0[i]);
                assert(ids.drop_last()[i] == ids[i]);
            }
        }
    }
}

} // verus!
