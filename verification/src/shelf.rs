//! The vault's records as its operations see them, apart from the bytes that hold them.

use crate::db::Kv;
use crate::records::{
    index_of, is_live, is_record_id, item_at, item_keys_key, lemma_live_all, lemma_live_members,
    lemma_reserved_keys, lemma_without, live, no_dangling, record_key, records_of, with_id, without,
};
use crate::text::lemma_utf8_injective;
use crate::types::ItemView;
use vstd::prelude::*;

verus! {

/// The vault's records as its operations see them: the ids of the index that have a body,
/// in the order of the index, and for every id with a body the record it holds, or `None`
/// where the body cannot be read.
pub struct Shelf {
    pub index: Seq<Seq<char>>,
    pub records: Map<Seq<char>, Option<ItemView>>,
}

/// The shelf that a table with a readable index stands for.
pub open spec fn shelf_of(kv: Kv) -> Shelf {
    Shelf {
        index: live(kv, index_of(kv)->0),
        records: Map::new(|id: Seq<char>| is_live(kv, id), |id: Seq<char>| item_at(kv, id)),
    }
}

/// The shelf after a record is written: the id joins the index unless it is there, and the
/// record, sealed, takes the place of what the id held.
pub open spec fn shelf_put(shelf: Shelf, item: ItemView) -> Shelf {
    Shelf {
        index: with_id(shelf.index, item.id),
        records: shelf.records.insert(item.id, Some(item.persisted())),
    }
}

/// The shelf after the record `id` is deleted.
pub open spec fn shelf_del(shelf: Shelf, id: Seq<char>) -> Shelf {
    Shelf { index: without(shelf.index, id), records: shelf.records.remove(id) }
}

/// The shelf after the records of a list are written one after the other.
pub open spec fn shelf_put_all(shelf: Shelf, items: Seq<ItemView>) -> Shelf
    decreases items.len(),
{
    if items.len() == 0 {
        shelf
    } else {
        shelf_put(shelf_put_all(shelf, items.drop_last()), items.last())
    }
}

/// The records that a shelf lists: those of its index, in that order; `None` where one of
/// them cannot be read.
pub open spec fn shelf_list(shelf: Shelf, ids: Seq<Seq<char>>) -> Option<Seq<ItemView>>
    decreases ids.len(),
{
    if ids.len() == 0 {
        Some(Seq::empty())
    } else if shelf_list(shelf, ids.drop_last()) is Some && shelf.records.dom().contains(
        ids.last(),
    ) && shelf.records[ids.last()] is Some {
        Some(shelf_list(shelf, ids.drop_last())->0.push(shelf.records[ids.last()]->0))
    } else {
        None
    }
}

/// What the table lists is what its shelf lists.
pub proof fn lemma_records_of_shelf(kv: Kv, ids: Seq<Seq<char>>)
    ensures
        records_of(kv, ids) == shelf_list(shelf_of(kv), ids),
    decreases ids.len(),
{
    if ids.len() > 0 {
        lemma_records_of_shelf(kv, ids.drop_last());
    }
}

/// Writing a record changes the shelf as `shelf_put` says.
pub proof fn lemma_put_shelf(
    before: Kv,
    after: Kv,
    item: ItemView,
    index_text: Seq<u8>,
    body: Seq<u8>,
)
    requires
        is_record_id(item.id),
        index_of(before) is Some,
        after == before.insert(item_keys_key(), index_text).insert(record_key(item.id), body),
        index_of(after) == Some(with_id(live(before, index_of(before)->0), item.id)),
        item_at(after, item.id) == Some(item.persisted()),
    ensures
        shelf_of(after) == shelf_put(shelf_of(before), item),
        no_dangling(after),
{
    let id = item.id;
    let base = live(before, index_of(before)->0);
    let next = with_id(base, id);
    lemma_reserved_keys(id);
    lemma_live_members(before, index_of(before)->0);
    assert forall|other: Seq<char>| is_live(after, other) == (is_live(before, other) || other
        == id) by {
        lemma_reserved_keys(other);
        lemma_utf8_injective(other, id);
    }
    assert forall|i: int| 0 <= i < next.len() implies is_live(after, #[trigger] next[i]) by {
        if i < base.len() {
            assert(is_live(before, base[i]));
        }
    }
    lemma_live_all(after, next);
    assert forall|other: Seq<char>| is_live(before, other) && other != id implies item_at(
        after,
        other,
    ) == item_at(before, other) by {
        lemma_reserved_keys(other);
        lemma_utf8_injective(other, id);
    }
    assert(shelf_of(after).records =~= shelf_put(shelf_of(before), item).records);
}

/// Deleting a record changes the shelf as `shelf_del` says.
pub proof fn lemma_delete_shelf(before: Kv, after: Kv, id: Seq<char>, index_text: Seq<u8>)
    requires
        is_record_id(id),
        index_of(before) is Some,
        after == before.insert(item_keys_key(), index_text).remove(record_key(id)),
        index_of(after) == Some(without(live(before, index_of(before)->0), id)),
    ensures
        shelf_of(after) == shelf_del(shelf_of(before), id),
        no_dangling(after),
{
    let base = live(before, index_of(before)->0);
    let next = without(base, id);
    lemma_reserved_keys(id);
    lemma_live_members(before, index_of(before)->0);
    lemma_without(base, id);
    assert forall|other: Seq<char>| is_live(after, other) == (is_live(before, other) && other
        != id) by {
        lemma_reserved_keys(other);
        lemma_utf8_injective(other, id);
    }
    assert forall|i: int| 0 <= i < next.len() implies is_live(after, #[trigger] next[i]) by {
        assert(next.contains(next[i]));
        let j = choose|j: int| 0 <= j < base.len() && base[j] == next[i];
        assert(is_live(before, base[j]));
    }
    lemma_live_all(after, next);
    assert forall|other: Seq<char>| is_live(before, other) && other != id implies item_at(
        after,
        other,
    ) == item_at(before, other) by {
        lemma_reserved_keys(other);
        lemma_utf8_injective(other, id);
    }
    assert(shelf_of(after).records =~= shelf_del(shelf_of(before), id).records);
}

} // verus!
