//! What holds of the vault's operations taken together.

use crate::db::{replayed, Kv, WriteView};
use crate::envelope::envelope_items;
use crate::error::Error;
use crate::hexcode::hex_decoded;
use crate::records::{
    has_index, index_of, is_live, is_record_id, lemma_live_members, lemma_records_listed,
    lemma_reserved_keys, lemma_without, live, own_ids, put_all_table, put_all_writes, put_writes,
    record_key, secret_hash_key, sentinel, without,
};
use crate::shelf::{
    lemma_records_of_shelf, shelf_del, shelf_list, shelf_of, shelf_put, shelf_put_all, Shelf,
};
use crate::text::lemma_utf8_injective;
use crate::types::ItemView;
use crate::utils::{lemma_widened_key, widened_key, widening, AES_256_KEY_NUM};
use crate::vault::{listed, plaintext_of, revealing, sentinel_of, unlocking, Unlocked};
use vstd::prelude::*;
use vstd::utf8::*;

verus! {

/// Every password of 1 to 32 bytes widens to a key of exactly 32 bytes that starts with
/// the password itself.
pub proof fn law_widening(password: Seq<u8>)
    requires
        0 < password.len() <= AES_256_KEY_NUM,
    ensures
        widening(password) == Ok::<Seq<u8>, Error>(widened_key(password)),
        widened_key(password).len() == AES_256_KEY_NUM,
        widened_key(password).subrange(0, password.len() as int) == password,
{
    lemma_widened_key(password);
}

/// Unlocking a vault that keeps no digest yet creates it, and unlocking the vault that
/// results with the same password verifies. This holds of every password that can be
/// widened, that is of 1 to 32 bytes.
pub proof fn law_unlock_twice(kv: Kv, password: Seq<char>)
    requires
        sentinel(kv) is None,
        0 < encode_utf8(password).len() <= AES_256_KEY_NUM,
    ensures
        unlocking(kv, password) == Ok::<Unlocked, Error>(Unlocked::Created),
        unlocking(
            kv.insert(secret_hash_key(), sentinel_of(widened_key(encode_utf8(password)))),
            password,
        ) == Ok::<Unlocked, Error>(Unlocked::Verified),
{
}

/// Replaying two lists of writes one after the other is replaying the two as one list.
pub proof fn lemma_replayed_add(kv: Kv, first: Seq<WriteView>, second: Seq<WriteView>)
    ensures
        replayed(kv, first + second) == replayed(replayed(kv, first), second),
    decreases second.len(),
{
    if second.len() == 0 {
        assert(first + second =~= first);
    } else {
        lemma_replayed_add(kv, first, second.drop_last());
        assert((first + second).drop_last() =~= first + second.drop_last());
        assert((first + second).last() == second.last());
    }
}

/// What taking in a list of records writes, replayed in order on the table as it was,
/// gives the table as it is afterwards: whoever persists the table by replaying the
/// recorded writes persists what the vault holds.
pub proof fn law_writes_replay(kv: Kv, items: Seq<ItemView>)
    ensures
        replayed(kv, put_all_writes(kv, items)) == put_all_table(kv, items),
    decreases items.len(),
{
    if items.len() > 0 {
        let rest = items.drop_last();
        let mid = put_all_table(kv, rest);
        law_writes_replay(kv, rest);
        lemma_replayed_add(kv, put_all_writes(kv, rest), put_writes(mid, items.last()));
        let two = put_writes(mid, items.last());
        assert(two.drop_last().drop_last() =~= Seq::<WriteView>::empty());
        assert(two.drop_last().last() == two[0]);
        assert(two.last() == two[1]);
        reveal_with_fuel(replayed, 3);
    }
}

/// One step that changes which records a vault has.
pub enum Step {
    /// A record is written under its id.
    Put(ItemView),
    /// The record of an id is deleted.
    Delete(Seq<char>),
}

/// The shelf after one step.
pub open spec fn shelf_step(shelf: Shelf, step: Step) -> Shelf {
    match step {
        Step::Put(item) => shelf_put(shelf, item),
        Step::Delete(id) => shelf_del(shelf, id),
    }
}

/// The shelf after the steps of a list, one after the other.
pub open spec fn shelf_run(shelf: Shelf, steps: Seq<Step>) -> Shelf
    decreases steps.len(),
{
    if steps.len() == 0 {
        shelf
    } else {
        shelf_step(shelf_run(shelf, steps.drop_last()), steps.last())
    }
}

/// The shelf of a vault without records.
pub open spec fn empty_shelf() -> Shelf {
    Shelf { index: Seq::empty(), records: Map::empty() }
}

/// Whether index and records of a shelf agree: the index names no id twice, and names
/// exactly the ids that have a record body.
pub open spec fn tidy(shelf: Shelf) -> bool {
    &&& shelf.index.no_duplicates()
    &&& forall|id: Seq<char>| #[trigger]
        shelf.index.contains(id) <==> shelf.records.dom().contains(id)
}

/// A step keeps index and records in agreement.
pub proof fn law_step_keeps_tidy(shelf: Shelf, step: Step)
    requires
        tidy(shelf),
    ensures
        tidy(shelf_step(shelf, step)),
{
    let next = shelf_step(shelf, step);
    match step {
        Step::Put(item) => {
            assert forall|id: Seq<char>| #[trigger]
                next.index.contains(id) <==> next.records.dom().contains(id) by {
                if shelf.index.contains(item.id) {
                } else {
                    if next.index.contains(id) {
                        let i = choose|i: int| 0 <= i < next.index.len() && next.index[i] == id;
                        if i < shelf.index.len() {
                            assert(shelf.index[i] == id);
                            assert(shelf.index.contains(id));
                        }
                    }
                    if shelf.index.contains(id) {
                        let i = choose|i: int| 0 <= i < shelf.index.len() && shelf.index[i] == id;
                        assert(next.index[i] == id);
                    }
                    assert(next.index[shelf.index.len() as int] == item.id);
                }
            }
        },
        Step::Delete(id) => {
            lemma_without(shelf.index, id);
        },
    }
}

/// After any sequence of creations and deletions, from a vault without records, the ids of
/// the index are the ids that have a record body, each once.
pub proof fn law_index_consistency(steps: Seq<Step>)
    ensures
        tidy(shelf_run(empty_shelf(), steps)),
    decreases steps.len(),
{
    if steps.len() > 0 {
        law_index_consistency(steps.drop_last());
        law_step_keeps_tidy(shelf_run(empty_shelf(), steps.drop_last()), steps.last());
    }
}

/// The ids of the records of a list.
pub open spec fn ids_of(items: Seq<ItemView>) -> Seq<Seq<char>> {
    items.map_values(|item: ItemView| item.id)
}

/// What a shelf lists depends only on the records of the ids that are listed.
pub proof fn lemma_shelf_list_frame(a: Shelf, b: Shelf, ids: Seq<Seq<char>>)
    requires
        forall|i: int|
            0 <= i < ids.len() ==> a.records.dom().contains(#[trigger] ids[i])
                == b.records.dom().contains(ids[i]) && a.records[ids[i]] == b.records[ids[i]],
    ensures
        shelf_list(a, ids) == shelf_list(b, ids),
    decreases ids.len(),
{
    if ids.len() > 0 {
        let rest = ids.drop_last();
        assert forall|i: int| 0 <= i < rest.len() implies a.records.dom().contains(
            #[trigger] rest[i],
        ) == b.records.dom().contains(rest[i]) && a.records[rest[i]] == b.records[rest[i]] by {
            assert(rest[i] == ids[i]);
        }
        lemma_shelf_list_frame(a, b, rest);
        assert(ids.last() == ids[ids.len() - 1]);
    }
}

/// Writing records with different ids onto an empty shelf gives a shelf that lists exactly
/// those records, in their order.
pub proof fn lemma_put_all_lists(items: Seq<ItemView>)
    requires
        ids_of(items).no_duplicates(),
        forall|i: int| 0 <= i < items.len() ==> (#[trigger] items[i]).persisted() == items[i],
    ensures
        shelf_put_all(empty_shelf(), items).index == ids_of(items),
        forall|i: int|
            0 <= i < items.len() ==> shelf_put_all(empty_shelf(), items).records.dom().contains(
                (#[trigger] items[i]).id,
            ) && shelf_put_all(empty_shelf(), items).records[items[i].id] == Some(items[i]),
        shelf_list(shelf_put_all(empty_shelf(), items), ids_of(items)) == Some(items),
    decreases items.len(),
{
    let all = shelf_put_all(empty_shelf(), items);
    if items.len() == 0 {
        assert(ids_of(items) =~= Seq::<Seq<char>>::empty());
        assert(items =~= Seq::<ItemView>::empty());
    } else {
        let rest = items.drop_last();
        let last = items.last();
        let prev = shelf_put_all(empty_shelf(), rest);
        assert(ids_of(rest) =~= ids_of(items).drop_last());
        assert(ids_of(items).last() == last.id);
        assert forall|i: int| 0 <= i < rest.len() implies (#[trigger] rest[i]).persisted()
            == rest[i] by {
            assert(rest[i] == items[i]);
        }
        lemma_put_all_lists(rest);
        assert(!ids_of(rest).contains(last.id)) by {
            if ids_of(rest).contains(last.id) {
                let j = choose|j: int| 0 <= j < ids_of(rest).len() && ids_of(rest)[j] == last.id;
                assert(ids_of(items)[j] == ids_of(items)[items.len() - 1]);
            }
        }
        assert(all.index =~= ids_of(items));
        assert forall|i: int| 0 <= i < items.len() implies all.records.dom().contains(
            (#[trigger] items[i]).id,
        ) && all.records[items[i].id] == Some(items[i]) by {
            if i < rest.len() {
                assert(rest[i] == items[i]);
                assert(ids_of(rest)[i] == items[i].id);
                assert(ids_of(rest).contains(items[i].id));
            }
        }
        assert forall|i: int| 0 <= i < ids_of(rest).len() implies prev.records.dom().contains(
            #[trigger] ids_of(rest)[i],
        ) == all.records.dom().contains(ids_of(rest)[i]) && prev.records[ids_of(rest)[i]]
            == all.records[ids_of(rest)[i]] by {
            assert(ids_of(rest).contains(ids_of(rest)[i]));
        }
        lemma_shelf_list_frame(prev, all, ids_of(rest));
        assert(shelf_list(all, ids_of(items)) == Some(rest.push(last)));
        assert(rest.push(last) =~= items);
    }
}

/// What a table with a readable index lists is what its shelf lists along its index.
pub proof fn lemma_listed_shelf(kv: Kv)
    requires
        index_of(kv) is Some,
    ensures
        listed(kv) == match shelf_list(shelf_of(kv), shelf_of(kv).index) {
            Some(items) => Ok::<Seq<ItemView>, Error>(items),
            None => Err::<Seq<ItemView>, Error>(Error::CorruptRecord),
        },
{
    lemma_records_of_shelf(kv, live(kv, index_of(kv)->0));
    if !has_index(kv) {
        reveal(Seq::filter);
        assert(live(kv, index_of(kv)->0) =~= Seq::<Seq<char>>::empty());
    }
}

/// After a record is created under an id that had no body, the vault lists what it listed
/// before and then the new record. `before` and `after` are the vault's table before and
/// after `create`, and `item` is the record that it persisted.
pub proof fn law_create_then_list(before: Kv, after: Kv, item: ItemView)
    requires
        index_of(before) is Some,
        index_of(after) is Some,
        listed(before) is Ok,
        !is_live(before, item.id),
        item.persisted() == item,
        shelf_of(after) == shelf_put(shelf_of(before), item),
    ensures
        listed(after) == Ok::<Seq<ItemView>, Error>(listed(before)->Ok_0.push(item)),
{
    let old_shelf = shelf_of(before);
    let new_shelf = shelf_of(after);
    lemma_live_members(before, index_of(before)->0);
    assert(!old_shelf.index.contains(item.id)) by {
        if old_shelf.index.contains(item.id) {
            let i = choose|i: int| 0 <= i < old_shelf.index.len() && old_shelf.index[i] == item.id;
            assert(is_live(before, old_shelf.index[i]));
        }
    }
    lemma_listed_shelf(before);
    lemma_listed_shelf(after);
    assert(new_shelf.index.drop_last() =~= old_shelf.index);
    assert forall|i: int| 0 <= i < old_shelf.index.len() implies old_shelf.records.dom().contains(
        #[trigger] old_shelf.index[i],
    ) == new_shelf.records.dom().contains(old_shelf.index[i])
        && old_shelf.records[old_shelf.index[i]] == new_shelf.records[old_shelf.index[i]] by {
        assert(old_shelf.index.contains(old_shelf.index[i]));
    }
    lemma_shelf_list_frame(old_shelf, new_shelf, old_shelf.index);
}

/// Whatever stands under one record's key, every other record reveals as before: a body
/// that has gone bad costs no other record.
pub proof fn law_other_records_stay_usable(
    kv: Kv,
    session: Option<Seq<u8>>,
    id: Seq<char>,
    body: Seq<u8>,
    other: Seq<char>,
)
    requires
        is_record_id(id),
        other != id,
    ensures
        revealing(kv.insert(record_key(id), body), session, other) == revealing(
            kv,
            session,
            other,
        ),
{
    lemma_reserved_keys(id);
    lemma_reserved_keys(other);
    lemma_utf8_injective(other, id);
}

/// A record whose secret is no hex text is refused with `CryptoError`, whatever the key.
pub proof fn law_bad_hex_is_refused(key: Seq<u8>, item: ItemView)
    requires
        hex_decoded(encode_utf8(item.secret)) is None,
    ensures
        plaintext_of(key, item) == Err::<Seq<char>, Error>(Error::CryptoError),
{
}

/// Whether a table holds no record body.
pub open spec fn vacant(kv: Kv) -> bool {
    index_of(kv) is Some && forall|id: Seq<char>| !is_live(kv, id)
}

/// Where every record carries the id under which it is kept, the records listed carry the
/// ids of the index that have a body, in their order.
pub proof fn lemma_listed_ids(kv: Kv)
    requires
        listed(kv) is Ok,
        own_ids(kv),
    ensures
        ids_of(listed(kv)->Ok_0) == live(kv, index_of(kv)->0),
{
    let ids = live(kv, index_of(kv)->0);
    if has_index(kv) {
        lemma_records_listed(kv, ids);
        assert(ids_of(listed(kv)->Ok_0) =~= ids);
    } else {
        reveal(Seq::filter);
        assert(ids =~= Seq::<Seq<char>>::empty());
        assert(ids_of(listed(kv)->Ok_0) =~= ids);
    }
}

/// Taking in, into a vault without records, the envelope that another vault exported gives
/// a vault that lists the same records in the same order, secrets and nonces included.
/// `source` is the table of the vault that exported, `envelope` what `export_all` returned
/// for it, `before` and `after` the table of the vault that took the envelope in. The
/// records that the source lists have to differ in their ids: by `lemma_listed_ids` they do
/// where each carries the id under which it is kept and the index names no id with a body
/// twice, whatever else a crash has left in the table.
pub proof fn law_export_import(source: Kv, envelope: Seq<u8>, before: Kv, after: Kv)
    requires
        listed(source) is Ok,
        ids_of(listed(source)->Ok_0).no_duplicates(),
        envelope_items(envelope) == Some(listed(source)->Ok_0),
        vacant(before),
        index_of(after) is Some,
        shelf_of(after) == shelf_put_all(shelf_of(before), envelope_items(envelope)->0),
    ensures
        listed(after) == listed(source),
{
    let items = listed(source)->Ok_0;
    if has_index(source) {
        lemma_records_listed(source, live(source, index_of(source)->0));
    }
    lemma_put_all_lists(items);
    lemma_live_members(before, index_of(before)->0);
    assert(shelf_of(before).index =~= Seq::<Seq<char>>::empty()) by {
        if shelf_of(before).index.len() > 0 {
            assert(is_live(before, shelf_of(before).index[0]));
        }
    }
    assert(shelf_of(before).records =~= Map::<Seq<char>, Option<ItemView>>::empty());
    assert(shelf_of(before) == empty_shelf());
    lemma_listed_shelf(after);
}

} // verus!
