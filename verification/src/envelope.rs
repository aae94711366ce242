//! The export envelope: all records of a vault as one JSON text, for another vault to take in.

use crate::hexcode::{
    hex_decode, hex_decoded, hex_encode, hex_text, lemma_hex_round_trip, lemma_hex_text_bytes,
};
use crate::json::{
    all_writable, members_view, objects_from_json, objects_json, objects_view, read_objects,
    writable, write_objects, JsonScalar, Members,
};
use crate::records::is_record_id;
use crate::types::{
    export_from_json, export_json, item_from_members, item_members, items_view,
    lemma_item_members_round_trip, option_items, persisted_all, ExportView, Item, ItemView,
    EXPORT_VERSION,
};
use vstd::prelude::*;
use vstd::string::*;
use vstd::utf8::*;

verus! {

/// The members of each record of a list.
pub open spec fn items_members(items: Seq<ItemView>) -> Seq<Members> {
    items.map_values(|item: ItemView| item_members(item))
}

/// The records that a list of JSON objects stands for, or `None` where one of them is no
/// record.
pub open spec fn items_from_members(list: Seq<Members>) -> Option<Seq<ItemView>>
    decreases list.len(),
{
    if list.len() == 0 {
        Some(Seq::empty())
    } else if items_from_members(list.drop_last()) is Some && item_from_members(list.last())
        is Some {
        Some(items_from_members(list.drop_last())->0.push(item_from_members(list.last())->0))
    } else {
        None
    }
}

/// The content of an envelope with the given records: the hex text of their JSON array.
pub open spec fn content_of(items: Seq<ItemView>) -> Seq<char> {
    hex_text(objects_json(items_members(items)))
}

/// The records in the content of an envelope, or `None` where the content is not the hex
/// text of a JSON array of records.
pub open spec fn items_from_content(content: Seq<char>) -> Option<Seq<ItemView>> {
    match hex_decoded(encode_utf8(content)) {
        Some(text) => match objects_from_json(text) {
            Some(list) => items_from_members(list),
            None => None,
        },
        None => None,
    }
}

/// Whether every record of a list has an id that can name a record.
pub open spec fn all_record_ids(items: Seq<ItemView>) -> bool {
    forall|i: int| 0 <= i < items.len() ==> is_record_id((#[trigger] items[i]).id)
}

/// The envelope text for the given records, description and time.
pub open spec fn envelope_of(items: Seq<ItemView>, desc: Seq<char>, time: Seq<char>) -> Seq<u8> {
    export_json(
        ExportView { version: EXPORT_VERSION as int, desc, time, content: content_of(items) },
    )
}

/// The records that an envelope text carries, or `None` where the text is no envelope, its
/// content is no list of records, or a record is named by a reserved key.
pub open spec fn envelope_items(text: Seq<u8>) -> Option<Seq<ItemView>> {
    match export_from_json(text) {
        Some(export) => match items_from_content(export.content) {
            Some(items) => if all_record_ids(items) {
                Some(items)
            } else {
                None
            },
            None => None,
        },
        None => None,
    }
}

/// Reading the members of a list of records gives the records back, each one sealed.
pub proof fn lemma_items_members_round_trip(items: Seq<ItemView>)
    ensures
        all_writable(items_members(items)),
        items_from_members(items_members(items)) == Some(persisted_all(items)),
    decreases items.len(),
{
    let list = items_members(items);
    assert forall|i: int| 0 <= i < list.len() implies writable(#[trigger] list[i]) by {
        lemma_item_members_round_trip(items[i]);
    }
    if items.len() > 0 {
        lemma_items_members_round_trip(items.drop_last());
        lemma_item_members_round_trip(items.last());
        assert(list.drop_last() =~= items_members(items.drop_last()));
        assert(persisted_all(items) =~= persisted_all(items.drop_last()).push(
            items.last().persisted(),
        ));
    } else {
        assert(persisted_all(items) =~= Seq::<ItemView>::empty());
    }
}

/// Where the first objects of a list are not all records, neither are all of the list.
pub proof fn lemma_members_prefix(list: Seq<Members>, n: int)
    requires
        0 <= n <= list.len(),
        items_from_members(list.take(n)) is None,
    ensures
        items_from_members(list) is None,
    decreases list.len() - n,
{
    if n < list.len() {
        assert(list.take(n + 1).drop_last() =~= list.take(n));
        lemma_members_prefix(list, n + 1);
    } else {
        assert(list.take(n) =~= list);
    }
}

/// The content of an envelope for `items`. Reading the content gives the records back, each
/// one sealed.
pub fn pack_items(items: &Vec<Item>) -> (content: String)
    ensures
        content@ == content_of(items_view(items@)),
        items_from_content(content@) == Some(persisted_all(items_view(items@))),
{
    let ghost all = items_view(items@);
    let mut list: Vec<Vec<(String, JsonScalar)>> = Vec::new();
    let mut i: usize = 0;
    assert(objects_view(list@) =~= items_members(all.take(0)));
    while i < items.len()
        invariant
            i <= items@.len(),
            all == items_view(items@),
            objects_view(list@) == items_members(all.take(i as int)),
        decreases items@.len() - i,
    {
        let fields = items[i].to_members();
        let ghost before = list@;
        list.push(fields);
        assert(objects_view(list@) =~= objects_view(before).push(item_members(all[i as int])));
        assert(items_members(all.take(i + 1)) =~= items_members(all.take(i as int)).push(
            item_members(all[i as int]),
        ));
        i = i + 1;
    }
    proof {
        assert(all.take(items@.len() as int) =~= all);
        lemma_items_members_round_trip(all);
    }
    let text = write_objects(&list);
    let content = hex_encode(text.as_slice());
    proof {
        lemma_hex_text_bytes(text@);
        lemma_hex_round_trip(text@);
    }
    content
}

/// The records in the content of an envelope.
pub fn unpack_items(content: &str) -> (res: Option<Vec<Item>>)
    ensures
        option_items(res) == items_from_content(content@),
{
    let text = hex_decode(content.as_bytes())?;
    let list = read_objects(text.as_slice())?;
    let ghost all = objects_view(list@);
    let mut items: Vec<Item> = Vec::new();
    let mut i: usize = 0;
    assert(all.take(0) =~= Seq::<Members>::empty());
    assert(items_view(items@) =~= Seq::<ItemView>::empty());
    while i < list.len()
        invariant
            i <= list@.len(),
            all == objects_view(list@),
            hex_decoded(encode_utf8(content@)) == Some(text@),
            objects_from_json(text@) == Some(all),
            items_from_members(all.take(i as int)) == Some(items_view(items@)),
        decreases list@.len() - i,
    {
        proof {
            assert(all.take(i + 1).drop_last() =~= all.take(i as int));
            assert(all.take(i + 1).last() == all[i as int]);
            assert(all[i as int] == members_view(list@[i as int]@));
        }
        match Item::from_members(&list[i]) {
            Some(item) => {
                let ghost before = items@;
                items.push(item);
                assert(items_view(items@) =~= items_view(before).push(item@));
            },
            None => {
                proof {
                    assert(item_from_members(all[i as int]) is None);
                    assert(items_from_members(all.take(i + 1)) is None);
                    lemma_members_prefix(all, i + 1);
                }
                return None;
            },
        }
        i = i + 1;
    }
    assert(all.take(list@.len() as int) =~= all);
    Some(items)
}

} // verus!
