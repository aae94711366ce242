//! JSON text as the vault stores and exchanges it: lists of strings, and flat objects whose
//! members are strings or integers. The text itself is written and read by `serde_json`.

use serde_json::Value;
use vstd::prelude::*;
use vstd::utf8::*;

verus! {

/// The value of one member of a flat JSON object, as far as the vault reads it.
#[derive(Debug)]
pub enum JsonScalar {
    /// A JSON string.
    Text(String),
    /// A JSON number that is an integer of at most 64 bits, sign included.
    Number(i64),
    /// A JSON number that is an integer too large for `Number` and of at most 64 bits.
    Large(u64),
    /// Any other JSON value: the vault reads nothing from it.
    Other,
}

/// What a `JsonScalar` holds.
pub enum ScalarView {
    Text(Seq<char>),
    Number(int),
    Large(int),
    Other,
}

impl View for JsonScalar {
    type V = ScalarView;

    open spec fn view(&self) -> ScalarView {
        match self {
            JsonScalar::Text(s) => ScalarView::Text(s@),
            JsonScalar::Number(n) => ScalarView::Number(*n as int),
            JsonScalar::Large(n) => ScalarView::Large(*n as int),
            JsonScalar::Other => ScalarView::Other,
        }
    }
}

impl Clone for JsonScalar {
    fn clone(&self) -> (res: Self)
        ensures
            res@ == self@,
    {
        match self {
            JsonScalar::Text(s) => JsonScalar::Text(s.clone()),
            JsonScalar::Number(n) => JsonScalar::Number(*n),
            JsonScalar::Large(n) => JsonScalar::Large(*n),
            JsonScalar::Other => JsonScalar::Other,
        }
    }
}

/// The members of a JSON object in the order in which they stand.
pub type Members = Seq<(Seq<char>, ScalarView)>;

/// What a list of strings holds.
pub open spec fn strings_view(list: Seq<String>) -> Seq<Seq<char>> {
    list.map_values(|s: String| s@)
}

/// What a list of members holds.
pub open spec fn members_view(fields: Seq<(String, JsonScalar)>) -> Members {
    fields.map_values(|f: (String, JsonScalar)| (f.0@, f.1@))
}

/// What a list of objects holds.
pub open spec fn objects_view(list: Seq<Vec<(String, JsonScalar)>>) -> Seq<Members> {
    list.map_values(|o: Vec<(String, JsonScalar)>| members_view(o@))
}

/// Whether no two members have the same name.
pub open spec fn distinct_names(fields: Members) -> bool {
    forall|i: int, j: int|
        0 <= i < j < fields.len() ==> (#[trigger] fields[i]).0 != (#[trigger] fields[j]).0
}

/// Whether every member is a string or an integer of the `Number` kind.
pub open spec fn all_scalars(fields: Members) -> bool {
    forall|i: int|
        0 <= i < fields.len() ==> (#[trigger] fields[i]).1 is Text || fields[i].1 is Number
}

/// Whether an object can be written and read back unchanged.
pub open spec fn writable(fields: Members) -> bool {
    distinct_names(fields) && all_scalars(fields)
}

/// The JSON text of a list of strings.
pub uninterp spec fn strings_json(list: Seq<Seq<char>>) -> Seq<u8>;

/// The list of strings that JSON text holds, or `None` where the text is not a JSON array
/// of strings.
pub uninterp spec fn strings_from_json(text: Seq<u8>) -> Option<Seq<Seq<char>>>;

/// The JSON text of an object with the given members.
pub uninterp spec fn object_json(fields: Members) -> Seq<u8>;

/// The members of the object that JSON text holds, or `None` where the text is not a
/// JSON object.
pub uninterp spec fn object_from_json(text: Seq<u8>) -> Option<Members>;

/// The JSON text of a list of objects.
pub uninterp spec fn objects_json(list: Seq<Members>) -> Seq<u8>;

/// The objects that JSON text holds, or `None` where the text is not a JSON array of objects.
pub uninterp spec fn objects_from_json(text: Seq<u8>) -> Option<Seq<Members>>;

/// `serde_json::to_string` on a list of strings, which cannot fail; the text is handed on
/// as its bytes, which are UTF-8 as those of any `String`. `serde_json::from_slice` reads
/// the same list back from them.
#[verifier::external_body]
pub(crate) fn write_strings(list: &Vec<String>) -> (text: Vec<u8>)
    ensures
        text@ == strings_json(strings_view(list@)),
        valid_utf8(text@),
        strings_from_json(text@) == Some(strings_view(list@)),
{
    serde_json::to_string(list).unwrap_or_default().into_bytes()
}

/// `serde_json::from_slice` for a list of strings: the list, or `None` where the text is
/// anything but a JSON array of strings.
#[verifier::external_body]
pub(crate) fn read_strings(text: &[u8]) -> (list: Option<Vec<String>>)
    ensures
        match list {
            Some(l) => strings_from_json(text@) == Some(strings_view(l@)),
            None => strings_from_json(text@) is None,
        },
{
    serde_json::from_slice::<Vec<String>>(text).ok()
}

/// `serde_json::to_string` on a `serde_json::Map` that is filled with the members in their
/// order, which cannot fail; the text is handed on as its bytes, which are UTF-8 as those
/// of any `String`. The map keeps the order in which it was filled. Where the names differ
/// and every member is `Text` or `Number`, `serde_json::from_slice` reads the same members
/// back in the same order.
#[verifier::external_body]
pub(crate) fn write_object(fields: &Vec<(String, JsonScalar)>) -> (text: Vec<u8>)
    requires
        writable(members_view(fields@)),
    ensures
        text@ == object_json(members_view(fields@)),
        valid_utf8(text@),
        object_from_json(text@) == Some(members_view(fields@)),
{
    let members = fields.iter().map(|(k, v)| (k.clone(), match v {
        JsonScalar::Text(s) => Value::from(s.clone()),
        JsonScalar::Number(n) => Value::from(*n),
        JsonScalar::Large(n) => Value::from(*n),
        JsonScalar::Other => Value::Null,
    }));
    let map: serde_json::Map<String, Value> = members.collect();
    serde_json::to_string(&map).unwrap_or_default().into_bytes()
}

/// `serde_json::from_slice` for a `serde_json::Map`: the members of a JSON object in their
/// order, or `None` where the text is anything but one JSON object. A string member comes
/// back as `Text`, an integer that `Number::as_i64` accepts as `Number`, another that
/// `Number::as_u64` accepts as `Large`, anything else as `Other`. A map holds no name twice.
#[verifier::external_body]
pub(crate) fn read_object(text: &[u8]) -> (fields: Option<Vec<(String, JsonScalar)>>)
    ensures
        match fields {
            Some(f) => object_from_json(text@) == Some(members_view(f@)) && distinct_names(
                members_view(f@),
            ),
            None => object_from_json(text@) is None,
        },
{
    let map = serde_json::from_slice::<serde_json::Map<String, Value>>(text).ok()?;
    Some(map.into_iter().map(|(k, v)| (k, match v {
        Value::String(s) => JsonScalar::Text(s),
        Value::Number(n) => n.as_i64().map(JsonScalar::Number).or(
            n.as_u64().map(JsonScalar::Large),
        ).unwrap_or(JsonScalar::Other),
        _ => JsonScalar::Other,
    })).collect())
}

/// Whether every object of a list can be written and read back unchanged.
pub open spec fn all_writable(list: Seq<Members>) -> bool {
    forall|i: int| 0 <= i < list.len() ==> writable(#[trigger] list[i])
}

/// `serde_json::to_string` on a list of `serde_json::Map`s, each filled with the members of
/// one object in their order, which cannot fail; the text is handed on as its bytes, which
/// are UTF-8 as those of any `String`. Where in each object the names differ and every
/// member is `Text` or `Number`, `serde_json::from_slice` reads the same objects back.
#[verifier::external_body]
pub(crate) fn write_objects(list: &Vec<Vec<(String, JsonScalar)>>) -> (text: Vec<u8>)
    requires
        all_writable(objects_view(list@)),
    ensures
        text@ == objects_json(objects_view(list@)),
        valid_utf8(text@),
        objects_from_json(text@) == Some(objects_view(list@)),
{
    let maps = list.iter().map(|o| o.iter().map(|(k, v)| (k.clone(), match v {
        JsonScalar::Text(s) => Value::from(s.clone()),
        JsonScalar::Number(n) => Value::from(*n),
        JsonScalar::Large(n) => Value::from(*n),
        JsonScalar::Other => Value::Null,
    })).collect());
    let maps: Vec<serde_json::Map<String, Value>> = maps.collect();
    serde_json::to_string(&maps).unwrap_or_default().into_bytes()
}

/// `serde_json::from_slice` for a list of `serde_json::Map`s: the objects of a JSON array
/// in their order, or `None` where the text is anything but a JSON array of objects. The
/// members of each object come back as `read_object` gives them.
#[verifier::external_body]
pub(crate) fn read_objects(text: &[u8]) -> (list: Option<Vec<Vec<(String, JsonScalar)>>>)
    ensures
        match list {
            Some(l) => objects_from_json(text@) == Some(objects_view(l@)) && forall|i: int|
                0 <= i < l@.len() ==> distinct_names(#[trigger] objects_view(l@)[i]),
            None => objects_from_json(text@) is None,
        },
{
    let maps = serde_json::from_slice::<Vec<serde_json::Map<String, Value>>>(text).ok()?;
    Some(maps.into_iter().map(|m| m.into_iter().map(|(k, v)| (k, match v {
        Value::String(s) => JsonScalar::Text(s),
        Value::Number(n) => n.as_i64().map(JsonScalar::Number).or(
            n.as_u64().map(JsonScalar::Large),
        ).unwrap_or(JsonScalar::Other),
        _ => JsonScalar::Other,
    })).collect()).collect())
}

} // verus!
