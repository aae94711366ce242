//! The vault's records and the export envelope, and how each is laid out as JSON members.

use crate::json::{
    members_view, object_from_json, object_json, read_object, writable, write_object, JsonScalar,
    Members, ScalarView,
};
use crate::memdata::MemData;
use crate::text::str_equal;
use vstd::prelude::*;
use vstd::string::*;
use vstd::utf8::*;

verus! {

/// The status of a record whose secret is ciphertext.
pub const STATUS_SEALED: usize = 0;

/// The status of a record whose secret is shown in plain text.
pub const STATUS_REVEALED: usize = 1;

/// The version that export envelopes carry.
pub const EXPORT_VERSION: i32 = 1;

/// What the user types for a new record.
#[derive(Debug)]
pub struct InputItem {
    pub account_value: String,
    pub secret_value: String,
    pub desc_value: String,
}

impl InputItem {
    /// Whether all three inputs are empty.
    pub open spec fn is_clear(&self) -> bool {
        &&& self.account_value@ == Seq::<char>::empty()
        &&& self.secret_value@ == Seq::<char>::empty()
        &&& self.desc_value@ == Seq::<char>::empty()
    }

    /// Empties all three inputs.
    pub fn clear(&mut self)
        ensures
            final(self).is_clear(),
    {
        self.account_value = String::new();
        self.secret_value = String::new();
        self.desc_value = String::new();
    }
}

impl Default for InputItem {
    fn default() -> (res: Self)
        ensures
            res.is_clear(),
    {
        InputItem {
            account_value: String::new(),
            secret_value: String::new(),
            desc_value: String::new(),
        }
    }
}

impl Clone for InputItem {
    fn clone(&self) -> (res: Self)
        ensures
            res.account_value@ == self.account_value@,
            res.secret_value@ == self.secret_value@,
            res.desc_value@ == self.desc_value@,
    {
        InputItem {
            account_value: self.account_value.clone(),
            secret_value: self.secret_value.clone(),
            desc_value: self.desc_value.clone(),
        }
    }
}

/// What a screen works on: the records, what is typed in, and the master password in
/// self-encrypted form.
#[derive(Debug)]
pub struct State {
    pub items: Vec<Item>,
    pub input_item: InputItem,
    pub input_secret: String,
    pub secret: MemData,
    pub guild_tips_msg: String,
}

impl Clone for State {
    fn clone(&self) -> (res: Self)
        ensures
            items_view(res.items@) == items_view(self.items@),
            res.input_item.account_value@ == self.input_item.account_value@,
            res.input_item.secret_value@ == self.input_item.secret_value@,
            res.input_item.desc_value@ == self.input_item.desc_value@,
            res.input_secret@ == self.input_secret@,
            res.secret.length() == self.secret.length(),
            res.secret.keys() == self.secret.keys(),
            res.secret.chunks() == self.secret.chunks(),
            res.guild_tips_msg@ == self.guild_tips_msg@,
    {
        let mut items: Vec<Item> = Vec::new();
        let mut i: usize = 0;
        while i < self.items.len()
            invariant
                i <= self.items@.len(),
                items_view(items@) == items_view(self.items@).subrange(0, i as int),
            decreases self.items@.len() - i,
        {
            let item = self.items[i].clone();
            let ghost before = items@;
            items.push(item);
            assert(items_view(items@) =~= items_view(before).push(item@));
            assert(items_view(items@) =~= items_view(self.items@).subrange(0, i + 1));
            i = i + 1;
        }
        assert(items_view(items@) =~= items_view(self.items@));
        State {
            items,
            input_item: self.input_item.clone(),
            input_secret: self.input_secret.clone(),
            secret: self.secret.clone(),
            guild_tips_msg: self.guild_tips_msg.clone(),
        }
    }
}

/// One record of the vault. `secret` is the hex text of the ciphertext while `status` is
/// `STATUS_SEALED`, and `nonce` is the hex text of the nonce it was sealed with.
#[derive(Debug)]
pub struct Item {
    pub id: String,
    pub account: String,
    pub secret: String,
    pub desc: String,
    pub status: usize,
    pub nonce: String,
}

/// What a record holds.
pub struct ItemView {
    pub id: Seq<char>,
    pub account: Seq<char>,
    pub secret: Seq<char>,
    pub desc: Seq<char>,
    pub status: nat,
    pub nonce: Seq<char>,
}

impl ItemView {
    /// The record as it is persisted: the same fields with the status `STATUS_SEALED`.
    pub open spec fn persisted(self) -> ItemView {
        ItemView { status: STATUS_SEALED as nat, ..self }
    }
}

impl View for Item {
    type V = ItemView;

    open spec fn view(&self) -> ItemView {
        ItemView {
            id: self.id@,
            account: self.account@,
            secret: self.secret@,
            desc: self.desc@,
            status: self.status as nat,
            nonce: self.nonce@,
        }
    }
}

impl Default for Item {
    fn default() -> (res: Self)
        ensures
            res@ == (ItemView {
                id: Seq::empty(),
                account: Seq::empty(),
                secret: Seq::empty(),
                desc: Seq::empty(),
                status: 0,
                nonce: Seq::empty(),
            }),
    {
        Item {
            id: String::new(),
            account: String::new(),
            secret: String::new(),
            desc: String::new(),
            status: 0,
            nonce: String::new(),
        }
    }
}

impl Clone for Item {
    fn clone(&self) -> (res: Self)
        ensures
            res@ == self@,
    {
        Item {
            id: self.id.clone(),
            account: self.account.clone(),
            secret: self.secret.clone(),
            desc: self.desc.clone(),
            status: self.status,
            nonce: self.nonce.clone(),
        }
    }
}

/// The envelope in which all records travel between vaults. `content` is the hex text of
/// the JSON array of the records.
#[derive(Debug)]
pub struct Export {
    pub version: i32,
    pub desc: String,
    pub time: String,
    pub content: String,
}

/// What an envelope holds.
pub struct ExportView {
    pub version: int,
    pub desc: Seq<char>,
    pub time: Seq<char>,
    pub content: Seq<char>,
}

impl View for Export {
    type V = ExportView;

    open spec fn view(&self) -> ExportView {
        ExportView {
            version: self.version as int,
            desc: self.desc@,
            time: self.time@,
            content: self.content@,
        }
    }
}

impl Default for Export {
    fn default() -> (res: Self)
        ensures
            res@ == (ExportView {
                version: 0,
                desc: Seq::empty(),
                time: Seq::empty(),
                content: Seq::empty(),
            }),
    {
        Export { version: 0, desc: String::new(), time: String::new(), content: String::new() }
    }
}

impl Clone for Export {
    fn clone(&self) -> (res: Self)
        ensures
            res@ == self@,
    {
        Export {
            version: self.version,
            desc: self.desc.clone(),
            time: self.time.clone(),
            content: self.content.clone(),
        }
    }
}

/// The value of the first member called `name`, or `None` where there is none.
pub open spec fn member(fields: Members, name: Seq<char>) -> Option<ScalarView>
    decreases fields.len(),
{
    if fields.len() == 0 {
        None
    } else if fields[0].0 == name {
        Some(fields[0].1)
    } else {
        member(fields.drop_first(), name)
    }
}

/// The text of the member called `name`, or `None` where there is none or it is no string.
pub open spec fn text_member(fields: Members, name: Seq<char>) -> Option<Seq<char>> {
    match member(fields, name) {
        Some(ScalarView::Text(s)) => Some(s),
        _ => None,
    }
}

/// Whether the member called `name` is there and is an integer that is not negative, of
/// either kind.
pub open spec fn natural_member(fields: Members, name: Seq<char>) -> bool {
    match member(fields, name) {
        Some(ScalarView::Number(n)) => n >= 0,
        Some(ScalarView::Large(_)) => true,
        _ => false,
    }
}

/// The integer of the member called `name`, or `None` where there is none or it is no
/// integer of the `Number` kind.
pub open spec fn number_member(fields: Members, name: Seq<char>) -> Option<int> {
    match member(fields, name) {
        Some(ScalarView::Number(n)) => Some(n),
        _ => None,
    }
}

/// Finds the first member called `name`.
pub fn find_member<'a>(fields: &'a Vec<(String, JsonScalar)>, name: &str) -> (res: Option<
    &'a JsonScalar,
>)
    ensures
        match res {
            Some(v) => member(members_view(fields@), name@) == Some(v@),
            None => member(members_view(fields@), name@) is None,
        },
{
    let ghost all = members_view(fields@);
    assert(all.skip(0) =~= all);
    let mut i: usize = 0;
    while i < fields.len()
        invariant
            i <= fields@.len(),
            all == members_view(fields@),
            member(all, name@) == member(all.skip(i as int), name@),
        decreases fields@.len() - i,
    {
        assert(all.skip(i as int).drop_first() =~= all.skip(i + 1));
        if str_equal(fields[i].0.as_str(), name) {
            return Some(&fields[i].1);
        }
        i = i + 1;
    }
    None
}

/// Finds the text of the member called `name`.
pub fn find_text(fields: &Vec<(String, JsonScalar)>, name: &str) -> (res: Option<String>)
    ensures
        match res {
            Some(s) => text_member(members_view(fields@), name@) == Some(s@),
            None => text_member(members_view(fields@), name@) is None,
        },
{
    match find_member(fields, name) {
        Some(JsonScalar::Text(s)) => Some(s.clone()),
        _ => None,
    }
}

/// Whether the member called `name` is there and is an integer that is not negative.
pub fn find_natural(fields: &Vec<(String, JsonScalar)>, name: &str) -> (res: bool)
    ensures
        res == natural_member(members_view(fields@), name@),
{
    match find_member(fields, name) {
        Some(JsonScalar::Number(n)) => *n >= 0,
        Some(JsonScalar::Large(_)) => true,
        _ => false,
    }
}

/// Finds the integer of the member called `name`.
pub fn find_number(fields: &Vec<(String, JsonScalar)>, name: &str) -> (res: Option<i64>)
    ensures
        match res {
            Some(n) => number_member(members_view(fields@), name@) == Some(n as int),
            None => number_member(members_view(fields@), name@) is None,
        },
{
    match find_member(fields, name) {
        Some(JsonScalar::Number(n)) => Some(*n),
        _ => None,
    }
}

/// The members of a record's JSON object, in the order in which they are written. The
/// status is always written as `STATUS_SEALED`.
pub open spec fn item_members(item: ItemView) -> Members {
    seq![
        ("id"@, ScalarView::Text(item.id)),
        ("account"@, ScalarView::Text(item.account)),
        ("secret"@, ScalarView::Text(item.secret)),
        ("desc"@, ScalarView::Text(item.desc)),
        ("status"@, ScalarView::Number(STATUS_SEALED as int)),
        ("nonce"@, ScalarView::Text(item.nonce)),
    ]
}

/// The record that the members of a JSON object stand for: the five texts must be there as
/// strings and the status as an integer of at most 64 bits that is not negative; other
/// members are passed over. Whatever the status was, the record comes back sealed.
pub open spec fn item_from_members(fields: Members) -> Option<ItemView> {
    if text_member(fields, "id"@) is Some && text_member(fields, "account"@) is Some
        && text_member(fields, "secret"@) is Some && text_member(fields, "desc"@) is Some
        && natural_member(fields, "status"@) && text_member(fields, "nonce"@) is Some {
        Some(
            ItemView {
                id: text_member(fields, "id"@)->0,
                account: text_member(fields, "account"@)->0,
                secret: text_member(fields, "secret"@)->0,
                desc: text_member(fields, "desc"@)->0,
                status: STATUS_SEALED as nat,
                nonce: text_member(fields, "nonce"@)->0,
            },
        )
    } else {
        None
    }
}

/// The JSON text of a record as it is persisted.
pub open spec fn item_json(item: ItemView) -> Seq<u8> {
    object_json(item_members(item))
}

/// The record that JSON text holds, or `None` where the text is no record.
pub open spec fn item_from_json(text: Seq<u8>) -> Option<ItemView> {
    match object_from_json(text) {
        Some(fields) => item_from_members(fields),
        None => None,
    }
}

/// What a list of records holds.
pub open spec fn items_view(items: Seq<Item>) -> Seq<ItemView> {
    items.map_values(|item: Item| item@)
}

/// The records of a list as they are persisted: each one sealed.
pub open spec fn persisted_all(items: Seq<ItemView>) -> Seq<ItemView> {
    items.map_values(|item: ItemView| item.persisted())
}

/// What an optional list of records holds.
pub open spec fn option_items(o: Option<Vec<Item>>) -> Option<Seq<ItemView>> {
    match o {
        Some(items) => Some(items_view(items@)),
        None => None,
    }
}

/// What an optional record holds.
pub open spec fn option_item(o: Option<Item>) -> Option<ItemView> {
    match o {
        Some(item) => Some(item@),
        None => None,
    }
}

/// The six names of a record's members differ from each other.
pub proof fn lemma_item_names()
    ensures
        "id"@ != "account"@,
        "id"@ != "secret"@,
        "id"@ != "desc"@,
        "id"@ != "status"@,
        "id"@ != "nonce"@,
        "account"@ != "secret"@,
        "account"@ != "desc"@,
        "account"@ != "status"@,
        "account"@ != "nonce"@,
        "secret"@ != "desc"@,
        "secret"@ != "status"@,
        "secret"@ != "nonce"@,
        "desc"@ != "status"@,
        "desc"@ != "nonce"@,
        "status"@ != "nonce"@,
{
    reveal_strlit("id");
    reveal_strlit("account");
    reveal_strlit("secret");
    reveal_strlit("desc");
    reveal_strlit("status");
    reveal_strlit("nonce");
    assert("id"@.len() == 2 && "account"@.len() == 7 && "desc"@.len() == 4);
    assert("secret"@.len() == 6 && "status"@.len() == 6 && "nonce"@.len() == 5);
    assert("secret"@[1] != "status"@[1]);
}

/// A record's members can be written, and reading them gives the record back, sealed.
pub proof fn lemma_item_members_round_trip(item: ItemView)
    ensures
        writable(item_members(item)),
        item_from_members(item_members(item)) == Some(item.persisted()),
{
    lemma_item_names();
    let f = item_members(item);
    reveal_with_fuel(member, 7);
    assert(f.drop_first() =~= f.skip(1));
    assert(f.skip(1).drop_first() =~= f.skip(2));
    assert(f.skip(2).drop_first() =~= f.skip(3));
    assert(f.skip(3).drop_first() =~= f.skip(4));
    assert(f.skip(4).drop_first() =~= f.skip(5));
    assert(member(f, "id"@) == Some(f[0].1));
    assert(member(f, "account"@) == Some(f[1].1));
    assert(member(f, "secret"@) == Some(f[2].1));
    assert(member(f, "desc"@) == Some(f[3].1));
    assert(member(f, "status"@) == Some(f[4].1));
    assert(member(f, "nonce"@) == Some(f[5].1));
}

impl Item {
    /// The members of the record's JSON object.
    pub fn to_members(&self) -> (fields: Vec<(String, JsonScalar)>)
        ensures
            members_view(fields@) == item_members(self@),
            writable(members_view(fields@)),
    {
        let mut fields: Vec<(String, JsonScalar)> = Vec::new();
        fields.push((String::from_str("id"), JsonScalar::Text(self.id.clone())));
        fields.push((String::from_str("account"), JsonScalar::Text(self.account.clone())));
        fields.push((String::from_str("secret"), JsonScalar::Text(self.secret.clone())));
        fields.push((String::from_str("desc"), JsonScalar::Text(self.desc.clone())));
        fields.push((String::from_str("status"), JsonScalar::Number(0)));
        fields.push((String::from_str("nonce"), JsonScalar::Text(self.nonce.clone())));
        proof {
            assert(members_view(fields@) =~= item_members(self@));
            lemma_item_members_round_trip(self@);
        }
        fields
    }

    /// The record that the members of a JSON object stand for.
    pub fn from_members(fields: &Vec<(String, JsonScalar)>) -> (res: Option<Item>)
        ensures
            option_item(res) == item_from_members(members_view(fields@)),
    {
        let id = find_text(fields, "id")?;
        let account = find_text(fields, "account")?;
        let secret = find_text(fields, "secret")?;
        let desc = find_text(fields, "desc")?;
        if !find_natural(fields, "status") {
            return None;
        }
        let nonce = find_text(fields, "nonce")?;
        Some(Item { id, account, secret, desc, status: STATUS_SEALED, nonce })
    }

    /// The JSON text of the record as it is persisted. Reading the text gives the record
    /// back, sealed.
    pub fn to_json(&self) -> (text: Vec<u8>)
        ensures
            text@ == item_json(self@),
            valid_utf8(text@),
            item_from_json(text@) == Some(self@.persisted()),
    {
        let fields = self.to_members();
        proof {
            lemma_item_members_round_trip(self@);
        }
        write_object(&fields)
    }

    /// The record that JSON text holds.
    pub fn from_json(text: &[u8]) -> (res: Option<Item>)
        ensures
            option_item(res) == item_from_json(text@),
    {
        match read_object(text) {
            Some(fields) => Item::from_members(&fields),
            None => None,
        }
    }
}

/// The members of an envelope's JSON object, in the order in which they are written.
pub open spec fn export_members(export: ExportView) -> Members {
    seq![
        ("version"@, ScalarView::Number(export.version)),
        ("desc"@, ScalarView::Text(export.desc)),
        ("time"@, ScalarView::Text(export.time)),
        ("content"@, ScalarView::Text(export.content)),
    ]
}

/// The envelope that the members of a JSON object stand for: the version must be there as
/// an integer of 32 bits and the three texts as strings; other members are passed over.
pub open spec fn export_from_members(fields: Members) -> Option<ExportView> {
    if number_member(fields, "version"@) is Some && i32::MIN <= number_member(
        fields,
        "version"@,
    )->0 <= i32::MAX && text_member(fields, "desc"@) is Some && text_member(fields, "time"@) is Some
        && text_member(fields, "content"@) is Some {
        Some(
            ExportView {
                version: number_member(fields, "version"@)->0,
                desc: text_member(fields, "desc"@)->0,
                time: text_member(fields, "time"@)->0,
                content: text_member(fields, "content"@)->0,
            },
        )
    } else {
        None
    }
}

/// The JSON text of an envelope.
pub open spec fn export_json(export: ExportView) -> Seq<u8> {
    object_json(export_members(export))
}

/// The envelope that JSON text holds, or `None` where the text is no envelope.
pub open spec fn export_from_json(text: Seq<u8>) -> Option<ExportView> {
    match object_from_json(text) {
        Some(fields) => export_from_members(fields),
        None => None,
    }
}

/// What an optional envelope holds.
pub open spec fn option_export(o: Option<Export>) -> Option<ExportView> {
    match o {
        Some(export) => Some(export@),
        None => None,
    }
}

/// An envelope's members can be written, and reading them gives the envelope back.
pub proof fn lemma_export_members_round_trip(export: ExportView)
    requires
        i32::MIN <= export.version <= i32::MAX,
    ensures
        writable(export_members(export)),
        export_from_members(export_members(export)) == Some(export),
{
    reveal_strlit("version");
    reveal_strlit("desc");
    reveal_strlit("time");
    reveal_strlit("content");
    assert("version"@.len() == 7 && "desc"@.len() == 4);
    assert("time"@.len() == 4 && "content"@.len() == 7);
    assert("version"@[0] != "content"@[0]);
    assert("desc"@[0] != "time"@[0]);
    let f = export_members(export);
    reveal_with_fuel(member, 5);
    assert(f.drop_first() =~= f.skip(1));
    assert(f.skip(1).drop_first() =~= f.skip(2));
    assert(f.skip(2).drop_first() =~= f.skip(3));
    assert(member(f, "version"@) == Some(f[0].1));
    assert(member(f, "desc"@) == Some(f[1].1));
    assert(member(f, "time"@) == Some(f[2].1));
    assert(member(f, "content"@) == Some(f[3].1));
}

impl Export {
    /// The members of the envelope's JSON object.
    pub fn to_members(&self) -> (fields: Vec<(String, JsonScalar)>)
        ensures
            members_view(fields@) == export_members(self@),
            writable(members_view(fields@)),
    {
        let mut fields: Vec<(String, JsonScalar)> = Vec::new();
        fields.push((String::from_str("version"), JsonScalar::Number(self.version as i64)));
        fields.push((String::from_str("desc"), JsonScalar::Text(self.desc.clone())));
        fields.push((String::from_str("time"), JsonScalar::Text(self.time.clone())));
        fields.push((String::from_str("content"), JsonScalar::Text(self.content.clone())));
        proof {
            assert(members_view(fields@) =~= export_members(self@));
            lemma_export_members_round_trip(self@);
        }
        fields
    }

    /// The envelope that the members of a JSON object stand for.
    pub fn from_members(fields: &Vec<(String, JsonScalar)>) -> (res: Option<Export>)
        ensures
            option_export(res) == export_from_members(members_view(fields@)),
    {
        let version = find_number(fields, "version")?;
        let desc = find_text(fields, "desc")?;
        let time = find_text(fields, "time")?;
        let content = find_text(fields, "content")?;
        if version < i32::MIN as i64 || version > i32::MAX as i64 {
            return None;
        }
        Some(Export { version: version as i32, desc, time, content })
    }

    /// The JSON text of the envelope. Reading the text gives the envelope back.
    pub fn to_json(&self) -> (text: Vec<u8>)
        ensures
            text@ == export_json(self@),
            valid_utf8(text@),
            export_from_json(text@) == Some(self@),
    {
        let fields = self.to_members();
        proof {
            lemma_export_members_round_trip(self@);
        }
        write_object(&fields)
    }

    /// The envelope that JSON text holds.
    pub fn from_json(text: &[u8]) -> (res: Option<Export>)
        ensures
            option_export(res) == export_from_json(text@),
    {
        match read_object(text) {
            Some(fields) => Export::from_members(&fields),
            None => None,
        }
    }
}

} // verus!
