//! JSON documents as plain data: the value a document stands for, the lookups
//! that the client makes in it, and the text form that `serde_json` reads and
//! writes.

use crate::seqs::views;
use crate::text::same_text;
use vstd::prelude::*;

verus! {

/// The mathematical value of a JSON document.
pub enum Json {
    Null,
    Bool(bool),
    /// A number, by its JSON numeral.
    Number(Seq<char>),
    Text(Seq<char>),
    List(Seq<Json>),
    /// An object, by its entries in order. Of two entries with one key the
    /// later one counts.
    Record(Seq<Entry>),
}

/// One `key: value` entry of a JSON object, by its value.
pub struct Entry {
    pub key: Seq<char>,
    pub value: Json,
}

/// The value that `entries` give to `key`: that of the last entry with this key.
pub open spec fn lookup(entries: Seq<Entry>, key: Seq<char>) -> Option<Json>
    decreases entries.len(),
{
    if entries.len() == 0 {
        None
    } else if entries.last().key == key {
        Some(entries.last().value)
    } else {
        lookup(entries.drop_last(), key)
    }
}

impl Json {
    /// The member `key` of an object; `None` for a missing key and for
    /// anything that is not an object.
    pub open spec fn member(self, key: Seq<char>) -> Option<Json> {
        match self {
            Json::Record(entries) => lookup(entries, key),
            _ => None,
        }
    }

    /// The elements of an array; `None` for anything else.
    pub open spec fn items(self) -> Option<Seq<Json>> {
        match self {
            Json::List(items) => Some(items),
            _ => None,
        }
    }

    /// The characters of a string; `None` for anything else.
    pub open spec fn text(self) -> Option<Seq<char>> {
        match self {
            Json::Text(s) => Some(s),
            _ => None,
        }
    }

    /// The string under `key`, where the object holds one there that is not
    /// empty. A missing key, an empty string and anything that is no string
    /// all give `None`.
    pub open spec fn filled(self, key: Seq<char>) -> Option<Seq<char>> {
        match self.member(key) {
            Some(Json::Text(s)) => if s.len() > 0 {
                Some(s)
            } else {
                None
            },
            _ => None,
        }
    }

    /// The first non-empty string that the object holds under one of `keys`,
    /// taken in their order.
    pub open spec fn first_text(self, keys: Seq<Seq<char>>) -> Option<Seq<char>>
        decreases keys.len(),
    {
        if keys.len() == 0 {
            None
        } else {
            match self.filled(keys.first()) {
                Some(found) => Some(found),
                None => self.first_text(keys.drop_first()),
            }
        }
    }

    /// The first non-empty string under one of `keys`, and `default` where
    /// there is none.
    pub open spec fn text_or(self, keys: Seq<Seq<char>>, default: Seq<char>) -> Seq<char> {
        match self.first_text(keys) {
            Some(s) => s,
            None => default,
        }
    }

    /// The array under the first of `keys` that holds one.
    pub open spec fn first_list(self, keys: Seq<Seq<char>>) -> Option<Seq<Json>>
        decreases keys.len(),
    {
        if keys.len() == 0 {
            None
        } else {
            match self.member(keys.first()) {
                Some(Json::List(items)) => Some(items),
                _ => self.first_list(keys.drop_first()),
            }
        }
    }

    /// The list that a response carries: the document itself where it is an
    /// array, else the array under the first of `keys` that holds one. A
    /// document of any other shape carries none.
    pub open spec fn listing(self, keys: Seq<Seq<char>>) -> Option<Seq<Json>> {
        match self {
            Json::List(items) => Some(items),
            _ => self.first_list(keys),
        }
    }
}

/// One `key: value` entry of a JSON object.
#[derive(Debug, PartialEq)]
pub struct Member {
    pub key: String,
    pub value: Document,
}

/// A JSON document held as plain data.
#[derive(Debug, PartialEq)]
pub enum Document {
    Null,
    Bool(bool),
    /// A number, held as its JSON numeral.
    Number(String),
    Text(String),
    List(Vec<Document>),
    Record(Vec<Member>),
}

impl View for Document {
    type V = Json;

    open spec fn view(&self) -> Json
        decreases self,
    {
        match self {
            Document::Null => Json::Null,
            Document::Bool(b) => Json::Bool(*b),
            Document::Number(n) => Json::Number(n@),
            Document::Text(s) => Json::Text(s@),
            Document::List(items) => Json::List(
                Seq::new(
                    items@.len(),
                    |i: int|
                        if 0 <= i < items@.len() {
                            items@[i].view()
                        } else {
                            Json::Null
                        },
                ),
            ),
            Document::Record(members) => Json::Record(
                Seq::new(
                    members@.len(),
                    |i: int|
                        if 0 <= i < members@.len() {
                            Entry { key: members@[i].key@, value: members@[i].value.view() }
                        } else {
                            Entry { key: Seq::empty(), value: Json::Null }
                        },
                ),
            ),
        }
    }
}

/// The entries that a sequence of members stands for.
pub open spec fn entries(members: Seq<Member>) -> Seq<Entry> {
    Seq::new(members.len(), |i: int| Entry { key: members[i].key@, value: members[i].value@ })
}

/// An array document stands for the values of its elements.
pub proof fn lemma_list_view(items: Vec<Document>)
    ensures
        Document::List(items)@ == Json::List(views(items@)),
{
    assert(Document::List(items)@->List_0 =~= views(items@));
}

/// An object document stands for the entries of its members.
pub proof fn lemma_record_view(members: Vec<Member>)
    ensures
        Document::Record(members)@ == Json::Record(entries(members@)),
{
    assert(Document::Record(members)@->Record_0 =~= entries(members@));
}

/// The first non-empty match wins: keys that hold no non-empty string do not
/// stop the search, and the first key that holds one gives the result.
pub proof fn lemma_first_text(json: Json, keys: Seq<Seq<char>>, k: int)
    requires
        0 <= k < keys.len(),
        forall|j: int| 0 <= j < k ==> json.filled(#[trigger] keys[j]) is None,
        json.filled(keys[k]) is Some,
    ensures
        json.first_text(keys) == json.filled(keys[k]),
    decreases k,
{
    if k > 0 {
        let rest = keys.drop_first();
        assert(rest[k - 1] == keys[k]);
        assert forall|j: int| 0 <= j < k - 1 implies json.filled(#[trigger] rest[j]) is None by {
            assert(rest[j] == keys[j + 1]);
        }
        lemma_first_text(json, rest, k - 1);
    }
}

/// Where no key holds a non-empty string there is no match.
pub proof fn lemma_first_text_none(json: Json, keys: Seq<Seq<char>>)
    requires
        forall|j: int| 0 <= j < keys.len() ==> json.filled(#[trigger] keys[j]) is None,
    ensures
        json.first_text(keys) is None,
    decreases keys.len(),
{
    if keys.len() > 0 {
        let rest = keys.drop_first();
        assert forall|j: int| 0 <= j < rest.len() implies json.filled(#[trigger] rest[j]) is None by {
            assert(rest[j] == keys[j + 1]);
        }
        lemma_first_text_none(json, rest);
    }
}

/// Anything but an object has no members.
pub proof fn lemma_no_members(json: Json, keys: Seq<Seq<char>>)
    requires
        !(json is Record),
    ensures
        json.first_text(keys) is None,
        json.first_list(keys) is None,
    decreases keys.len(),
{
    if keys.len() > 0 {
        lemma_no_members(json, keys.drop_first());
    }
}

/// The index of the last member with the key `key`.
fn position(members: &Vec<Member>, key: &str) -> (r: Option<usize>)
    ensures
        match r {
            Some(j) => j < members@.len() && lookup(entries(members@), key@) == Some(
                members@[j as int].value@,
            ),
            None => lookup(entries(members@), key@) is None,
        },
{
    let mut i = members.len();
    assert(entries(members@).take(i as int) =~= entries(members@));
    while i > 0
        invariant
            i <= members@.len(),
            lookup(entries(members@), key@) == lookup(entries(members@).take(i as int), key@),
        decreases i,
    {
        i = i - 1;
        let ghost front = entries(members@).take(i + 1);
        assert(front.last() == Entry {
            key: members@[i as int].key@,
            value: members@[i as int].value@,
        });
        assert(front.drop_last() =~= entries(members@).take(i as int));
        if same_text(members[i].key.as_str(), key) {
            return Some(i);
        }
    }
    None
}

impl Document {
    /// The member `key` of an object.
    pub fn get(&self, key: &str) -> (r: Option<&Document>)
        ensures
            match r {
                Some(found) => self@.member(key@) == Some(found@),
                None => self@.member(key@) is None,
            },
    {
        match self {
            Document::Record(members) => {
                proof {
                    lemma_record_view(*members);
                }
                match position(members, key) {
                    Some(j) => Some(&members[j].value),
                    None => None,
                }
            },
            _ => None,
        }
    }

    /// The elements of an array.
    pub fn as_array(&self) -> (r: Option<&Vec<Document>>)
        ensures
            match r {
                Some(items) => self@.items() == Some(views(items@)),
                None => self@.items() is None,
            },
    {
        match self {
            Document::List(items) => {
                proof {
                    lemma_list_view(*items);
                }
                Some(items)
            },
            _ => None,
        }
    }

    /// The characters of a string.
    pub fn as_str(&self) -> (r: Option<&str>)
        ensures
            match r {
                Some(s) => self@.text() == Some(s@),
                None => self@.text() is None,
            },
    {
        match self {
            Document::Text(s) => Some(s.as_str()),
            _ => None,
        }
    }

    /// The string under `key`, where the object holds one there that is not
    /// empty.
    pub fn filled(&self, key: &str) -> (r: Option<&str>)
        ensures
            match r {
                Some(s) => self@.filled(key@) == Some(s@),
                None => self@.filled(key@) is None,
            },
    {
        match self.get(key) {
            Some(found) => match found.as_str() {
                Some(s) => if s.is_empty() {
                    None
                } else {
                    Some(s)
                },
                None => None,
            },
            None => None,
        }
    }

    /// The first non-empty string that the object holds under one of `keys`,
    /// taken in their order.
    pub fn first_text(&self, keys: &Vec<&str>) -> (r: Option<&str>)
        ensures
            match r {
                Some(s) => self@.first_text(views(keys@)) == Some(s@),
                None => self@.first_text(views(keys@)) is None,
            },
    {
        let mut k: usize = 0;
        assert(views(keys@).skip(0) =~= views(keys@));
        while k < keys.len()
            invariant
                k <= keys@.len(),
                self@.first_text(views(keys@)) == self@.first_text(views(keys@).skip(k as int)),
            decreases keys@.len() - k,
        {
            let ghost rest = views(keys@).skip(k as int);
            assert(rest.first() == keys@[k as int]@);
            assert(rest.drop_first() =~= views(keys@).skip(k + 1));
            match self.filled(keys[k]) {
                Some(found) => {
                    return Some(found);
                },
                None => {},
            }
            k = k + 1;
        }
        None
    }

    /// The first non-empty string under one of `keys`, and `default` where
    /// there is none.
    pub fn text_or(&self, keys: &Vec<&str>, default: &str) -> (r: String)
        ensures
            r@ == self@.text_or(views(keys@), default@),
    {
        match self.first_text(keys) {
            Some(s) => s.to_owned(),
            None => default.to_owned(),
        }
    }

    /// Takes out the list that a response carries: the document itself where
    /// it is an array, else the array under the first of `keys` that holds
    /// one. A document of any other shape gives `None`.
    pub fn into_listing(self, keys: &Vec<&str>) -> (r: Option<Vec<Document>>)
        ensures
            match r {
                Some(items) => self@.listing(views(keys@)) == Some(views(items@)),
                None => self@.listing(views(keys@)) is None,
            },
    {
        let ghost json = self@;
        match self {
            Document::List(items) => {
                proof {
                    lemma_list_view(items);
                }
                Some(items)
            },
            Document::Record(members) => {
                proof {
                    lemma_record_view(members);
                }
                let mut members = members;
                let mut k: usize = 0;
                assert(views(keys@).skip(0) =~= views(keys@));
                while k < keys.len()
                    invariant
                        k <= keys@.len(),
                        json == self@,
                        json == Json::Record(entries(members@)),
                        json.first_list(views(keys@)) == json.first_list(
                            views(keys@).skip(k as int),
                        ),
                    decreases keys@.len() - k,
                {
                    let ghost rest = views(keys@).skip(k as int);
                    assert(rest.first() == keys@[k as int]@);
                    assert(rest.drop_first() =~= views(keys@).skip(k + 1));
                    match position(&members, keys[k]) {
                        Some(j) => {
                            let holds_list = match &members[j].value {
                                Document::List(_) => true,
                                _ => false,
                            };
                            if holds_list {
                                let taken = members.swap_remove(j);
                                match taken.value {
                                    Document::List(items) => {
                                        proof {
                                            lemma_list_view(items);
                                        }
                                        return Some(items);
                                    },
                                    _ => {
                                        return None;
                                    },
                                }
                            }
                        },
                        None => {},
                    }
                    k = k + 1;
                }
                None
            },
            _ => {
                proof {
                    lemma_no_members(json, views(keys@));
                }
                None
            },
        }
    }

    /// A copy of this document.
    pub fn duplicate(&self) -> (r: Document)
        ensures
            r@ == self@,
        decreases self,
    {
        match self {
            Document::Null => Document::Null,
            Document::Bool(b) => Document::Bool(*b),
            Document::Number(n) => Document::Number(n.clone()),
            Document::Text(s) => Document::Text(s.clone()),
            Document::List(items) => {
                let mut copies: Vec<Document> = Vec::new();
                let mut i: usize = 0;
                while i < items.len()
                    invariant
                        i <= items@.len(),
                        copies@.len() == i,
                        *self == Document::List(*items),
                        forall|j: int| 0 <= j < i ==> (#[trigger] copies@[j])@ == items@[j]@,
                    decreases items@.len() - i,
                {
                    let item = &items[i];
                    proof {
                        vstd::std_specs::vec::axiom_vec_index_decreases(*items, i as int);
                        assert(decreases_to!(*self => self->List_0));
                    }
                    let copy = item.duplicate();
                    copies.push(copy);
                    i = i + 1;
                }
                proof {
                    lemma_list_view(*items);
                    lemma_list_view(copies);
                    assert(views(copies@) =~= views(items@));
                }
                Document::List(copies)
            },
            Document::Record(members) => {
                let mut copies: Vec<Member> = Vec::new();
                let mut i: usize = 0;
                while i < members.len()
                    invariant
                        i <= members@.len(),
                        copies@.len() == i,
                        *self == Document::Record(*members),
                        forall|j: int|
                            0 <= j < i ==> (#[trigger] copies@[j]).key@ == members@[j].key@
                                && copies@[j].value@ == members@[j].value@,
                    decreases members@.len() - i,
                {
                    let member = &members[i];
                    proof {
                        vstd::std_specs::vec::axiom_vec_index_decreases(*members, i as int);
                        assert(decreases_to!(*self => self->Record_0));
                        assert(decreases_to!(*member => member.value));
                    }
                    let copy = Member { key: member.key.clone(), value: member.value.duplicate() };
                    copies.push(copy);
                    i = i + 1;
                }
                proof {
                    lemma_record_view(*members);
                    lemma_record_view(copies);
                    assert(entries(copies@) =~= entries(members@));
                }
                Document::Record(copies)
            },
        }
    }
}

/// What `serde_json::from_str` makes of `text`: the value of the document that
/// it reads, or the message of the error that it reports.
pub uninterp spec fn decoded(text: Seq<char>) -> Result<Json, Seq<char>>;

/// The compact JSON text that `serde_json::to_string` writes for a document
/// of the value `json`.
pub uninterp spec fn encoded(json: Json) -> Seq<char>;

/// Trusted: the type `serde_json::Value`, of which nothing is stated.
#[verifier::external_type_specification]
#[verifier::external_body]
pub struct ExValue(serde_json::Value);

/// Trusted: turns a `serde_json::Value` into a `Document`, variant by variant,
/// a number into the numeral that `serde_json` prints for it. Nothing is
/// claimed of the result here; `decode` relies on it.
#[verifier::external_body]
fn from_value(value: serde_json::Value) -> Document {
    match value {
        serde_json::Value::Null => Document::Null,
        serde_json::Value::Bool(b) => Document::Bool(b),
        serde_json::Value::Number(n) => Document::Number(n.to_string()),
        serde_json::Value::String(s) => Document::Text(s),
        serde_json::Value::Array(a) => Document::List(a.into_iter().map(from_value).collect()),
        serde_json::Value::Object(o) => Document::Record(
            o.into_iter().map(|(key, value)| Member { key, value: from_value(value) }).collect(),
        ),
    }
}

/// Trusted: turns a `Document` into a `serde_json::Value`, variant by variant.
/// A numeral that `serde_json` does not read as a number becomes `null`.
/// Nothing is claimed of the result here; `encode` relies on it.
#[verifier::external_body]
fn to_value(doc: &Document) -> serde_json::Value {
    match doc {
        Document::Null => serde_json::Value::Null,
        Document::Bool(b) => serde_json::Value::Bool(*b),
        Document::Number(n) => serde_json::from_str::<serde_json::Number>(n).map_or(
            serde_json::Value::Null,
            serde_json::Value::Number,
        ),
        Document::Text(s) => serde_json::Value::String(s.clone()),
        Document::List(items) => serde_json::Value::Array(items.iter().map(to_value).collect()),
        Document::Record(members) => serde_json::Value::Object(
            members.iter().map(|m| (m.key.clone(), to_value(&m.value))).collect(),
        ),
    }
}

/// Trusted: `serde_json::from_str` at the type `serde_json::Value`. The
/// outcome is a function of the text alone, and the contract says no more
/// than that: a document of the value `decoded` names, or the message of the
/// error.
#[verifier::external_body]
pub(crate) fn decode(text: &str) -> (r: Result<Document, String>)
    ensures
        match r {
            Ok(doc) => decoded(text@) == Ok::<Json, Seq<char>>(doc@),
            Err(message) => decoded(text@) == Err::<Json, Seq<char>>(message@),
        },
{
    match serde_json::from_str::<serde_json::Value>(text) {
        Ok(value) => Ok(from_value(value)),
        Err(error) => Err(error.to_string()),
    }
}

/// Trusted: `serde_json::to_string` on a `serde_json::Value`, which cannot
/// fail there. The text is a function of the document's value alone, and the
/// contract says no more than that.
#[verifier::external_body]
pub(crate) fn encode(doc: &Document) -> (r: String)
    ensures
        r@ == encoded(doc@),
{
    serde_json::to_string(&to_value(doc)).unwrap_or_default()
}

} // verus!
