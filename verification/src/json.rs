//! JSON documents.
use vstd::prelude::*;

use crate::strmap::{texts, StrMap};
use crate::text::str_eq;

verus! {

/// A JSON number. One that is not an integer is kept as it is written.
#[derive(Debug, PartialEq, Eq)]
pub enum Number {
    Unsigned(u64),
    Negative(i64),
    Float(String),
}

/// A JSON document.
#[derive(Debug, PartialEq, Eq)]
pub enum Json {
    Null,
    Bool(bool),
    Number(Number),
    Text(String),
    Array(Vec<Json>),
    Object(Vec<(String, Json)>),
}

/// What a JSON document is. The value of a key of an object is that of its
/// first entry.
pub enum JsonView {
    Null,
    Bool(bool),
    Unsigned(u64),
    Negative(i64),
    Float(Seq<char>),
    Text(Seq<char>),
    Array(Seq<JsonView>),
    Object(Seq<(Seq<char>, JsonView)>),
}

/// The place of the first entry under `key`, or the number of entries.
pub open spec fn key_place(entries: Seq<(Seq<char>, JsonView)>, key: Seq<char>) -> int
    decreases entries.len(),
{
    if entries.len() == 0 || entries[0].0 == key {
        0
    } else {
        1 + key_place(entries.skip(1), key)
    }
}

pub proof fn lemma_key_place_at(entries: Seq<(Seq<char>, JsonView)>, key: Seq<char>, at: int)
    requires
        0 <= at <= entries.len(),
        forall|i: int| 0 <= i < at ==> #[trigger] entries[i].0 != key,
        at < entries.len() ==> entries[at].0 == key,
    ensures
        key_place(entries, key) == at,
    decreases entries.len(),
{
    if at > 0 {
        assert(entries[0].0 != key);
        let rest = entries.skip(1);
        assert forall|i: int| 0 <= i < at - 1 implies #[trigger] rest[i].0 != key by {
            assert(entries[i + 1].0 != key);
        }
        lemma_key_place_at(rest, key, at - 1);
    }
}

impl JsonView {
    /// The value under a key of an object.
    pub open spec fn get(self, key: Seq<char>) -> Option<JsonView> {
        match self {
            JsonView::Object(entries) => if key_place(entries, key) < entries.len() {
                Some(entries[key_place(entries, key)].1)
            } else {
                None
            },
            _ => None,
        }
    }

    /// The characters of a text.
    pub open spec fn as_str(self) -> Option<Seq<char>> {
        match self {
            JsonView::Text(s) => Some(s),
            _ => None,
        }
    }

    pub open spec fn as_bool(self) -> Option<bool> {
        match self {
            JsonView::Bool(b) => Some(b),
            _ => None,
        }
    }

    pub open spec fn as_u64(self) -> Option<u64> {
        match self {
            JsonView::Unsigned(n) => Some(n),
            _ => None,
        }
    }

    pub open spec fn as_array(self) -> Option<Seq<JsonView>> {
        match self {
            JsonView::Array(items) => Some(items),
            _ => None,
        }
    }

    pub open spec fn as_object(self) -> Option<Seq<(Seq<char>, JsonView)>> {
        match self {
            JsonView::Object(entries) => Some(entries),
            _ => None,
        }
    }
}

impl Json {
    pub open spec fn view(&self) -> JsonView
        decreases self,
    {
        match self {
            Json::Null => JsonView::Null,
            Json::Bool(b) => JsonView::Bool(*b),
            Json::Number(Number::Unsigned(n)) => JsonView::Unsigned(*n),
            Json::Number(Number::Negative(n)) => JsonView::Negative(*n),
            Json::Number(Number::Float(s)) => JsonView::Float(s@),
            Json::Text(s) => JsonView::Text(s@),
            Json::Array(items) => JsonView::Array(
                Seq::new(
                    items@.len(),
                    |i: int|
                        if 0 <= i < items@.len() {
                            items@[i].view()
                        } else {
                            JsonView::Null
                        },
                ),
            ),
            Json::Object(entries) => JsonView::Object(
                Seq::new(
                    entries@.len(),
                    |i: int|
                        if 0 <= i < entries@.len() {
                            (entries@[i].0@, entries@[i].1.view())
                        } else {
                            (seq![], JsonView::Null)
                        },
                ),
            ),
        }
    }

    /// The value under a key of an object.
    pub fn get<'a>(&'a self, key: &str) -> (r: Option<&'a Json>)
        ensures
            match r {
                Some(v) => self@.get(key@) == Some(v@),
                None => self@.get(key@) is None,
            },
    {
        match self {
            Json::Object(entries) => {
                let ghost es = self@->Object_0;
                let mut i: usize = 0;
                while i < entries.len()
                    invariant
                        i <= entries@.len(),
                        *self == Json::Object(*entries),
                        es == self@->Object_0,
                        forall|j: int| 0 <= j < i ==> #[trigger] es[j].0 != key@,
                    decreases entries.len() - i,
                {
                    assert(es.len() == entries@.len());
                    assert(es[i as int] == (entries@[i as int].0@, entries@[i as int].1@));
                    if str_eq(entries[i].0.as_str(), key) {
                        proof {
                            lemma_key_place_at(es, key@, i as int);
                        }
                        return Some(&entries[i].1);
                    }
                    i = i + 1;
                }
                proof {
                    lemma_key_place_at(es, key@, i as int);
                }
                None
            },
            _ => None,
        }
    }

    /// The characters of a text.
    pub fn as_str<'a>(&'a self) -> (r: Option<&'a str>)
        ensures
            crate::text::opt_str_view(r) == self@.as_str(),
    {
        match self {
            Json::Text(s) => Some(s.as_str()),
            _ => None,
        }
    }

    pub fn as_bool(&self) -> (r: Option<bool>)
        ensures
            r == self@.as_bool(),
    {
        match self {
            Json::Bool(b) => Some(*b),
            _ => None,
        }
    }

    /// A number that is a non-negative integer.
    pub fn as_u64(&self) -> (r: Option<u64>)
        ensures
            r == self@.as_u64(),
    {
        match self {
            Json::Number(Number::Unsigned(n)) => Some(*n),
            _ => None,
        }
    }

    pub fn is_object(&self) -> (r: bool)
        ensures
            r == (self@ is Object),
    {
        match self {
            Json::Object(_) => true,
            _ => false,
        }
    }

    pub fn is_null(&self) -> (r: bool)
        ensures
            r == (self@ is Null),
    {
        match self {
            Json::Null => true,
            _ => false,
        }
    }

    /// The items of an array.
    pub fn as_array<'a>(&'a self) -> (r: Option<&'a Vec<Json>>)
        ensures
            match r {
                Some(items) => self@ == JsonView::Array(views(items@)),
                None => !(self@ is Array),
            },
    {
        match self {
            Json::Array(items) => {
                assert(self@->Array_0 =~= views(items@));
                Some(items)
            },
            _ => None,
        }
    }

    /// The entries of an object, in order.
    pub fn as_object<'a>(&'a self) -> (r: Option<&'a Vec<(String, Json)>>)
        ensures
            match r {
                Some(entries) => self@ == JsonView::Object(entry_views(entries@)),
                None => !(self@ is Object),
            },
    {
        match self {
            Json::Object(entries) => {
                assert(self@->Object_0 =~= entry_views(entries@));
                Some(entries)
            },
            _ => None,
        }
    }

    /// A text.
    pub fn text(s: &str) -> (r: Json)
        ensures
            r@ == JsonView::Text(s@),
    {
        Json::Text(s.to_owned())
    }

    /// A non-negative integer.
    pub fn unsigned(n: u64) -> (r: Json)
        ensures
            r@ == JsonView::Unsigned(n),
    {
        Json::Number(Number::Unsigned(n))
    }

    /// An array of the given items.
    pub fn array(items: Vec<Json>) -> (r: Json)
        ensures
            r@ == JsonView::Array(views(items@)),
    {
        let r = Json::Array(items);
        assert(r@->Array_0 =~= views(items@));
        r
    }

    /// An object of the given entries.
    pub fn object(entries: Vec<(String, Json)>) -> (r: Json)
        ensures
            r@ == JsonView::Object(entry_views(entries@)),
    {
        let r = Json::Object(entries);
        assert(r@->Object_0 =~= entry_views(entries@));
        r
    }
}

/// What the items of a list are.
pub open spec fn views(items: Seq<Json>) -> Seq<JsonView> {
    items.map_values(|j: Json| j@)
}

/// What the entries of an object are.
pub open spec fn entry_views(entries: Seq<(String, Json)>) -> Seq<(Seq<char>, JsonView)> {
    entries.map_values(|e: (String, Json)| (e.0@, e.1@))
}

/// The map that the entries of an object write, if all their values are texts.
pub open spec fn text_entries(entries: Seq<(Seq<char>, JsonView)>) -> Option<
    Map<Seq<char>, Seq<char>>,
>
    decreases entries.len(),
{
    if entries.len() == 0 {
        Some(Map::empty())
    } else {
        match (text_entries(entries.drop_last()), entries.last().1) {
            (Some(m), JsonView::Text(s)) => Some(m.insert(entries.last().0, s)),
            _ => None,
        }
    }
}

/// The map that the entries of an object write, if all their values are texts.
pub fn text_map(entries: &Vec<(String, Json)>) -> (r: Option<StrMap<String>>)
    ensures
        match r {
            Some(m) => text_entries(entry_views(entries@)) == Some(texts(m@)) && m.distinct(),
            None => text_entries(entry_views(entries@)) is None,
        },
{
    let mut m: StrMap<String> = StrMap::new();
    let ghost es = entry_views(entries@);
    let mut i: usize = 0;
    assert(texts(m@) =~= Map::<Seq<char>, Seq<char>>::empty());
    while i < entries.len()
        invariant
            i <= entries@.len(),
            es == entry_views(entries@),
            text_entries(es.take(i as int)) == Some(texts(m@)),
            m.distinct(),
        decreases entries.len() - i,
    {
        proof {
            assert(es.take(i + 1).drop_last() =~= es.take(i as int));
            assert(es.take(i + 1).last() == es[i as int]);
            assert(es[i as int] == (entries@[i as int].0@, entries@[i as int].1@));
        }
        match &entries[i].1 {
            Json::Text(s) => {
                let ghost before = texts(m@);
                m.insert(entries[i].0.clone(), s.clone());
                assert(texts(m@) =~= before.insert(entries@[i as int].0@, s@));
            },
            _ => {
                proof {
                    assert(text_entries(es.take(i + 1)) is None);
                    lemma_text_entries_fail(es, i + 1);
                }
                return None;
            },
        }
        i = i + 1;
    }
    assert(es.take(i as int) =~= es);
    Some(m)
}

/// One value that is no text spoils all.
proof fn lemma_text_entries_fail(es: Seq<(Seq<char>, JsonView)>, n: int)
    requires
        0 <= n <= es.len(),
        text_entries(es.take(n)) is None,
    ensures
        text_entries(es) is None,
    decreases es.len() - n,
{
    if n < es.len() {
        assert(es.take(n + 1).drop_last() =~= es.take(n));
        lemma_text_entries_fail(es, n + 1);
    } else {
        assert(es.take(n) =~= es);
    }
}

impl Json {
    /// A copy of the document.
    pub fn copy(&self) -> (r: Json)
        ensures
            r@ == self@,
        decreases self,
    {
        match self {
            Json::Null => Json::Null,
            Json::Bool(b) => Json::Bool(*b),
            Json::Number(Number::Unsigned(n)) => Json::Number(Number::Unsigned(*n)),
            Json::Number(Number::Negative(n)) => Json::Number(Number::Negative(*n)),
            Json::Number(Number::Float(s)) => Json::Number(Number::Float(s.clone())),
            Json::Text(s) => Json::Text(s.clone()),
            Json::Array(items) => {
                let mut copies: Vec<Json> = Vec::new();
                let mut i: usize = 0;
                while i < items.len()
                    invariant
                        i <= items@.len(),
                        *self == Json::Array(*items),
                        copies@.len() == i,
                        forall|j: int| 0 <= j < i ==> (#[trigger] copies@[j])@ == items@[j]@,
                    decreases items.len() - i,
                {
                    assert(decreases_to!(self->Array_0 => items@));
                    assert(decreases_to!(items@ => items@[i as int]));
                    copies.push(items[i].copy());
                    i = i + 1;
                }
                let r = Json::array(copies);
                assert(views(copies@) =~= views(items@));
                assert(self@->Array_0 =~= views(items@));
                r
            },
            Json::Object(entries) => {
                let mut copies: Vec<(String, Json)> = Vec::new();
                let mut i: usize = 0;
                while i < entries.len()
                    invariant
                        i <= entries@.len(),
                        *self == Json::Object(*entries),
                        copies@.len() == i,
                        forall|j: int|
                            0 <= j < i ==> (#[trigger] copies@[j]).0@ == entries@[j].0@
                                && copies@[j].1@ == entries@[j].1@,
                    decreases entries.len() - i,
                {
                    assert(decreases_to!(self->Object_0 => entries@));
                    assert(decreases_to!(entries@ => entries@[i as int]));
                    assert(decreases_to!(entries@[i as int] => entries@[i as int].1));
                    copies.push((entries[i].0.clone(), entries[i].1.copy()));
                    i = i + 1;
                }
                let r = Json::object(copies);
                assert(entry_views(copies@) =~= entry_views(entries@));
                assert(self@->Object_0 =~= entry_views(entries@));
                r
            },
        }
    }
}

// ---------------------------------------------------------------------------
// Reading and writing
// ---------------------------------------------------------------------------

/// A value of the `serde_json` crate.
#[verifier::external_type_specification]
#[verifier::external_body]
pub struct ExValue(serde_json::Value);

/// The document that a JSON text writes, or why it is none.
pub uninterp spec fn json_reading(text: Seq<u8>) -> Result<JsonView, Seq<char>>;

/// The document that a JSON text writes, if it is one.
pub open spec fn json_document(text: Seq<u8>) -> Option<JsonView> {
    match json_reading(text) {
        Ok(document) => Some(document),
        Err(_) => None,
    }
}

/// Turns a parsed value into a document, variant by variant.
#[verifier::external_body]
fn document_of(value: serde_json::Value) -> (document: Json)
{
    match value {
        serde_json::Value::Null => Json::Null,
        serde_json::Value::Bool(b) => Json::Bool(b),
        serde_json::Value::Number(n) => Json::Number(match (n.as_u64(), n.as_i64()) {
            (Some(u), _) => Number::Unsigned(u),
            (None, Some(i)) => Number::Negative(i),
            (None, None) => Number::Float(n.to_string()),
        }),
        serde_json::Value::String(s) => Json::Text(s),
        serde_json::Value::Array(v) => Json::Array(v.into_iter().map(document_of).collect()),
        serde_json::Value::Object(m) => Json::Object(
            m.into_iter().map(|(k, v)| (k, document_of(v))).collect()),
    }
}

/// Reads a JSON text. Stands for `serde_json::from_slice` into its own value
/// type, whose variants are carried over one for one, and the text of its error;
/// nothing is claimed but that what is read depends on the text alone. That an object
/// writes a key twice does not show in what is read.
#[verifier::external_body]
pub(crate) fn read_document(text: &[u8]) -> (r: Result<Json, String>)
    ensures
        match r {
            Ok(document) => json_reading(text@) == Ok::<JsonView, Seq<char>>(document@),
            Err(reason) => json_reading(text@) == Err::<JsonView, Seq<char>>(reason@),
        },
{
    match serde_json::from_slice::<serde_json::Value>(text) {
        Ok(value) => Ok(document_of(value)),
        Err(error) => Err(error.to_string()),
    }
}

/// Reads a JSON text.
pub fn parse_document(text: &[u8]) -> (r: Option<Json>)
    ensures
        match r {
            Some(document) => json_document(text@) == Some(document@),
            None => json_document(text@) is None,
        },
{
    match read_document(text) {
        Ok(document) => Some(document),
        Err(_) => None,
    }
}

/// The documents that stand one after another in a text, or why it does not hold
/// just documents.
pub uninterp spec fn json_readings(text: Seq<u8>) -> Result<Seq<JsonView>, Seq<char>>;

/// Reads the JSON documents that stand one after another in a text. Stands for
/// the stream iterator of `serde_json::Deserializer`, up to its first error, and the
/// text of that; nothing is claimed but that what is read depends on the text alone.
#[verifier::external_body]
pub(crate) fn read_documents(text: &[u8]) -> (r: Result<Vec<Json>, String>)
    ensures
        match r {
            Ok(documents) => json_readings(text@) == Ok::<Seq<JsonView>, Seq<char>>(
                views(documents@),
            ),
            Err(reason) => json_readings(text@) == Err::<Seq<JsonView>, Seq<char>>(reason@),
        },
{
    let stream = serde_json::Deserializer::from_slice(text).into_iter::<serde_json::Value>();
    stream.map(|value| value.map(document_of).map_err(|error| error.to_string())).collect()
}

/// The most compact JSON text of a document, in UTF-8.
pub uninterp spec fn json_bytes(document: JsonView) -> Seq<u8>;

/// Turns a document into a value of `serde_json`, variant by variant. A float's
/// text that is no number becomes null.
#[verifier::external_body]
fn value_of(document: &Json) -> (value: serde_json::Value)
{
    match document {
        Json::Null => serde_json::Value::Null,
        Json::Bool(b) => serde_json::Value::from(*b),
        Json::Number(Number::Unsigned(n)) => serde_json::Value::from(*n),
        Json::Number(Number::Negative(n)) => serde_json::Value::from(*n),
        Json::Number(Number::Float(s)) => serde_json::from_str(s).unwrap_or_default(),
        Json::Text(s) => serde_json::Value::from(s.as_str()),
        Json::Array(v) => v.iter().map(value_of).collect(),
        Json::Object(v) => v.iter().map(|(k, v)| (k.clone(), value_of(v))).collect(),
    }
}

/// Writes a document as compactly as JSON can be. Stands for `serde_json::to_vec`
/// of its own value type, whose variants are carried over one for one; nothing is
/// claimed but that what is written depends on the document alone.
#[verifier::external_body]
fn write_document(document: &Json) -> (r: Vec<u8>)
    ensures
        r@ == json_bytes(document@),
{
    serde_json::to_vec(&value_of(document)).unwrap_or_default()
}

impl Json {
    /// The document that a JSON text holds, if it is one.
    pub fn from_slice(text: &[u8]) -> (r: Option<Json>)
        ensures
            match r {
                Some(document) => json_document(text@) == Some(document@),
                None => json_document(text@) is None,
            },
    {
        parse_document(text)
    }

    /// The most compact JSON text of the document, in UTF-8.
    pub fn to_vec(&self) -> (r: Vec<u8>)
        ensures
            r@ == json_bytes(self@),
    {
        write_document(self)
    }
}

} // verus!
