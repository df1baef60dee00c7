//! JSON: documents that serde_json parses, and values that are looked into.
use crate::text::{same_text, texts};
use serde_json::Error as JsonError;
use vstd::prelude::*;

verus! {

/// A JSON document.
#[verifier::external_type_specification]
#[verifier::external_body]
pub struct ExValue(serde_json::Value);

/// Why a text is no JSON document.
#[verifier::external_type_specification]
#[verifier::external_body]
pub struct ExJsonError(JsonError);

/// The document that a text holds, or why it holds none.
pub uninterp spec fn json_parsed(text: Seq<char>) -> Result<serde_json::Value, JsonError>;

/// An error of serde_json in words.
pub uninterp spec fn json_error_text(error: JsonError) -> Seq<char>;

/// Calls `serde_json::from_str`. What it gives depends on the text alone.
#[verifier::external_body]
pub(crate) fn parse_json(text: &str) -> (r: Result<serde_json::Value, JsonError>)
    ensures
        r == json_parsed(text@),
{
    serde_json::from_str(text)
}

/// Calls the `Display` of `serde_json::Error`. The words depend on the error alone.
#[verifier::external_body]
pub(crate) fn error_text(error: &JsonError) -> (r: String)
    ensures
        r@ == json_error_text(*error),
{
    error.to_string()
}

/// A JSON value as far as it is looked into.
pub enum Json {
    Text(String),
    List(Vec<Json>),
    Object(Vec<(String, Json)>),
    Other,
}

/// Model of a [`Json`].
pub enum JsonView {
    Text(Seq<char>),
    List(Seq<JsonView>),
    Object(Seq<(Seq<char>, JsonView)>),
    Other,
}

impl Json {
    pub open spec fn view(&self) -> JsonView
        decreases self,
    {
        match self {
            Json::Text(s) => JsonView::Text(s@),
            Json::List(v) => JsonView::List(
                Seq::new(
                    v@.len(),
                    |i: int|
                        if 0 <= i < v@.len() {
                            v@[i].view()
                        } else {
                            arbitrary()
                        },
                ),
            ),
            Json::Object(v) => JsonView::Object(
                Seq::new(
                    v@.len(),
                    |i: int|
                        if 0 <= i < v@.len() {
                            (v@[i].0@, v@[i].1.view())
                        } else {
                            arbitrary()
                        },
                ),
            ),
            Json::Other => JsonView::Other,
        }
    }
}

/// The models of a list of values.
pub open spec fn json_views(v: Seq<Json>) -> Seq<JsonView> {
    v.map_values(|j: Json| j@)
}

/// The first value with the given key.
pub open spec fn value_for(entries: Seq<(Seq<char>, JsonView)>, key: Seq<char>) -> Option<JsonView>
    decreases entries.len(),
{
    if entries.len() == 0 {
        None
    } else if entries[0].0 == key {
        Some(entries[0].1)
    } else {
        value_for(entries.skip(1), key)
    }
}

/// The texts in a list, in their order.
pub open spec fn texts_in(list: Seq<JsonView>) -> Seq<Seq<char>>
    decreases list.len(),
{
    if list.len() == 0 {
        Seq::empty()
    } else {
        match list.last() {
            JsonView::Text(s) => texts_in(list.drop_last()).push(s),
            _ => texts_in(list.drop_last()),
        }
    }
}

impl Json {
    /// The value for `key`, where this is an object that has one.
    pub fn get(&self, key: &str) -> (r: Option<&Json>)
        ensures
            match (self@, r) {
                (JsonView::Object(entries), Some(j)) => value_for(entries, key@) == Some(j@),
                (JsonView::Object(entries), None) => value_for(entries, key@) is None,
                (_, None) => true,
                _ => false,
            },
    {
        match self {
            Json::Object(entries) => {
                let ghost all = self@->Object_0;
                let mut i: usize = 0;
                proof {
                    assert(all.skip(0) =~= all);
                }
                while i < entries.len()
                    invariant
                        i <= entries.len(),
                        *self == Json::Object(*entries),
                        self@ == JsonView::Object(all),
                        value_for(all, key@) == value_for(all.skip(i as int), key@),
                    decreases entries.len() - i,
                {
                    if same_text(entries[i].0.as_str(), key) {
                        return Some(&entries[i].1);
                    }
                    proof {
                        assert(all.skip(i as int).skip(1) =~= all.skip(i + 1));
                    }
                    i = i + 1;
                }
                None
            },
            _ => None,
        }
    }

    /// The texts in this value, where it is a list.
    pub fn texts(&self) -> (r: Vec<String>)
        ensures
            texts(r@) == (match self@ {
                JsonView::List(list) => texts_in(list),
                _ => Seq::empty(),
            }),
    {
        let mut r: Vec<String> = Vec::new();
        proof {
            assert(texts(r@) =~= Seq::empty());
        }
        if let Json::List(list) = self {
            let ghost all = self@->List_0;
            let mut i: usize = 0;
            proof {
                assert(all.take(0) =~= Seq::empty());
            }
            while i < list.len()
                invariant
                    i <= list.len(),
                    *self == Json::List(*list),
                    self@ == JsonView::List(all),
                    texts(r@) == texts_in(all.take(i as int)),
                decreases list.len() - i,
            {
                proof {
                    assert(all.take(i + 1).drop_last() =~= all.take(i as int));
                    assert(all.take(i + 1).last() == list@[i as int]@);
                }
                if let Json::Text(s) = &list[i] {
                    let ghost held = r@;
                    r.push(s.clone());
                    proof {
                        assert(texts(r@) =~= texts(held).push(s@));
                    }
                }
                i = i + 1;
            }
            proof {
                assert(all.take(i as int) =~= all);
            }
        }
        r
    }
}

/// The value for a key is that of the first entry with the key, and there is none where no
/// entry has it.
pub proof fn law_first_entry_counts(
    entries: Seq<(Seq<char>, JsonView)>,
    key: Seq<char>,
    i: int,
)
    requires
        0 <= i <= entries.len(),
        i < entries.len() ==> entries[i].0 == key,
        forall|j: int| 0 <= j < i ==> (#[trigger] entries[j]).0 != key,
    ensures
        i < entries.len() ==> value_for(entries, key) == Some(entries[i].1),
        i == entries.len() ==> value_for(entries, key) is None,
    decreases entries.len(),
{
    if i > 0 {
        let rest = entries.skip(1);
        assert(entries[0].0 != key);
        assert forall|j: int| 0 <= j < i - 1 implies (#[trigger] rest[j]).0 != key by {
            assert(entries[j + 1].0 != key);
        }
        law_first_entry_counts(rest, key, i - 1);
    }
}

/// The texts in a list are all its items that are texts, in their order, and nothing else.
pub proof fn law_texts_of_a_list(list: Seq<JsonView>)
    ensures
        texts_in(list) == list.filter_map(
            |item: JsonView|
                match item {
                    JsonView::Text(s) => Some(s),
                    _ => None,
                },
        ),
    decreases list.len(),
{
    if list.len() > 0 {
        law_texts_of_a_list(list.drop_last());
    }
}

/// The model of a value holds what the value holds.
pub proof fn law_json_model(j: Json)
    ensures
        match j {
            Json::Text(s) => j@ == JsonView::Text(s@),
            Json::List(v) => j@ is List && j@->List_0.len() == v@.len() && forall|i: int|
                0 <= i < v@.len() ==> #[trigger] j@->List_0[i] == v@[i]@,
            Json::Object(v) => j@ is Object && j@->Object_0.len() == v@.len() && forall|i: int|
                0 <= i < v@.len() ==> #[trigger] j@->Object_0[i] == (v@[i].0@, v@[i].1@),
            Json::Other => j@ == JsonView::Other,
        },
{
}

} // verus!
