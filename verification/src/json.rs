//! JSON values.

use crate::table::{lemma_lookup, lemma_stored_at, lemma_stored_end, lookup, stored};
use crate::text::{decimal, same};
use vstd::prelude::*;
use vstd::string::*;

verus! {

/// A JSON value. Numbers that are no integers are held as their JSON text.
/// The fields of an object stand in the order in which they are walked.
#[derive(Debug, PartialEq, Eq)]
pub enum Json {
    Null,
    Bool(bool),
    Unsigned(u64),
    Negative(i64),
    Decimal(String),
    Text(String),
    Array(Vec<Json>),
    Object(Vec<(String, Json)>),
}

/// What a JSON value holds.
pub enum JsonView {
    Null,
    Bool(bool),
    Unsigned(u64),
    Negative(i64),
    Decimal(Seq<char>),
    Text(Seq<char>),
    Array(Seq<JsonView>),
    Object(Seq<(Seq<char>, JsonView)>),
}

/// What a JSON value holds.
pub open spec fn json_view(j: Json) -> JsonView
    decreases j,
{
    match j {
        Json::Null => JsonView::Null,
        Json::Bool(b) => JsonView::Bool(b),
        Json::Unsigned(n) => JsonView::Unsigned(n),
        Json::Negative(n) => JsonView::Negative(n),
        Json::Decimal(s) => JsonView::Decimal(s@),
        Json::Text(s) => JsonView::Text(s@),
        Json::Array(v) => JsonView::Array(array_view(v@)),
        Json::Object(v) => JsonView::Object(object_view(v@)),
    }
}

/// What the elements of an array hold.
pub open spec fn array_view(s: Seq<Json>) -> Seq<JsonView>
    decreases s,
{
    if s.len() == 0 {
        Seq::empty()
    } else {
        array_view(s.drop_last()).push(json_view(s.last()))
    }
}

/// What the fields of an object hold.
pub open spec fn object_view(s: Seq<(String, Json)>) -> Seq<(Seq<char>, JsonView)>
    decreases s,
{
    if s.len() == 0 {
        Seq::empty()
    } else {
        object_view(s.drop_last()).push((s.last().0@, json_view(s.last().1)))
    }
}

impl View for Json {
    type V = JsonView;

    open spec fn view(&self) -> JsonView {
        json_view(*self)
    }
}

/// The view of an array has the views of its elements.
pub proof fn lemma_array_view(s: Seq<Json>)
    ensures
        array_view(s).len() == s.len(),
        forall|i: int| 0 <= i < s.len() ==> #[trigger] array_view(s)[i] == s[i]@,
    decreases s.len(),
{
    if s.len() > 0 {
        lemma_array_view(s.drop_last());
    }
}

/// The view of an object has the names and the views of its fields.
pub proof fn lemma_object_view(s: Seq<(String, Json)>)
    ensures
        object_view(s).len() == s.len(),
        forall|i: int|
            0 <= i < s.len() ==> #[trigger] object_view(s)[i] == (s[i].0@, s[i].1@),
    decreases s.len(),
{
    if s.len() > 0 {
        lemma_object_view(s.drop_last());
    }
}

/// The field `key` of an object.
pub open spec fn field(j: JsonView, key: Seq<char>) -> Option<JsonView> {
    match j {
        JsonView::Object(fields) => lookup(fields, key),
        _ => None,
    }
}

/// The text that a value is, if it is one.
pub open spec fn text_of(j: Option<JsonView>) -> Option<Seq<char>> {
    match j {
        Some(JsonView::Text(s)) => Some(s),
        _ => None,
    }
}

/// The unsigned number that a value is, if it is one.
pub open spec fn unsigned_of(j: Option<JsonView>) -> Option<u64> {
    match j {
        Some(JsonView::Unsigned(n)) => Some(n),
        _ => None,
    }
}

/// The truth value that a value is, if it is one.
pub open spec fn bool_of(j: Option<JsonView>) -> Option<bool> {
    match j {
        Some(JsonView::Bool(b)) => Some(b),
        _ => None,
    }
}

/// The elements of an array, if a value is one.
pub open spec fn elements_of(j: Option<JsonView>) -> Option<Seq<JsonView>> {
    match j {
        Some(JsonView::Array(s)) => Some(s),
        _ => None,
    }
}

/// The texts among the elements, in their order.
pub open spec fn texts_among(s: Seq<JsonView>) -> Seq<Seq<char>>
    decreases s.len(),
{
    if s.len() == 0 {
        Seq::empty()
    } else {
        match s.last() {
            JsonView::Text(t) => texts_among(s.drop_last()).push(t),
            _ => texts_among(s.drop_last()),
        }
    }
}

impl Json {
    /// A copy of the value.
    pub fn copy(&self) -> (r: Json)
        ensures
            r@ == self@,
        decreases self,
    {
        match self {
            Json::Null => Json::Null,
            Json::Bool(b) => Json::Bool(*b),
            Json::Unsigned(n) => Json::Unsigned(*n),
            Json::Negative(n) => Json::Negative(*n),
            Json::Decimal(s) => Json::Decimal(s.clone()),
            Json::Text(s) => Json::Text(s.clone()),
            Json::Array(v) => {
                let mut out: Vec<Json> = Vec::new();
                let mut i: usize = 0;
                while i < v.len()
                    invariant
                        0 <= i <= v@.len(),
                        array_view(out@) == array_view(v@.take(i as int)),
                        *self == Json::Array(*v),
                    decreases v@.len() - i,
                {
                    let ghost before = out@;
                    assert(decreases_to!(*self => self->Array_0));
                    assert(decreases_to!(*v => v@));
                    assert(decreases_to!(v@ => v@[i as int]));
                    out.push(v[i].copy());
                    assert(out@.drop_last() =~= before);
                    assert(v@.take(i + 1).drop_last() =~= v@.take(i as int));
                    i += 1;
                }
                assert(v@.take(i as int) =~= v@);
                Json::Array(out)
            },
            Json::Object(v) => {
                let mut out: Vec<(String, Json)> = Vec::new();
                let mut i: usize = 0;
                while i < v.len()
                    invariant
                        0 <= i <= v@.len(),
                        object_view(out@) == object_view(v@.take(i as int)),
                        *self == Json::Object(*v),
                    decreases v@.len() - i,
                {
                    let ghost before = out@;
                    assert(decreases_to!(*self => self->Object_0));
                    assert(decreases_to!(*v => v@));
                    assert(decreases_to!(v@ => v@[i as int]));
                    assert(decreases_to!(v@[i as int] => v@[i as int].1));
                    out.push((v[i].0.clone(), v[i].1.copy()));
                    assert(out@.drop_last() =~= before);
                    assert(v@.take(i + 1).drop_last() =~= v@.take(i as int));
                    i += 1;
                }
                assert(v@.take(i as int) =~= v@);
                Json::Object(out)
            },
        }
    }

    /// The field `key`, if the value is an object that has it.
    pub fn get(&self, key: &str) -> (r: Option<&Json>)
        ensures
            match r {
                Some(j) => field(self@, key@) == Some(j@),
                None => field(self@, key@) is None,
            },
    {
        match self {
            Json::Object(v) => {
                let ghost fields = object_view(v@);
                proof {
                    lemma_object_view(v@);
                }
                let mut i: usize = 0;
                assert(fields.skip(0) =~= fields);
                while i < v.len()
                    invariant
                        0 <= i <= v@.len(),
                        *self == Json::Object(*v),
                        fields == object_view(v@),
                        fields.len() == v@.len(),
                        forall|k: int|
                            0 <= k < v@.len() ==> #[trigger] fields[k] == (v@[k].0@, v@[k].1@),
                        lookup(fields, key@) == lookup(fields.skip(i as int), key@),
                    decreases v@.len() - i,
                {
                    assert(fields[i as int] == (v@[i as int].0@, v@[i as int].1@));
                    if same(v[i].0.as_str(), key) {
                        return Some(&v[i].1);
                    }
                    assert(fields.skip(i as int).skip(1) =~= fields.skip(i + 1));
                    i += 1;
                }
                None
            },
            _ => None,
        }
    }

    /// The value with a field stored in it, if it is an object; any other value
    /// stays as it is.
    pub fn with_field(self, key: &str, value: Json) -> (r: Json)
        ensures
            r@ == (match self@ {
                JsonView::Object(fields) => JsonView::Object(stored(fields, key@, value@)),
                other => other,
            }),
    {
        match self {
            Json::Object(fields) => {
                let mut v: Vec<(String, Json)> = fields;
                let ghost before = object_view(v@);
                proof {
                    lemma_object_view(v@);
                }
                let mut i: usize = 0;
                while i < v.len() && !same(v[i].0.as_str(), key)
                    invariant
                        0 <= i <= v@.len(),
                        before == object_view(v@),
                        before.len() == v@.len(),
                        forall|k: int|
                            0 <= k < v@.len() ==> #[trigger] before[k] == (v@[k].0@, v@[k].1@),
                        forall|k: int| 0 <= k < i ==> (#[trigger] before[k]).0 != key@,
                    decreases v@.len() - i,
                {
                    assert(before[i as int] == (v@[i as int].0@, v@[i as int].1@));
                    i += 1;
                }
                let ghost new = value@;
                if i < v.len() {
                    assert(before[i as int] == (v@[i as int].0@, v@[i as int].1@));
                    proof {
                        lemma_stored_at(before, key@, new, i as int);
                    }
                    v.set(i, (key.to_owned(), value));
                    proof {
                        lemma_object_view(v@);
                        assert(object_view(v@) =~= before.update(i as int, (key@, new)));
                    }
                } else {
                    proof {
                        lemma_lookup(before, key@);
                        lemma_stored_end(before, key@, new);
                    }
                    v.push((key.to_owned(), value));
                    proof {
                        lemma_object_view(v@);
                        assert(object_view(v@) =~= before.push((key@, new)));
                    }
                }
                Json::Object(v)
            },
            other => other,
        }
    }

    /// The text, if the value is one.
    pub fn as_str(&self) -> (r: Option<&String>)
        ensures
            match r {
                Some(s) => text_of(Some(self@)) == Some(s@),
                None => text_of(Some(self@)) is None,
            },
    {
        match self {
            Json::Text(s) => Some(s),
            _ => None,
        }
    }

    /// The text in the field `key`.
    pub fn get_str(&self, key: &str) -> (r: Option<&String>)
        ensures
            match r {
                Some(s) => text_of(field(self@, key@)) == Some(s@),
                None => text_of(field(self@, key@)) is None,
            },
    {
        match self.get(key) {
            Some(j) => j.as_str(),
            None => None,
        }
    }

    /// The unsigned number in the field `key`.
    pub fn get_u64(&self, key: &str) -> (r: Option<u64>)
        ensures
            r == unsigned_of(field(self@, key@)),
    {
        match self.get(key) {
            Some(Json::Unsigned(n)) => Some(*n),
            _ => None,
        }
    }

    /// The truth value in the field `key`.
    pub fn get_bool(&self, key: &str) -> (r: Option<bool>)
        ensures
            r == bool_of(field(self@, key@)),
    {
        match self.get(key) {
            Some(Json::Bool(b)) => Some(*b),
            _ => None,
        }
    }

    /// The array in the field `key`.
    pub fn get_array(&self, key: &str) -> (r: Option<&Vec<Json>>)
        ensures
            match r {
                Some(v) => elements_of(field(self@, key@)) == Some(array_view(v@)),
                None => elements_of(field(self@, key@)) is None,
            },
    {
        match self.get(key) {
            Some(Json::Array(v)) => Some(v),
            _ => None,
        }
    }
}

/// The texts among the elements of an array.
pub fn collect_texts(v: &Vec<Json>) -> (r: Vec<String>)
    ensures
        crate::text::views(r@) == texts_among(array_view(v@)),
{
    let mut out: Vec<String> = Vec::new();
    let mut i: usize = 0;
    let ghost all = array_view(v@);
    proof {
        lemma_array_view(v@);
    }
    assert(crate::text::views(out@) =~= texts_among(all.take(0)));
    while i < v.len()
        invariant
            0 <= i <= v@.len(),
            all.len() == v@.len(),
            forall|k: int| 0 <= k < v@.len() ==> #[trigger] all[k] == v@[k]@,
            crate::text::views(out@) == texts_among(all.take(i as int)),
        decreases v@.len() - i,
    {
        assert(all.take(i + 1).drop_last() =~= all.take(i as int));
        assert(all[i as int] == v@[i as int]@);
        let ghost before = crate::text::views(out@);
        if let Json::Text(s) = &v[i] {
            out.push(s.clone());
            assert(crate::text::views(out@) =~= before.push(s@));
        }
        i += 1;
    }
    assert(all.take(i as int) =~= all);
    out
}

/// `serde_json::Value`, which only passes through the two functions below.
#[verifier::external_type_specification]
#[verifier::external_body]
pub struct ExValue(serde_json::Value);

/// The JSON text that `serde_json` writes for a value.
pub uninterp spec fn json_text(j: JsonView) -> Seq<char>;

/// The value that `serde_json` reads from a text, where the text is JSON.
pub uninterp spec fn json_parse(t: Seq<char>) -> Option<JsonView>;

/// Hands a value over to `serde_json`, variant by variant.
#[verifier::external_body]
fn to_value(j: &Json) -> serde_json::Value {
    match j {
        Json::Null => serde_json::Value::Null,
        Json::Bool(b) => serde_json::Value::Bool(*b),
        Json::Unsigned(n) => serde_json::Value::from(*n),
        Json::Negative(n) => serde_json::Value::from(*n),
        Json::Decimal(s) => serde_json::from_str(s).unwrap_or_default(),
        Json::Text(s) => serde_json::Value::from(s.as_str()),
        Json::Array(v) => serde_json::Value::Array(v.iter().map(to_value).collect()),
        Json::Object(v) => v.iter().map(|(k, x)| (k.clone(), to_value(x))).collect(),
    }
}

/// Takes a value over from `serde_json`, variant by variant.
#[verifier::external_body]
fn of_value(v: serde_json::Value) -> Json {
    match v {
        serde_json::Value::Null => Json::Null,
        serde_json::Value::Bool(b) => Json::Bool(b),
        serde_json::Value::Number(n) => match (n.as_u64(), n.as_i64()) {
            (Some(u), _) => Json::Unsigned(u),
            (None, Some(i)) => Json::Negative(i),
            _ => Json::Decimal(n.to_string()),
        },
        serde_json::Value::String(s) => Json::Text(s),
        serde_json::Value::Array(a) => Json::Array(a.into_iter().map(of_value).collect()),
        serde_json::Value::Object(m) => {
            Json::Object(m.into_iter().map(|(k, x)| (k, of_value(x))).collect())
        },
    }
}

/// `<serde_json::Value as Display>::to_string`: the compact JSON text, a
/// function of the value alone. A truth value is written `true` or `false`,
/// an unsigned number in decimal.
#[verifier::external_body]
pub(crate) fn write_json(j: &Json) -> (r: String)
    ensures
        r@ == json_text(j@),
        j@ == JsonView::Bool(true) ==> r@ == "true"@,
        j@ == JsonView::Bool(false) ==> r@ == "false"@,
        forall|n: u64| j@ == JsonView::Unsigned(n) ==> r@ == #[trigger] decimal(n as nat),
{
    to_value(j).to_string()
}

/// `serde_json::from_str::<serde_json::Value>`: the value, or nothing where
/// the text is no JSON. Which it is depends on the text alone.
#[verifier::external_body]
pub(crate) fn read_json(t: &str) -> (r: Option<Json>)
    ensures
        match r {
            Some(j) => json_parse(t@) == Some(j@),
            None => json_parse(t@) is None,
        },
{
    serde_json::from_str(t).ok().map(of_value)
}

/// The texts of a list are taken out one by one, in their order, and nothing
/// that is no text is taken for one.
pub proof fn law_texts_are_taken_in_order(a: Seq<JsonView>, b: Seq<JsonView>, j: JsonView)
    ensures
        texts_among(a + b) == texts_among(a) + texts_among(b),
        texts_among(seq![j]) == (match j {
            JsonView::Text(t) => seq![t],
            _ => Seq::empty(),
        }),
    decreases b.len(),
{
    reveal_with_fuel(texts_among, 2);
    assert(seq![j].drop_last() =~= Seq::<JsonView>::empty());
    if b.len() == 0 {
        assert(a + b =~= a);
        assert(texts_among(a) + texts_among(b) =~= texts_among(a));
    } else {
        assert((a + b).drop_last() =~= a + b.drop_last());
        law_texts_are_taken_in_order(a, b.drop_last(), j);
        assert(texts_among(a + b) =~= texts_among(a) + texts_among(b));
    }
}

/// A value is read as what it is and as nothing else.
pub proof fn law_values_are_read_as_they_are(j: JsonView)
    ensures
        text_of(Some(j)) == (if j is Text {
            Some(j->Text_0)
        } else {
            None
        }),
        unsigned_of(Some(j)) == (if j is Unsigned {
            Some(j->Unsigned_0)
        } else {
            None
        }),
        bool_of(Some(j)) == (if j is Bool {
            Some(j->Bool_0)
        } else {
            None
        }),
        elements_of(Some(j)) == (if j is Array {
            Some(j->Array_0)
        } else {
            None
        }),
        text_of(None) is None,
        unsigned_of(None) is None,
        bool_of(None) is None,
        elements_of(None) is None,
{
}

} // verus!
