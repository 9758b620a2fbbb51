//! JSON documents as values of the library, and their way to and from bytes.

use vstd::prelude::*;

use crate::order::same_text;

verus! {

/// A JSON number. Nothing here looks inside one.
#[verifier::external_type_specification]
#[verifier::external_body]
pub struct ExNumber(serde_json::Number);

/// A JSON document of `serde_json`.
#[verifier::external_type_specification]
#[verifier::external_body]
pub struct ExValue(serde_json::Value);

/// Why `serde_json` could not read or write a document.
#[verifier::external_type_specification]
#[verifier::external_body]
pub struct ExError(serde_json::Error);

/// A JSON document. Where an object names a field twice, the later one counts.
#[derive(Debug, PartialEq, Eq)]
pub enum Json {
    /// `null`.
    Null,
    /// `true` or `false`.
    Bool(bool),
    /// A number.
    Number(serde_json::Number),
    /// A string.
    Text(String),
    /// An array.
    Array(Vec<Json>),
    /// An object, as its fields.
    Object(Vec<(String, Json)>),
}

/// What a JSON document says.
pub enum JsonView {
    /// `null`.
    Null,
    /// `true` or `false`.
    Bool(bool),
    /// A number.
    Number(serde_json::Number),
    /// A string.
    Text(Seq<char>),
    /// An array.
    Array(Seq<JsonView>),
    /// An object: the value of each of its fields.
    Object(Map<Seq<char>, JsonView>),
}

/// One level of a JSON document, with the documents inside it still in the form of `serde_json`.
pub enum JsonNode {
    /// `null`.
    Null,
    /// `true` or `false`.
    Bool(bool),
    /// A number.
    Number(serde_json::Number),
    /// A string.
    Text(String),
    /// An array.
    Array(Vec<serde_json::Value>),
    /// An object, as its fields.
    Object(Vec<(String, serde_json::Value)>),
}

/// What a document of the library says.
pub open spec fn json_view(j: Json) -> JsonView
    decreases j,
{
    match j {
        Json::Null => JsonView::Null,
        Json::Bool(b) => JsonView::Bool(b),
        Json::Number(n) => JsonView::Number(n),
        Json::Text(s) => JsonView::Text(s@),
        Json::Array(items) => JsonView::Array(items_view(items@)),
        Json::Object(fields) => JsonView::Object(fields_view(fields@)),
    }
}

/// What the items of an array say.
pub open spec fn items_view(items: Seq<Json>) -> Seq<JsonView>
    decreases items,
{
    if items.len() == 0 {
        Seq::empty()
    } else {
        items_view(items.drop_last()).push(json_view(items.last()))
    }
}

/// What the fields of an object say.
pub open spec fn fields_view(fields: Seq<(String, Json)>) -> Map<Seq<char>, JsonView>
    decreases fields,
{
    if fields.len() == 0 {
        Map::empty()
    } else {
        fields_view(fields.drop_last()).insert(fields.last().0@, json_view(fields.last().1))
    }
}

/// The view of an array is the array of the views.
pub proof fn lemma_items_view(items: Seq<Json>)
    ensures
        items_view(items).len() == items.len(),
        forall|i: int| 0 <= i < items.len() ==> #[trigger] items_view(items)[i] == items[i]@,
    decreases items.len(),
{
    if items.len() > 0 {
        lemma_items_view(items.drop_last());
        assert forall|i: int| 0 <= i < items.len() implies #[trigger] items_view(items)[i]
            == items[i]@ by {
            if i < items.len() - 1 {
                assert(items_view(items.drop_last())[i] == items.drop_last()[i]@);
            }
        }
    }
}

impl View for Json {
    type V = JsonView;

    open spec fn view(&self) -> JsonView {
        json_view(*self)
    }
}

/// What a document of `serde_json` says.
pub uninterp spec fn value_view(v: serde_json::Value) -> JsonView;

/// The document that JSON text denotes, where it denotes one.
pub uninterp spec fn json_document(bytes: Seq<u8>) -> Option<JsonView>;

/// The JSON text of a document.
pub uninterp spec fn json_encoding(j: JsonView) -> Seq<u8>;

/// The bytes that ASCII counts as white space.
pub open spec fn ascii_white_space(b: u8) -> bool {
    b == 0x09 || b == 0x0a || b == 0x0c || b == 0x0d || b == 0x20
}

/// What the fields of an object say, their values still in the form of `serde_json`.
pub open spec fn value_fields(fields: Seq<(String, serde_json::Value)>) -> Map<Seq<char>, JsonView>
    decreases fields.len(),
{
    if fields.len() == 0 {
        Map::empty()
    } else {
        value_fields(fields.drop_last()).insert(fields.last().0@, value_view(fields.last().1))
    }
}

/// What one level of a document, with all that is inside it, says.
pub open spec fn node_view(n: JsonNode) -> JsonView {
    match n {
        JsonNode::Null => JsonView::Null,
        JsonNode::Bool(b) => JsonView::Bool(b),
        JsonNode::Number(n) => JsonView::Number(n),
        JsonNode::Text(s) => JsonView::Text(s@),
        JsonNode::Array(items) => JsonView::Array(
            items@.map_values(|v: serde_json::Value| value_view(v)),
        ),
        JsonNode::Object(fields) => JsonView::Object(value_fields(fields@)),
    }
}

/// Whether no field is named twice.
pub open spec fn distinct_names(fields: Seq<(String, serde_json::Value)>) -> bool {
    forall|i: int, j: int| 0 <= i < j < fields.len() ==> #[trigger] fields[i].0@ != #[trigger] fields[j].0@
}

/// The integer that a JSON number is, where it is one.
pub uninterp spec fn number_integer(n: serde_json::Number) -> Option<int>;

/// Whether a document can be restored from its text: it holds no numbers but integers, and nests at
/// most `depth` levels deep.
pub open spec fn restorable(j: JsonView, depth: nat) -> bool
    decreases depth,
{
    match j {
        JsonView::Number(n) => number_integer(n) is Some,
        JsonView::Array(items) => depth > 0 && forall|i: int|
            0 <= i < items.len() ==> restorable(#[trigger] items[i], (depth - 1) as nat),
        JsonView::Object(fields) => depth > 0 && forall|k: Seq<char>| #[trigger]
            fields.dom().contains(k) ==> restorable(fields[k], (depth - 1) as nat),
        _ => true,
    }
}

/// Asks `serde_json::Number::as_i128` whether a number is an integer: it is claimed that the answer
/// depends on the number alone.
#[verifier::external_body]
fn integer_of(n: &serde_json::Number) -> (r: Option<i128>)
    ensures
        match r {
            Some(i) => number_integer(*n) == Some(i as int),
            None => number_integer(*n) is None,
        },
{
    n.as_i128()
}

/// Takes a `serde_json::Value` apart by its variants: it is claimed that the parts say what the
/// value says, and that an object names no field twice.
#[verifier::external_body]
fn open_value(v: serde_json::Value) -> (r: JsonNode)
    ensures
        node_view(r) == value_view(v),
        r matches JsonNode::Object(fields) ==> distinct_names(fields@),
{
    match v {
        serde_json::Value::Null => JsonNode::Null,
        serde_json::Value::Bool(b) => JsonNode::Bool(b),
        serde_json::Value::Number(n) => JsonNode::Number(n),
        serde_json::Value::String(s) => JsonNode::Text(s),
        serde_json::Value::Array(items) => JsonNode::Array(items),
        serde_json::Value::Object(fields) => JsonNode::Object(fields.into_iter().collect()),
    }
}

/// Builds a `serde_json::Value` by its variants: it is claimed that the value says what the parts
/// say. The fields of an object must have distinct names.
#[verifier::external_body]
fn close_value(n: JsonNode) -> (r: serde_json::Value)
    requires
        n matches JsonNode::Object(fields) ==> distinct_names(fields@),
    ensures
        value_view(r) == node_view(n),
{
    match n {
        JsonNode::Null => serde_json::Value::Null,
        JsonNode::Bool(b) => serde_json::Value::Bool(b),
        JsonNode::Number(n) => serde_json::Value::Number(n),
        JsonNode::Text(s) => serde_json::Value::String(s),
        JsonNode::Array(items) => serde_json::Value::Array(items),
        JsonNode::Object(fields) => serde_json::Value::Object(fields.into_iter().collect()),
    }
}

/// Reads JSON text with `serde_json::from_slice`: it is claimed that the outcome, a document or a
/// failure, depends on the bytes alone. Which bytes denote which document is left unsaid.
#[verifier::external_body]
fn value_from_slice(bytes: &[u8]) -> (r: Result<serde_json::Value, serde_json::Error>)
    ensures
        match r {
            Ok(v) => json_document(bytes@) == Some(value_view(v)),
            Err(_) => json_document(bytes@) is None,
        },
{
    serde_json::from_slice(bytes)
}

/// Writes JSON text with `serde_json::to_vec`: it is claimed that it succeeds, as it fails only
/// for types that refuse to be written or for objects with names that are no strings; that the
/// text depends on what the document says alone; that it does not start with white space; and
/// that reading it gives the document back. The last is claimed of documents without numbers other
/// than integers, as others can be rounded, that keep within the 127 levels that a reader accepts.
#[verifier::external_body]
fn value_to_vec(v: &serde_json::Value) -> (r: Result<Vec<u8>, serde_json::Error>)
    ensures
        r is Ok,
        r->Ok_0@ == json_encoding(value_view(*v)),
        r->Ok_0@.len() > 0,
        !ascii_white_space(r->Ok_0@[0]),
        restorable(value_view(*v), 127) ==> json_document(r->Ok_0@) == Some(value_view(*v)),
{
    serde_json::to_vec(v)
}

/// Each field of an object with distinct names is found under its name.
proof fn lemma_value_fields(fields: Seq<(String, serde_json::Value)>, i: int)
    requires
        distinct_names(fields),
        0 <= i < fields.len(),
    ensures
        value_fields(fields).dom().finite(),
        value_fields(fields).dom().contains(fields[i].0@),
        value_fields(fields)[fields[i].0@] == value_view(fields[i].1),
    decreases fields.len(),
{
    let rest = fields.drop_last();
    lemma_value_fields_finite(fields);
    if i < fields.len() - 1 {
        assert(fields[i] == rest[i]);
        assert forall|a: int, b: int| 0 <= a < b < rest.len() implies #[trigger] rest[a].0@
            != #[trigger] rest[b].0@ by {
            assert(fields[a].0@ != fields[b].0@);
        }
        lemma_value_fields(rest, i);
        assert(fields[i].0@ != fields[fields.len() - 1].0@);
    }
}

/// An object has finitely many fields.
proof fn lemma_value_fields_finite(fields: Seq<(String, serde_json::Value)>)
    ensures
        value_fields(fields).dom().finite(),
    decreases fields.len(),
{
    if fields.len() > 0 {
        lemma_value_fields_finite(fields.drop_last());
    }
}

/// Copies a number, with `Clone` of `serde_json::Number`: it is claimed that the copy is the same
/// number.
pub assume_specification[ <serde_json::Number as Clone>::clone ](n: &serde_json::Number) -> (r:
    serde_json::Number)
    ensures
        r == *n,
;

impl Clone for Json {
    fn clone(&self) -> (r: Self)
        ensures
            r@ == self@,
        decreases self,
    {
        match self {
            Json::Null => Json::Null,
            Json::Bool(b) => Json::Bool(*b),
            Json::Number(n) => Json::Number(n.clone()),
            Json::Text(s) => Json::Text(s.clone()),
            Json::Array(items) => {
                let mut out: Vec<Json> = Vec::new();
                let mut i: usize = 0;
                while i < items.len()
                    invariant
                        i <= items@.len(),
                        decreases_to!(*self => items@),
                        items_view(out@) == items_view(items@.take(i as int)),
                    decreases items@.len() - i,
                {
                    let ghost before = out@;
                    assert(decreases_to!(items@ => items@[i as int]));
                    out.push(items[i].clone());
                    assert(out@.drop_last() == before);
                    assert(items@.take(i + 1).drop_last() == items@.take(i as int));
                    i += 1;
                }
                assert(items@.take(i as int) == items@);
                Json::Array(out)
            },
            Json::Object(fields) => {
                let mut out: Vec<(String, Json)> = Vec::new();
                let mut i: usize = 0;
                while i < fields.len()
                    invariant
                        i <= fields@.len(),
                        decreases_to!(*self => fields@),
                        fields_view(out@) == fields_view(fields@.take(i as int)),
                    decreases fields@.len() - i,
                {
                    let ghost before = out@;
                    assert(decreases_to!(fields@ => fields@[i as int]));
                    assert(decreases_to!(fields@[i as int] => fields@[i as int].1));
                    out.push((fields[i].0.clone(), fields[i].1.clone()));
                    assert(out@.drop_last() == before);
                    assert(fields@.take(i + 1).drop_last() == fields@.take(i as int));
                    i += 1;
                }
                assert(fields@.take(i as int) == fields@);
                Json::Object(out)
            },
        }
    }
}

/// The value of the field `name` of an object, where it has one.
pub fn field<'a>(fields: &'a Vec<(String, Json)>, name: &str) -> (r: Option<&'a Json>)
    ensures
        match r {
            Some(j) => fields_view(fields@).dom().contains(name@) && fields_view(fields@)[name@]
                == j@,
            None => !fields_view(fields@).dom().contains(name@),
        },
{
    let mut n: usize = fields.len();
    assert(fields@.take(n as int) == fields@);
    while n > 0
        invariant
            n <= fields@.len(),
            fields_view(fields@).dom().contains(name@) <==> fields_view(
                fields@.take(n as int),
            ).dom().contains(name@),
            fields_view(fields@)[name@] == fields_view(fields@.take(n as int))[name@],
        decreases n,
    {
        assert(fields@.take(n as int).drop_last() == fields@.take(n - 1));
        if same_text(fields[n - 1].0.as_str(), name) {
            return Some(&fields[n - 1].1);
        }
        n -= 1;
    }
    None
}

/// The document of the library that says what `v` says.
pub fn json_from_value(v: serde_json::Value) -> (r: Json)
    ensures
        r@ == value_view(v),
    decreases value_view(v),
{
    match open_value(v) {
        JsonNode::Null => Json::Null,
        JsonNode::Bool(b) => Json::Bool(b),
        JsonNode::Number(n) => Json::Number(n),
        JsonNode::Text(s) => Json::Text(s),
        JsonNode::Array(items) => {
            let mut out: Vec<Json> = Vec::new();
            let ghost all = items@;
            for item in it: items
                invariant
                    it.seq() == all,
                    value_view(v) == JsonView::Array(
                        all.map_values(|v: serde_json::Value| value_view(v)),
                    ),
                    items_view(out@) == all.take(it.index() as int).map_values(
                        |v: serde_json::Value| value_view(v),
                    ),
            {
                let ghost k = it.index() as int;
                assert(value_view(v)->Array_0[k] == value_view(item));
                let ghost before = out@;
                let j = json_from_value(item);
                out.push(j);
                assert(out@.drop_last() == before);
                assert(all.take(k + 1) == all.take(k).push(item));
            }
            assert(all.take(all.len() as int) == all);
            Json::Array(out)
        },
        JsonNode::Object(fields) => {
            let mut out: Vec<(String, Json)> = Vec::new();
            let ghost all = fields@;
            for field in it: fields
                invariant
                    it.seq() == all,
                    distinct_names(all),
                    value_view(v) == JsonView::Object(value_fields(all)),
                    fields_view(out@) == value_fields(all.take(it.index() as int)),
            {
                let ghost k = it.index() as int;
                let ghost before = out@;
                proof {
                    lemma_value_fields(all, k);
                }
                let (name, value) = field;
                assert(decreases_to!(value_view(v) => value_view(v)->Object_0));
                assert(decreases_to!(value_fields(all) => value_fields(all)[name@]));
                let j = json_from_value(value);
                out.push((name, j));
                assert(out@.drop_last() == before);
                assert(all.take(k + 1).drop_last() == all.take(k));
            }
            assert(all.take(all.len() as int) == all);
            Json::Object(out)
        },
    }
}

/// The names of an object's fields.
proof fn lemma_names(fields: Seq<(String, serde_json::Value)>)
    ensures
        forall|name: Seq<char>| #[trigger]
            value_fields(fields).dom().contains(name) <==> exists|i: int|
                0 <= i < fields.len() && #[trigger] fields[i].0@ == name,
    decreases fields.len(),
{
    if fields.len() > 0 {
        let rest = fields.drop_last();
        lemma_names(rest);
        assert forall|name: Seq<char>| #[trigger]
            value_fields(fields).dom().contains(name) <==> exists|i: int|
                0 <= i < fields.len() && #[trigger] fields[i].0@ == name by {
            if value_fields(rest).dom().contains(name) {
                let i = choose|i: int| 0 <= i < rest.len() && #[trigger] rest[i].0@ == name;
                assert(fields[i].0@ == name);
            }
            if fields.last().0@ == name {
                assert(fields[fields.len() - 1].0@ == name);
            }
            if exists|i: int| 0 <= i < fields.len() && #[trigger] fields[i].0@ == name {
                let i = choose|i: int| 0 <= i < fields.len() && #[trigger] fields[i].0@ == name;
                if i < rest.len() {
                    assert(rest[i].0@ == name);
                }
            }
        }
    }
}

/// Whether a field has the name `name`.
fn has_name(fields: &Vec<(String, serde_json::Value)>, name: &str) -> (r: bool)
    ensures
        r == exists|i: int| 0 <= i < fields@.len() && #[trigger] fields@[i].0@ == name@,
{
    let mut i: usize = 0;
    while i < fields.len()
        invariant
            i <= fields@.len(),
            forall|k: int| 0 <= k < i ==> #[trigger] fields@[k].0@ != name@,
        decreases fields@.len() - i,
    {
        if same_text(fields[i].0.as_str(), name) {
            return true;
        }
        i += 1;
    }
    false
}

/// The document of `serde_json` that says what `j` says.
pub fn json_to_value(j: Json) -> (r: serde_json::Value)
    ensures
        value_view(r) == j@,
    decreases j,
{
    match j {
        Json::Null => close_value(JsonNode::Null),
        Json::Bool(b) => close_value(JsonNode::Bool(b)),
        Json::Number(n) => close_value(JsonNode::Number(n)),
        Json::Text(s) => close_value(JsonNode::Text(s)),
        Json::Array(items) => {
            let mut out: Vec<serde_json::Value> = Vec::new();
            let ghost all = items@;
            for item in it: items
                invariant
                    it.seq() == all,
                    decreases_to!(j => all),
                    out@.map_values(|v: serde_json::Value| value_view(v)) == items_view(
                        all.take(it.index() as int),
                    ),
            {
                let ghost k = it.index() as int;
                assert(all[k] == item);
                assert(decreases_to!(all => all[k]));
                out.push(json_to_value(item));
                assert(all.take(k + 1).drop_last() == all.take(k));
            }
            assert(all.take(all.len() as int) == all);
            close_value(JsonNode::Array(out))
        },
        Json::Object(fields) => {
            let mut fields = fields;
            let mut out: Vec<(String, serde_json::Value)> = Vec::new();
            let ghost all = fields@;
            assert(fields_view(all) == fields_view(all).union_prefer_right(value_fields(out@)));
            while fields.len() > 0
                invariant
                    fields@.len() <= all.len(),
                    fields@ == all.take(fields@.len() as int),
                    decreases_to!(j => all),
                    distinct_names(out@),
                    fields_view(all) == fields_view(fields@).union_prefer_right(value_fields(out@)),
                decreases fields@.len(),
            {
                let ghost before = fields@;
                let ghost done = out@;
                let last = fields.pop();
                if let Some((name, value)) = last {
                    proof {
                        let k = before.len() - 1;
                        assert(all[k] == before.last());
                        assert(decreases_to!(all => all[k]));
                        assert(decreases_to!(all[k] => all[k].1));
                        assert(fields@ == before.drop_last());
                        assert(fields_view(before) == fields_view(fields@).insert(name@, value@));
                        lemma_names(done);
                    }
                    if !has_name(&out, name.as_str()) {
                        let v = json_to_value(value);
                        out.push((name, v));
                        assert(out@.drop_last() == done);
                        assert(value_fields(out@) == value_fields(done).insert(name@, value@));
                    }
                    assert(fields_view(all) == fields_view(fields@).union_prefer_right(
                        value_fields(out@),
                    ));
                }
            }
            assert(fields_view(fields@) == Map::<Seq<char>, JsonView>::empty());
            assert(fields_view(all) == value_fields(out@));
            close_value(JsonNode::Object(out))
        },
    }
}

/// A field that none with its name follows is what an object says under that name.
pub proof fn lemma_last_field(fields: Seq<(String, Json)>, i: int)
    requires
        0 <= i < fields.len(),
        forall|k: int| i < k < fields.len() ==> #[trigger] fields[k].0@ != fields[i].0@,
    ensures
        fields_view(fields).dom().contains(fields[i].0@),
        fields_view(fields)[fields[i].0@] == fields[i].1@,
    decreases fields.len(),
{
    if i < fields.len() - 1 {
        let rest = fields.drop_last();
        assert forall|k: int| i < k < rest.len() implies #[trigger] rest[k].0@ != rest[i].0@ by {
            assert(fields[k].0@ != fields[i].0@);
        }
        lemma_last_field(rest, i);
        assert(fields[fields.len() - 1].0@ != fields[i].0@);
    }
}

/// What an object says under a name stands in a field that none with that name follows.
proof fn lemma_field_of_name(fields: Seq<(String, Json)>, name: Seq<char>) -> (i: int)
    requires
        fields_view(fields).dom().contains(name),
    ensures
        0 <= i < fields.len(),
        fields[i].0@ == name,
        fields_view(fields)[name] == fields[i].1@,
        forall|k: int| i < k < fields.len() ==> #[trigger] fields[k].0@ != name,
    decreases fields.len(),
{
    if fields.last().0@ == name {
        fields.len() - 1
    } else {
        let rest = fields.drop_last();
        let i = lemma_field_of_name(rest, name);
        assert forall|k: int| i < k < fields.len() implies #[trigger] fields[k].0@ != name by {
            if k < rest.len() {
                assert(rest[k].0@ != name);
            }
        }
        i
    }
}

/// Whether a field behind the one at `i` has its name.
fn is_shadowed(fields: &Vec<(String, Json)>, i: usize) -> (r: bool)
    requires
        i < fields@.len(),
    ensures
        !r <==> forall|k: int| i < k < fields@.len() ==> #[trigger] fields@[k].0@ != fields@[i as int].0@,
{
    let n: usize = fields.len();
    let mut k: usize = i + 1;
    while k < n
        invariant
            n == fields@.len(),
            i < k <= n,
            forall|m: int| i < m < k ==> #[trigger] fields@[m].0@ != fields@[i as int].0@,
        decreases n - k,
    {
        if same_text(fields[k].0.as_str(), fields[i].0.as_str()) {
            assert(fields@[k as int].0@ == fields@[i as int].0@);
            return true;
        }
        k += 1;
    }
    false
}

/// An array can be restored only where each of its items can.
proof fn lemma_restorable_array(items: Seq<JsonView>, depth: nat, i: int)
    requires
        depth > 0,
        0 <= i < items.len(),
        !restorable(items[i], (depth - 1) as nat),
    ensures
        !restorable(JsonView::Array(items), depth),
{
    if restorable(JsonView::Array(items), depth) {
        assert(JsonView::Array(items)->Array_0 == items);
        assert(restorable(items[i], (depth - 1) as nat));
    }
}

/// An object can be restored only where each of its fields can.
proof fn lemma_restorable_object(fields: Map<Seq<char>, JsonView>, depth: nat, name: Seq<char>)
    requires
        depth > 0,
        fields.dom().contains(name),
        !restorable(fields[name], (depth - 1) as nat),
    ensures
        !restorable(JsonView::Object(fields), depth),
{
    if restorable(JsonView::Object(fields), depth) {
        assert(JsonView::Object(fields)->Object_0 == fields);
        assert(restorable(fields[name], (depth - 1) as nat));
    }
}

/// Whether a document can be restored from its text: it holds no numbers but integers, and nests at
/// most `depth` levels deep.
pub fn is_restorable(j: &Json, depth: usize) -> (r: bool)
    ensures
        r == restorable(j@, depth as nat),
    decreases j,
{
    match j {
        Json::Null | Json::Bool(_) | Json::Text(_) => true,
        Json::Number(n) => integer_of(n).is_some(),
        Json::Array(items) => {
            if depth == 0 {
                return false;
            }
            proof {
                lemma_items_view(items@);
            }
            let ghost views = items_view(items@);
            let mut i: usize = 0;
            while i < items.len()
                invariant
                    depth > 0,
                    i <= items@.len(),
                    decreases_to!(*j => items@),
                    j@ == JsonView::Array(views),
                    views.len() == items@.len(),
                    forall|k: int| 0 <= k < items@.len() ==> #[trigger] views[k] == items@[k]@,
                    forall|k: int| 0 <= k < i ==> restorable(#[trigger] views[k], (depth - 1) as nat),
                decreases items@.len() - i,
            {
                assert(decreases_to!(items@ => items@[i as int]));
                if !is_restorable(&items[i], depth - 1) {
                    proof {
                        lemma_restorable_array(views, depth as nat, i as int);
                    }
                    return false;
                }
                i += 1;
            }
            true
        },
        Json::Object(fields) => {
            if depth == 0 {
                return false;
            }
            let ghost map = fields_view(fields@);
            let mut i: usize = 0;
            while i < fields.len()
                invariant
                    depth > 0,
                    i <= fields@.len(),
                    decreases_to!(*j => fields@),
                    j@ == JsonView::Object(map),
                    map == fields_view(fields@),
                    forall|k: int|
                        0 <= k < i && (forall|m: int|
                            k < m < fields@.len() ==> #[trigger] fields@[m].0@ != fields@[k].0@)
                            ==> restorable((#[trigger] fields@[k]).1@, (depth - 1) as nat),
                decreases fields@.len() - i,
            {
                assert(decreases_to!(fields@ => fields@[i as int]));
                assert(decreases_to!(fields@[i as int] => fields@[i as int].1));
                if !is_shadowed(fields, i) && !is_restorable(&fields[i].1, depth - 1) {
                    proof {
                        lemma_last_field(fields@, i as int);
                        assert(map.dom().contains(fields@[i as int].0@));
                        lemma_restorable_object(map, depth as nat, fields@[i as int].0@);
                    }
                    return false;
                }
                i += 1;
            }
            proof {
                assert forall|name: Seq<char>| #[trigger] map.dom().contains(name) implies restorable(
                    map[name],
                    (depth - 1) as nat,
                ) by {
                    let k = lemma_field_of_name(fields@, name);
                    assert(fields@[k].0@ == name);
                }
            }
            true
        },
    }
}

/// Reads JSON text.
pub fn read_json(bytes: &[u8]) -> (r: Result<Json, serde_json::Error>)
    ensures
        match r {
            Ok(j) => json_document(bytes@) == Some(j@),
            Err(_) => json_document(bytes@) is None,
        },
{
    match value_from_slice(bytes) {
        Ok(v) => Ok(json_from_value(v)),
        Err(e) => Err(e),
    }
}

/// Writes JSON text.
pub fn write_json(j: Json) -> (r: Result<Vec<u8>, serde_json::Error>)
    ensures
        r matches Ok(b) && b@ == json_encoding(j@),
        r matches Ok(b) && b@.len() > 0 && !ascii_white_space(b@[0]),
        r matches Ok(b) && (restorable(j@, 127) ==> json_document(b@) == Some(j@)),
{
    let v = json_to_value(j);
    value_to_vec(&v)
}

/// What can be restored: everything but numbers that are no integers, in arrays and objects within
/// `depth` levels.
pub proof fn law_restorable(j: JsonView, depth: nat)
    ensures
        match j {
            JsonView::Null | JsonView::Bool(_) | JsonView::Text(_) => restorable(j, depth),
            JsonView::Number(n) => restorable(j, depth) <==> number_integer(n) is Some,
            JsonView::Array(_) | JsonView::Object(_) => restorable(j, 0) == false,
        },
        j matches JsonView::Array(items) ==> (restorable(j, depth + 1) <==> forall|i: int|
            0 <= i < items.len() ==> restorable(#[trigger] items[i], depth)),
        j matches JsonView::Object(fields) ==> (restorable(j, depth + 1) <==> forall|k: Seq<char>|
         #[trigger]
            fields.dom().contains(k) ==> restorable(fields[k], depth)),
{
    assert((depth + 1 - 1) as nat == depth);
    match j {
        JsonView::Array(items) => {
            if restorable(j, depth + 1) {
                assert forall|i: int| 0 <= i < items.len() implies restorable(
                    #[trigger] items[i],
                    depth,
                ) by {
                    if !restorable(items[i], depth) {
                        lemma_restorable_array(items, depth + 1, i);
                    }
                }
            }
        },
        JsonView::Object(fields) => {
            if restorable(j, depth + 1) {
                assert forall|k: Seq<char>| #[trigger] fields.dom().contains(k) implies restorable(
                    fields[k],
                    depth,
                ) by {
                    if !restorable(fields[k], depth) {
                        lemma_restorable_object(fields, depth + 1, k);
                    }
                }
            }
        },
        _ => {},
    }
}

} // verus!
