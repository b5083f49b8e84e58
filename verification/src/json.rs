//! JSON values: what `serde_json` is trusted with, and the few rules that the
//! library has for them.

use vstd::prelude::*;

use serde_json::{Number, Value};

use crate::text::{decimal_text, same_text};

verus! {

/// What a JSON number stands for.
pub struct NumberView {
    /// The number, where it is a natural one that fits.
    pub natural: Option<u64>,
    /// The number as it is printed.
    pub text: Seq<char>,
}

/// What a JSON value stands for.
pub enum Json {
    /// `null`.
    Null,
    /// `true` or `false`.
    Bool(bool),
    /// A number.
    Number(NumberView),
    /// A string.
    Text(Seq<char>),
    /// A list of values.
    Array(Seq<Json>),
    /// Named values.
    Object(Map<Seq<char>, Json>),
}

/// A JSON value of `serde_json`, known by what it stands for.
#[verifier::external_type_specification]
#[verifier::external_body]
pub struct ExValue(Value);

/// A JSON number of `serde_json`.
#[verifier::external_type_specification]
#[verifier::external_body]
pub struct ExNumber(Number);

/// The fields of a JSON object of `serde_json`.
#[verifier::external_type_specification]
#[verifier::external_body]
#[verifier::reject_recursive_types(K)]
#[verifier::reject_recursive_types(V)]
pub struct ExFields<K, V>(serde_json::Map<K, V>);

/// What a value stands for.
pub uninterp spec fn json_of(value: Value) -> Json;

/// What a number stands for.
pub uninterp spec fn number_of(number: Number) -> NumberView;

/// What the fields of an object stand for.
pub uninterp spec fn fields_of(fields: serde_json::Map<String, Value>) -> Map<Seq<char>, Json>;

/// No field at all.
pub open spec fn no_fields() -> Map<Seq<char>, Json> {
    Map::empty()
}

/// What values stand for.
pub open spec fn json_seq(values: Seq<Value>) -> Seq<Json> {
    values.map_values(|value: Value| json_of(value))
}

/// The outermost layer of a JSON value.
pub enum Node {
    /// `null`.
    Null,
    /// `true` or `false`.
    Bool(bool),
    /// A number.
    Number(Number),
    /// A string.
    Text(String),
    /// A list of values.
    Array(Vec<Value>),
    /// Named values.
    Object(serde_json::Map<String, Value>),
}

impl View for Node {
    type V = Json;

    open spec fn view(&self) -> Json {
        match *self {
            Node::Null => Json::Null,
            Node::Bool(b) => Json::Bool(b),
            Node::Number(n) => Json::Number(number_of(n)),
            Node::Text(s) => Json::Text(s@),
            Node::Array(items) => Json::Array(json_seq(items@)),
            Node::Object(fields) => Json::Object(fields_of(fields)),
        }
    }
}

/// The variants of `serde_json::Value`, taken apart: a value is its outermost
/// layer.
#[verifier::external_body]
pub(crate) fn node_of(value: Value) -> (r: Node)
    ensures
        r@ == json_of(value),
{
    match value {
        Value::Null => Node::Null,
        Value::Bool(b) => Node::Bool(b),
        Value::Number(n) => Node::Number(n),
        Value::String(s) => Node::Text(s),
        Value::Array(items) => Node::Array(items),
        Value::Object(fields) => Node::Object(fields),
    }
}

/// The variants of `serde_json::Value`, put together: the outermost layer makes
/// the value.
#[verifier::external_body]
pub(crate) fn value_of(node: Node) -> (r: Value)
    ensures
        json_of(r) == node@,
{
    match node {
        Node::Null => Value::Null,
        Node::Bool(b) => Value::Bool(b),
        Node::Number(n) => Value::Number(n),
        Node::Text(s) => Value::String(s),
        Node::Array(items) => Value::Array(items),
        Node::Object(fields) => Value::Object(fields),
    }
}

/// `Value::clone`: stands for the same.
pub assume_specification[ <Value as Clone>::clone ](value: &Value) -> (r: Value)
    ensures
        json_of(r) == json_of(*value),
;

/// `serde_json::Number::from`: the number itself, printed in decimal.
#[verifier::external_body]
pub(crate) fn number_from(n: u64) -> (r: Number)
    ensures
        number_of(r) == natural_number(n),
{
    Number::from(n)
}

/// `serde_json::Number::as_u64`: the number, where it is a natural one that
/// fits.
#[verifier::external_body]
pub(crate) fn number_as_u64(number: &Number) -> (r: Option<u64>)
    ensures
        r == number_of(*number).natural,
{
    number.as_u64()
}

/// `serde_json::Map::new`: no fields.
#[verifier::external_body]
pub(crate) fn fields_new() -> (r: serde_json::Map<String, Value>)
    ensures
        fields_of(r) == no_fields(),
{
    serde_json::Map::new()
}

/// `serde_json::Map::insert`: the name stands for the value from now on.
#[verifier::external_body]
pub(crate) fn fields_insert(
    fields: &mut serde_json::Map<String, Value>,
    name: String,
    value: Value,
)
    ensures
        fields_of(*final(fields)) == fields_of(*old(fields)).insert(name@, json_of(value)),
{
    fields.insert(name, value);
}

/// `serde_json::Map::get`: a copy of what the name stands for.
#[verifier::external_body]
pub(crate) fn fields_get(fields: &serde_json::Map<String, Value>, name: &str) -> (r: Option<Value>)
    ensures
        r is Some <==> fields_of(*fields).contains_key(name@),
        r matches Some(value) ==> json_of(value) == fields_of(*fields)[name@],
{
    fields.get(name).cloned()
}

/// `serde_json::Map::iter`: a copy of every field, each once, in some order.
#[verifier::external_body]
pub(crate) fn fields_entries(fields: &serde_json::Map<String, Value>) -> (r: Vec<(String, Value)>)
    ensures
        forall|i: int|
            0 <= i < r.len() ==> fields_of(*fields).contains_key((#[trigger] r[i]).0@) && json_of(
                r[i].1,
            ) == fields_of(*fields)[r[i].0@],
        forall|i: int, j: int|
            0 <= i < j < r.len() ==> (#[trigger] r[i]).0@ != (#[trigger] r[j]).0@,
        forall|name: Seq<char>| #[trigger]
            fields_of(*fields).contains_key(name) ==> exists|i: int|
                0 <= i < r.len() && (#[trigger] r[i]).0@ == name,
{
    fields.iter().map(|(name, value)| (name.clone(), value.clone())).collect()
}

/// What a natural number is as a JSON number.
pub open spec fn natural_number(n: u64) -> NumberView {
    NumberView { natural: Some(n), text: decimal_text(n as nat) }
}

/// A JSON string.
pub(crate) fn json_text(text: &str) -> (r: Value)
    ensures
        json_of(r) == Json::Text(text@),
{
    value_of(Node::Text(text.to_string()))
}

/// A JSON number.
pub(crate) fn json_natural(n: u64) -> (r: Value)
    ensures
        json_of(r) == Json::Number(natural_number(n)),
{
    value_of(Node::Number(number_from(n)))
}

/// A JSON object with one field replaced or added; any other value as it is.
pub open spec fn with_field(json: Json, name: Seq<char>, value: Json) -> Json {
    match json {
        Json::Object(fields) => Json::Object(fields.insert(name, value)),
        _ => json,
    }
}

/// A JSON object with one field added, unless it has one of that name; any
/// other value as it is.
pub open spec fn with_default(json: Json, name: Seq<char>, value: Json) -> Json {
    match json {
        Json::Object(fields) => if fields.contains_key(name) {
            json
        } else {
            with_field(json, name, value)
        },
        _ => json,
    }
}

/// Forces `"stream": true` into a payload.
pub fn streaming(payload: Value) -> (r: Value)
    ensures
        json_of(r) == with_field(json_of(payload), "stream"@, Json::Bool(true)),
{
    match node_of(payload) {
        Node::Object(mut fields) => {
            fields_insert(&mut fields, "stream".to_string(), value_of(Node::Bool(true)));
            value_of(Node::Object(fields))
        },
        other => value_of(other),
    }
}

/// Strict mode requires `additionalProperties: false` on objects.
pub fn strict_schema(schema: Value) -> (r: Value)
    ensures
        json_of(r) == with_default(
            json_of(schema),
            "additionalProperties"@,
            Json::Bool(false),
        ),
{
    match node_of(schema) {
        Node::Object(mut fields) => {
            if fields_get(&fields, "additionalProperties").is_none() {
                fields_insert(
                    &mut fields,
                    "additionalProperties".to_string(),
                    value_of(Node::Bool(false)),
                );
            }
            value_of(Node::Object(fields))
        },
        other => value_of(other),
    }
}

/// The text of one content part, if it is a text part.
pub open spec fn part_text(part: Json) -> Option<Seq<char>> {
    match part {
        Json::Object(fields) => if fields.contains_key("type"@) && fields["type"@] == Json::Text(
            "text"@,
        ) && fields.contains_key("text"@) {
            match fields["text"@] {
                Json::Text(text) => Some(text),
                _ => None,
            }
        } else {
            None
        },
        _ => None,
    }
}

/// The texts of the text parts, one after the other; other parts are skipped.
pub open spec fn joined_parts(parts: Seq<Json>) -> Seq<char>
    decreases parts.len(),
{
    if parts.len() == 0 {
        Seq::empty()
    } else {
        joined_parts(parts.drop_last()) + match part_text(parts.last()) {
            Some(text) => text,
            None => Seq::empty(),
        }
    }
}

/// The text of a message's content: a plain string, or an array of content
/// parts, whose texts are joined. Nothing else is content.
pub open spec fn content_of(content: Json) -> Option<Seq<char>> {
    match content {
        Json::Text(text) => Some(text),
        Json::Array(parts) => Some(joined_parts(parts)),
        _ => None,
    }
}

fn text_in(fields: &serde_json::Map<String, Value>, name: &str) -> (r: Option<String>)
    ensures
        match r {
            Some(text) => fields_of(*fields).contains_key(name@) && fields_of(*fields)[name@]
                == Json::Text(text@),
            None => !fields_of(*fields).contains_key(name@) || fields_of(*fields)[name@] !is Text,
        },
{
    match fields_get(fields, name) {
        Some(value) => match node_of(value) {
            Node::Text(text) => Some(text),
            _ => None,
        },
        None => None,
    }
}

fn part_content(part: Value) -> (r: Option<String>)
    ensures
        crate::text::text_of(r) == part_text(json_of(part)),
{
    match node_of(part) {
        Node::Object(fields) => match text_in(&fields, "type") {
            Some(kind) => {
                if same_text(kind.as_str(), "text") {
                    text_in(&fields, "text")
                } else {
                    None
                }
            },
            None => None,
        },
        _ => None,
    }
}

/// The text of a message's content, which some providers send as a plain string
/// and others as an array of content parts.
pub fn content_text(content: Value) -> (r: Option<String>)
    ensures
        crate::text::text_of(r) == content_of(json_of(content)),
{
    match node_of(content) {
        Node::Text(text) => Some(text),
        Node::Array(parts) => {
            let ghost all = json_seq(parts@);
            let mut out: String = String::new();
            let mut i: usize = 0;
            assert(all.take(0) =~= Seq::<Json>::empty());
            assert(out@ =~= Seq::<char>::empty());
            while i < parts.len()
                invariant
                    i <= parts.len(),
                    all == json_seq(parts@),
                    out@ == joined_parts(all.take(i as int)),
                decreases parts.len() - i,
            {
                assert(all.take(i + 1).drop_last() =~= all.take(i as int));
                assert(all.take(i + 1).last() == json_of(parts[i as int]));
                let part: Option<String> = part_content(parts[i].clone());
                match part {
                    Some(text) => {
                        out = out.concat(text.as_str());
                    },
                    None => {
                        assert(out@ + Seq::<char>::empty() =~= out@);
                    },
                }
                i = i + 1;
            }
            assert(all.take(parts.len() as int) =~= all);
            Some(out)
        },
        _ => None,
    }
}

/// A plain string and a single text part carry the same content.
pub proof fn law_one_part_is_plain_text(text: Seq<char>, fields: Map<Seq<char>, Json>)
    requires
        fields.contains_key("type"@),
        fields["type"@] == Json::Text("text"@),
        fields.contains_key("text"@),
        fields["text"@] == Json::Text(text),
    ensures
        content_of(Json::Array(seq![Json::Object(fields)])) == content_of(Json::Text(text)),
{
    reveal_with_fuel(joined_parts, 2);
    let parts = seq![Json::Object(fields)];
    assert(parts.drop_last() =~= Seq::<Json>::empty());
    assert(joined_parts(parts) =~= text);
}

/// Parts that are not text leave no trace.
pub proof fn law_other_parts_are_skipped(left: Seq<Json>, part: Json, right: Seq<Json>)
    requires
        part_text(part) is None,
    ensures
        content_of(Json::Array(left + seq![part] + right)) == content_of(Json::Array(left + right)),
    decreases right.len(),
{
    if right.len() == 0 {
        assert(left + seq![part] + right =~= left.push(part));
        assert(left.push(part).drop_last() =~= left);
        assert(left + right =~= left);
        assert(joined_parts(left) + Seq::<char>::empty() =~= joined_parts(left));
    } else {
        law_other_parts_are_skipped(left, part, right.drop_last());
        assert((left + seq![part] + right).drop_last() =~= left + seq![part] + right.drop_last());
        assert((left + right).drop_last() =~= left + right.drop_last());
        assert((left + seq![part] + right).last() == right.last());
        assert((left + right).last() == right.last());
    }
}

/// A field that is put into an object is there with its value, and every other
/// field stays; where a value is no object nothing changes. A default gives way
/// to a field that is there.
pub proof fn law_field_is_put_in(
    fields: Map<Seq<char>, Json>,
    name: Seq<char>,
    value: Json,
    other: Seq<char>,
)
    ensures
        with_field(Json::Object(fields), name, value) matches Json::Object(next)
            && next.contains_key(name) && next[name] == value && (other != name ==> (
        next.contains_key(other) <==> fields.contains_key(other)) && (fields.contains_key(other)
            ==> next[other] == fields[other])),
        with_default(Json::Object(fields), name, value) matches Json::Object(next)
            && next.contains_key(name) && (fields.contains_key(name) ==> next == fields) && (
        !fields.contains_key(name) ==> next[name] == value) && (other != name ==> (
        next.contains_key(other) <==> fields.contains_key(other)) && (fields.contains_key(other)
            ==> next[other] == fields[other])),
        forall|json: Json| !(json is Object) ==> #[trigger] with_field(json, name, value) == json,
        forall|json: Json| !(json is Object) ==> #[trigger] with_default(json, name, value) == json,
{
}

/// What a content part says: only an object whose type is text says anything,
/// and that is its text.
pub proof fn law_text_part(part: Json)
    ensures
        part_text(part) is Some <==> (part matches Json::Object(fields) && fields.contains_key(
            "type"@,
        ) && fields["type"@] == Json::Text("text"@) && fields.contains_key("text"@)
            && fields["text"@] is Text),
        part_text(part) matches Some(text) ==> part->Object_0["text"@] == Json::Text(text),
{
}

/// Parts are read one after the other, in order, with nothing between them; a
/// string is its own content, and nothing but a string or parts has any.
pub proof fn law_parts_are_joined_in_order(left: Seq<Json>, right: Seq<Json>, text: Seq<char>)
    ensures
        content_of(Json::Array(left + right)) == Some(joined_parts(left) + joined_parts(right)),
        content_of(Json::Array(left)) == Some(joined_parts(left)),
        joined_parts(Seq::empty()) == Seq::<char>::empty(),
        left.len() == 1 && part_text(left[0]) is Some ==> joined_parts(left) == part_text(
            left[0],
        )->0,
        content_of(Json::Text(text)) == Some(text),
        content_of(Json::Null) is None,
        forall|json: Json|
            !(json is Text) && !(json is Array) ==> #[trigger] content_of(json) is None,
    decreases right.len(),
{
    reveal_with_fuel(joined_parts, 2);
    if left.len() == 1 {
        assert(left.drop_last() =~= Seq::<Json>::empty());
        assert(left.last() == left[0]);
        assert(Seq::<char>::empty() + part_text(left[0])->0 =~= part_text(left[0])->0);
    }
    if right.len() == 0 {
        assert(left + right =~= left);
        assert(joined_parts(left) + joined_parts(right) =~= joined_parts(left));
    } else {
        law_parts_are_joined_in_order(left, right.drop_last(), text);
        assert((left + right).drop_last() =~= left + right.drop_last());
        assert((left + right).last() == right.last());
        let said = match part_text(right.last()) {
            Some(text) => text,
            None => Seq::empty(),
        };
        assert(joined_parts(left) + joined_parts(right.drop_last()) + said =~= joined_parts(left) + (
        joined_parts(right.drop_last()) + said));
    }
}

/// A whole number is known by its value and written in decimal; the layers of a
/// value stand for what they hold.
pub proof fn law_layers(n: u64, values: Seq<Value>, i: int, text: String, flag: bool)
    ensures
        natural_number(n).natural == Some(n),
        natural_number(n).text == decimal_text(n as nat),
        json_seq(values).len() == values.len(),
        0 <= i < values.len() ==> json_seq(values)[i] == json_of(values[i]),
        Node::Text(text)@ == Json::Text(text@),
        Node::Bool(flag)@ == Json::Bool(flag),
        Node::Null@ == Json::Null,
        forall|name: Seq<char>| !#[trigger] no_fields().contains_key(name),
{
}

} // verus!
