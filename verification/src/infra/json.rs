//! Reading JSON values.

use vstd::prelude::*;

verus! {

/// A JSON value, as `serde_json` keeps it.
#[verifier::external_type_specification]
#[verifier::external_body]
pub struct ExJsonValue(serde_json::Value);

/// A step from a JSON value to one inside it: to a member of an object or an item of an array.
pub enum JsonStep {
    Key(Seq<char>),
    Item(int),
}

/// What stands at one place of a JSON value: of an array the number of its items. A number counts
/// as unsigned if it is an integer that is not negative and fits 64 bits.
pub enum JsonNode {
    Null,
    Bool(bool),
    Unsigned(u64),
    OtherNumber,
    Text(Seq<char>),
    Array(nat),
    Object,
}

/// What a JSON value holds: for each way from it to a value inside it, with no step for the
/// value itself, what stands there.
pub uninterp spec fn json_nodes(v: serde_json::Value) -> Map<Seq<JsonStep>, JsonNode>;

/// What `serde_json::from_str` reads in a text as a JSON value; nothing if the text is none.
pub uninterp spec fn json_read(text: Seq<char>) -> Option<Map<Seq<JsonStep>, JsonNode>>;

/// What the value holds to which one step leads.
pub open spec fn below(nodes: Map<Seq<JsonStep>, JsonNode>, step: JsonStep) -> Map<
    Seq<JsonStep>,
    JsonNode,
> {
    Map::new(|p: Seq<JsonStep>| nodes.contains_key(seq![step] + p), |p: Seq<JsonStep>| nodes[seq![step] + p])
}

/// What the value holds to which one step leads, if it leads anywhere.
pub open spec fn step_into(nodes: Map<Seq<JsonStep>, JsonNode>, step: JsonStep) -> Option<
    Map<Seq<JsonStep>, JsonNode>,
> {
    if nodes.contains_key(seq![step]) {
        Some(below(nodes, step))
    } else {
        None
    }
}

/// The text that a JSON value is, if it is one.
pub open spec fn text_at(nodes: Map<Seq<JsonStep>, JsonNode>) -> Option<Seq<char>> {
    match nodes[Seq::empty()] {
        JsonNode::Text(t) => Some(t),
        _ => None,
    }
}

/// The unsigned number that a JSON value is, if it is one.
pub open spec fn number_at(nodes: Map<Seq<JsonStep>, JsonNode>) -> Option<u64> {
    match nodes[Seq::empty()] {
        JsonNode::Unsigned(n) => Some(n),
        _ => None,
    }
}

/// What the items of an array hold, in order, if a JSON value is an array.
pub open spec fn items_at(nodes: Map<Seq<JsonStep>, JsonNode>) -> Option<
    Seq<Map<Seq<JsonStep>, JsonNode>>,
> {
    match nodes[Seq::empty()] {
        JsonNode::Array(n) => Some(Seq::new(n, |i: int| below(nodes, JsonStep::Item(i)))),
        _ => None,
    }
}

/// What each JSON value of a list holds.
pub open spec fn all_nodes(vs: Seq<serde_json::Value>) -> Seq<Map<Seq<JsonStep>, JsonNode>> {
    vs.map_values(|v: serde_json::Value| json_nodes(v))
}

/// What an optional JSON value holds.
pub open spec fn opt_nodes(v: Option<&serde_json::Value>) -> Option<Map<Seq<JsonStep>, JsonNode>> {
    match v {
        Some(x) => Some(json_nodes(*x)),
        None => None,
    }
}

/// Reads a text as a JSON value, by `serde_json::from_str`. What comes out depends on the text
/// alone.
#[verifier::external_body]
pub(crate) fn parse_json(text: &str) -> (r: Option<serde_json::Value>)
    ensures
        match r {
            Some(v) => json_read(text@) == Some(json_nodes(v)),
            None => json_read(text@) is None,
        },
{
    serde_json::from_str(text).ok()
}

/// The member `key` of a JSON object, by `serde_json::Value::get` with a string: nothing if the
/// value is no object or has no such member.
#[verifier::external_body]
pub(crate) fn member<'a>(v: &'a serde_json::Value, key: &str) -> (r: Option<&'a serde_json::Value>)
    ensures
        opt_nodes(r) == step_into(json_nodes(*v), JsonStep::Key(key@)),
{
    v.get(key)
}

/// The items of a JSON array, by `serde_json::Value::as_array`: nothing if the value is something
/// else.
#[verifier::external_body]
pub(crate) fn as_items(v: &serde_json::Value) -> (r: Option<&Vec<serde_json::Value>>)
    ensures
        match r {
            Some(items) => items_at(json_nodes(*v)) == Some(all_nodes(items@)),
            None => items_at(json_nodes(*v)) is None,
        },
{
    v.as_array()
}

/// The text that a JSON value is, by `serde_json::Value::as_str`: nothing if it is something else.
#[verifier::external_body]
pub(crate) fn as_text(v: &serde_json::Value) -> (r: Option<&str>)
    ensures
        match r {
            Some(t) => text_at(json_nodes(*v)) == Some(t@),
            None => text_at(json_nodes(*v)) is None,
        },
{
    v.as_str()
}

/// The unsigned number that a JSON value is, by `serde_json::Value::as_u64`: nothing if it is
/// something else.
#[verifier::external_body]
pub(crate) fn as_number(v: &serde_json::Value) -> (r: Option<u64>)
    ensures
        r == number_at(json_nodes(*v)),
{
    v.as_u64()
}

/// A digit in base sixteen, in lower case.
pub open spec fn hex_char(n: int) -> char {
    if n < 10 {
        (0x30 + n) as char
    } else {
        (0x57 + n) as char
    }
}

/// A character as it stands in a JSON string: quotes, backslashes and control characters are
/// escaped, all others stand for themselves.
pub open spec fn json_char(c: char) -> Seq<char> {
    if c == '"' || c == '\\' {
        seq!['\\', c]
    } else if c == '\n' {
        seq!['\\', 'n']
    } else if c == '\r' {
        seq!['\\', 'r']
    } else if c == '\t' {
        seq!['\\', 't']
    } else if c as int == 0x08 {
        seq!['\\', 'b']
    } else if c as int == 0x0c {
        seq!['\\', 'f']
    } else if (c as int) < 0x20 {
        seq!['\\', 'u', '0', '0', hex_char(c as int / 16), hex_char(c as int % 16)]
    } else {
        seq![c]
    }
}

/// The characters of a text as they stand in a JSON string.
pub open spec fn json_chars(text: Seq<char>) -> Seq<char>
    decreases text.len(),
{
    if text.len() == 0 {
        Seq::empty()
    } else {
        json_chars(text.drop_last()) + json_char(text.last())
    }
}

/// A text as a JSON string, in quotes.
pub open spec fn json_string(text: Seq<char>) -> Seq<char> {
    seq!['"'] + json_chars(text) + seq!['"']
}

/// A text as a JSON string, by `serde_json::Value::String` and its `Display`: in quotes, with
/// quotes, backslashes and the control characters below U+0020 escaped, and nothing else.
#[verifier::external_body]
pub(crate) fn quote_json(text: &str) -> (r: String)
    ensures
        r@ == json_string(text@),
{
    serde_json::Value::String(text.to_string()).to_string()
}

/// The text of the member `key`, if the value is an object with such a member that is a text.
pub open spec fn text_member(nodes: Map<Seq<JsonStep>, JsonNode>, key: Seq<char>) -> Option<
    Seq<char>,
> {
    match step_into(nodes, JsonStep::Key(key)) {
        Some(m) => text_at(m),
        None => None,
    }
}

/// The unsigned number of the member `key`, if the value is an object with such a member that is
/// an unsigned number.
pub open spec fn number_member(nodes: Map<Seq<JsonStep>, JsonNode>, key: Seq<char>) -> Option<u64> {
    match step_into(nodes, JsonStep::Key(key)) {
        Some(m) => number_at(m),
        None => None,
    }
}

/// The items of the member `key`, if the value is an object with such a member that is an array.
pub open spec fn items_member(nodes: Map<Seq<JsonStep>, JsonNode>, key: Seq<char>) -> Option<
    Seq<Map<Seq<JsonStep>, JsonNode>>,
> {
    match step_into(nodes, JsonStep::Key(key)) {
        Some(m) => items_at(m),
        None => None,
    }
}

/// The items of the member `key`, if there are any.
pub fn get_items<'a>(v: &'a serde_json::Value, key: &str) -> (r: Option<&'a Vec<serde_json::Value>>)
    ensures
        match r {
            Some(items) => items_member(json_nodes(*v), key@) == Some(all_nodes(items@)),
            None => items_member(json_nodes(*v), key@) is None,
        },
{
    match member(v, key) {
        Some(m) => as_items(m),
        None => None,
    }
}

/// The text of the member `key`, if there is one.
pub fn get_text(v: &serde_json::Value, key: &str) -> (r: Option<String>)
    ensures
        match r {
            Some(t) => text_member(json_nodes(*v), key@) == Some(t@),
            None => text_member(json_nodes(*v), key@) is None,
        },
{
    match member(v, key) {
        Some(m) => match as_text(m) {
            Some(t) => Some(t.to_owned()),
            None => None,
        },
        None => None,
    }
}

/// The unsigned number of the member `key`, if there is one.
pub fn get_number(v: &serde_json::Value, key: &str) -> (r: Option<u64>)
    ensures
        r == number_member(json_nodes(*v), key@),
{
    match member(v, key) {
        Some(m) => as_number(m),
        None => None,
    }
}

/// A member is read as the text or the number that stands under its key, and as nothing if
/// something else or nothing stands there.
pub proof fn law_members_are_what_stands_under_their_keys(
    nodes: Map<Seq<JsonStep>, JsonNode>,
    key: Seq<char>,
    text: Seq<char>,
    number: u64,
)
    ensures
        ({
            let at = seq![JsonStep::Key(key)];
            &&& text_member(nodes, key) == Some(text) <==> nodes.contains_key(at) && nodes[at]
                == JsonNode::Text(text)
            &&& number_member(nodes, key) == Some(number) <==> nodes.contains_key(at) && nodes[at]
                == JsonNode::Unsigned(number)
            &&& items_member(nodes, key) is Some <==> nodes.contains_key(at) && nodes[at] is Array
        }),
{
    let at = seq![JsonStep::Key(key)];
    assert(at + Seq::<JsonStep>::empty() =~= at);
}

/// The items of a member are as many as stand there, in order, each with all that it holds.
pub proof fn law_items_are_read_in_order(
    nodes: Map<Seq<JsonStep>, JsonNode>,
    key: Seq<char>,
    i: int,
    way: Seq<JsonStep>,
)
    requires
        items_member(nodes, key) is Some,
    ensures
        nodes[seq![JsonStep::Key(key)]] == JsonNode::Array(items_member(nodes, key)->0.len()),
        0 <= i < items_member(nodes, key)->0.len() ==> {
            let full = seq![JsonStep::Key(key), JsonStep::Item(i)] + way;
            &&& items_member(nodes, key)->0[i].contains_key(way) <==> nodes.contains_key(full)
            &&& nodes.contains_key(full) ==> items_member(nodes, key)->0[i][way] == nodes[full]
        },
{
    let at = seq![JsonStep::Key(key)];
    assert(at + Seq::<JsonStep>::empty() =~= at);
    assert(at + (seq![JsonStep::Item(i)] + way) =~= seq![JsonStep::Key(key), JsonStep::Item(i)]
        + way);
}

} // verus!
