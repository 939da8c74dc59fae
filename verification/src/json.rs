//! JSON values.

use vstd::prelude::*;
use vstd::string::*;

use crate::text;

verus! {

/// A JSON value as plain data. An object lists its members in the dictionary
/// order of their keys.
#[derive(Debug, PartialEq)]
pub enum Json {
    Null,
    Bool(bool),
    Number(serde_json::Number),
    Text(String),
    Array(Vec<Json>),
    Object(Vec<(String, Json)>),
}

/// The mathematical model of a JSON value. A number is its JSON text.
pub enum JsonTree {
    Null,
    Bool(bool),
    Number(Seq<char>),
    Text(Seq<char>),
    Array(Seq<JsonTree>),
    Object(Seq<(Seq<char>, JsonTree)>),
}

#[verifier::external_type_specification]
#[verifier::external_body]
pub struct ExNumber(serde_json::Number);

#[verifier::external_type_specification]
#[verifier::external_body]
pub struct ExValue(serde_json::Value);

/// The JSON text of a number.
pub uninterp spec fn number_text(n: serde_json::Number) -> Seq<char>;

impl Json {
    /// What the value holds.
    pub open spec fn tree(self) -> JsonTree
        decreases self,
    {
        match self {
            Json::Null => JsonTree::Null,
            Json::Bool(b) => JsonTree::Bool(b),
            Json::Number(n) => JsonTree::Number(number_text(n)),
            Json::Text(s) => JsonTree::Text(s@),
            Json::Array(v) => JsonTree::Array(
                Seq::new(
                    v@.len(),
                    |i: int|
                        if 0 <= i < v@.len() {
                            v@[i].tree()
                        } else {
                            JsonTree::Null
                        },
                ),
            ),
            Json::Object(m) => JsonTree::Object(
                Seq::new(
                    m@.len(),
                    |i: int|
                        if 0 <= i < m@.len() {
                            (m@[i].0@, m@[i].1.tree())
                        } else {
                            (Seq::empty(), JsonTree::Null)
                        },
                ),
            ),
        }
    }
}

/// `serde_json::Number::clone` gives a number with the same JSON text.
pub assume_specification[ <serde_json::Number as Clone>::clone ](
    n: &serde_json::Number,
) -> (r: serde_json::Number)
    ensures
        number_text(r) == number_text(*n),
;

impl Clone for Json {
    fn clone(&self) -> (r: Json)
        ensures
            r.tree() == self.tree(),
        decreases self,
    {
        match self {
            Json::Null => Json::Null,
            Json::Bool(b) => Json::Bool(*b),
            Json::Number(n) => Json::Number(n.clone()),
            Json::Text(s) => Json::Text(s.clone()),
            Json::Array(v) => {
                let mut out: Vec<Json> = Vec::new();
                let mut i: usize = 0;
                while i < v.len()
                    invariant
                        i <= v@.len(),
                        self is Array && self->Array_0 == v,
                        out@.len() == i,
                        forall|k: int| 0 <= k < i ==> (#[trigger] out@[k]).tree() == v@[k].tree(),
                    decreases v@.len() - i,
                {
                    let item = v[i].clone();
                    out.push(item);
                    i += 1;
                }
                let r = Json::Array(out);
                assert(r.tree()->Array_0 =~= self.tree()->Array_0);
                r
            },
            Json::Object(m) => {
                let mut out: Vec<(String, Json)> = Vec::new();
                let mut i: usize = 0;
                while i < m.len()
                    invariant
                        i <= m@.len(),
                        self is Object && self->Object_0 == m,
                        out@.len() == i,
                        forall|k: int|
                            0 <= k < i ==> (#[trigger] out@[k]).0@ == m@[k].0@ && out@[k].1.tree()
                                == m@[k].1.tree(),
                    decreases m@.len() - i,
                {
                    let key = m[i].0.clone();
                    let item = m[i].1.clone();
                    out.push((key, item));
                    i += 1;
                }
                let r = Json::Object(out);
                assert(r.tree()->Object_0 =~= self.tree()->Object_0);
                r
            },
        }
    }
}

/// Calls `serde_json::Number::from` on an unsigned integer, whose JSON text is
/// its decimal form.
#[verifier::external_body]
pub(crate) fn number_from(n: u64) -> (r: serde_json::Number)
    ensures
        number_text(r) == text::decimal(n as nat),
{
    serde_json::Number::from(n)
}

/// The keys of an object stand in dictionary order, each of them once.
pub open spec fn keys_in_order(members: Seq<(Seq<char>, JsonTree)>) -> bool {
    forall|i: int, j: int|
        0 <= i < j < members.len() ==> text::precedes(
            #[trigger] members[i].0,
            #[trigger] members[j].0,
        )
}

/// Every object in the tree lists its members in key order.
pub open spec fn ordered(t: JsonTree) -> bool
    decreases t,
{
    match t {
        JsonTree::Array(items) => forall|i: int|
            0 <= i < items.len() ==> ordered(#[trigger] items[i]),
        JsonTree::Object(members) => keys_in_order(members) && forall|i: int|
            0 <= i < members.len() ==> ordered((#[trigger] members[i]).1),
        _ => true,
    }
}

// ---------------------------------------------------------------------------
// serde_json
// ---------------------------------------------------------------------------

/// One level of a `serde_json::Value`.
pub enum JsonNode {
    Null,
    Bool(bool),
    Number(serde_json::Number),
    Text(String),
    Array(Vec<serde_json::Value>),
    Object(Vec<(String, serde_json::Value)>),
}

/// What a `serde_json::Value` holds.
pub uninterp spec fn value_tree(v: serde_json::Value) -> JsonTree;

/// What `serde_json::from_slice` reads from a JSON text, `None` where it
/// refuses the text.
pub uninterp spec fn parsed(bytes: Seq<u8>) -> Option<JsonTree>;

/// What `serde_json::Value`'s `Display` prints of a value that holds `t`.
pub uninterp spec fn printed(t: JsonTree) -> Seq<char>;

impl JsonNode {
    /// What the level and everything under it holds.
    pub open spec fn tree(self) -> JsonTree {
        match self {
            JsonNode::Null => JsonTree::Null,
            JsonNode::Bool(b) => JsonTree::Bool(b),
            JsonNode::Number(n) => JsonTree::Number(number_text(n)),
            JsonNode::Text(s) => JsonTree::Text(s@),
            JsonNode::Array(v) => JsonTree::Array(
                Seq::new(v@.len(), |i: int| value_tree(v@[i])),
            ),
            JsonNode::Object(m) => JsonTree::Object(
                Seq::new(m@.len(), |i: int| (m@[i].0@, value_tree(m@[i].1))),
            ),
        }
    }
}

/// Takes one level off a `serde_json::Value` by matching on its variants. A
/// `serde_json::Map` is a `BTreeMap`, so the members come in key order.
#[verifier::external_body]
fn open_value(v: serde_json::Value) -> (r: JsonNode)
    ensures
        r.tree() == value_tree(v),
        r matches JsonNode::Object(_) ==> keys_in_order(r.tree()->Object_0),
{
    match v {
        serde_json::Value::Null => JsonNode::Null,
        serde_json::Value::Bool(b) => JsonNode::Bool(b),
        serde_json::Value::Number(n) => JsonNode::Number(n),
        serde_json::Value::String(s) => JsonNode::Text(s),
        serde_json::Value::Array(v) => JsonNode::Array(v),
        serde_json::Value::Object(m) => JsonNode::Object(m.into_iter().collect()),
    }
}

/// Puts one level back into a `serde_json::Value`. The members are in key
/// order already, so the `BTreeMap` behind `serde_json::Map` lists them as
/// they come.
#[verifier::external_body]
fn close_value(node: JsonNode) -> (r: serde_json::Value)
    requires
        node matches JsonNode::Object(_) ==> keys_in_order(node.tree()->Object_0),
    ensures
        value_tree(r) == node.tree(),
{
    match node {
        JsonNode::Null => serde_json::Value::Null,
        JsonNode::Bool(b) => serde_json::Value::Bool(b),
        JsonNode::Number(n) => serde_json::Value::Number(n),
        JsonNode::Text(s) => serde_json::Value::String(s),
        JsonNode::Array(v) => serde_json::Value::Array(v),
        JsonNode::Object(m) => serde_json::Value::Object(m.into_iter().collect()),
    }
}

/// Calls `serde_json::from_slice` for a `serde_json::Value`.
#[verifier::external_body]
fn parse_value(bytes: &[u8]) -> (r: Option<serde_json::Value>)
    ensures
        r is Some <==> parsed(bytes@) is Some,
        r matches Some(v) ==> parsed(bytes@) == Some(value_tree(v)),
{
    serde_json::from_slice::<serde_json::Value>(bytes).ok()
}

/// Prints a `serde_json::Value` with its `Display`: compact JSON text, in
/// which a control character stands only as an escape.
#[verifier::external_body]
fn print_value(v: &serde_json::Value) -> (r: String)
    ensures
        r@ == printed(value_tree(*v)),
        forall|i: int| 0 <= i < r@.len() ==> #[trigger] r@[i] as u32 >= 0x20,
{
    v.to_string()
}

impl Json {
    /// The value that a `serde_json::Value` holds.
    pub fn from_value(v: serde_json::Value) -> (r: Json)
        ensures
            r.tree() == value_tree(v),
            ordered(r.tree()),
        decreases value_tree(v),
    {
        let ghost whole = value_tree(v);
        match open_value(v) {
            JsonNode::Null => Json::Null,
            JsonNode::Bool(b) => Json::Bool(b),
            JsonNode::Number(n) => Json::Number(n),
            JsonNode::Text(s) => Json::Text(s),
            JsonNode::Array(items) => {
                let mut out: Vec<Json> = Vec::new();
                for item in it: items
                    invariant
                        it.seq() == items@,
                        whole == value_tree(v),
                        whole is Array,
                        whole->Array_0 =~= Seq::new(items@.len(), |i: int| value_tree(items@[i])),
                        out@.len() == it.index(),
                        forall|k: int|
                            0 <= k < out@.len() ==> (#[trigger] out@[k]).tree() == value_tree(
                                items@[k],
                            ) && ordered(out@[k].tree()),
                {
                    assert(whole->Array_0[it.index() as int] == value_tree(item));
                    assert(decreases_to!(whole => whole->Array_0[it.index() as int]));
                    let j = Json::from_value(item);
                    out.push(j);
                }
                let r = Json::Array(out);
                assert(r.tree()->Array_0 =~= whole->Array_0);
                r
            },
            JsonNode::Object(members) => {
                let mut out: Vec<(String, Json)> = Vec::new();
                for member in it: members
                    invariant
                        it.seq() == members@,
                        whole == value_tree(v),
                        whole is Object,
                        whole->Object_0 =~= Seq::new(
                            members@.len(),
                            |i: int| (members@[i].0@, value_tree(members@[i].1)),
                        ),
                        out@.len() == it.index(),
                        forall|k: int|
                            0 <= k < out@.len() ==> (#[trigger] out@[k]).0@ == members@[k].0@
                                && out@[k].1.tree() == value_tree(members@[k].1) && ordered(
                                out@[k].1.tree(),
                            ),
                {
                    assert(whole->Object_0[it.index() as int] == (
                        member.0@,
                        value_tree(member.1),
                    ));
                    assert(decreases_to!(whole => whole->Object_0[it.index() as int].1));
                    let (key, value) = member;
                    let j = Json::from_value(value);
                    out.push((key, j));
                }
                let r = Json::Object(out);
                assert(r.tree()->Object_0 =~= whole->Object_0);
                r
            },
        }
    }
}

impl Json {
    /// The `serde_json::Value` that holds the same value.
    pub fn to_value(&self) -> (r: serde_json::Value)
        requires
            ordered(self.tree()),
        ensures
            value_tree(r) == self.tree(),
        decreases self,
    {
        match self {
            Json::Null => close_value(JsonNode::Null),
            Json::Bool(b) => close_value(JsonNode::Bool(*b)),
            Json::Number(n) => close_value(JsonNode::Number(n.clone())),
            Json::Text(s) => close_value(JsonNode::Text(s.clone())),
            Json::Array(v) => {
                let mut out: Vec<serde_json::Value> = Vec::new();
                let mut i: usize = 0;
                while i < v.len()
                    invariant
                        i <= v@.len(),
                        self is Array && self->Array_0 == v,
                        ordered(self.tree()),
                        out@.len() == i,
                        forall|k: int| 0 <= k < i ==> value_tree(#[trigger] out@[k]) == v@[k].tree(),
                    decreases v@.len() - i,
                {
                    assert(self.tree()->Array_0[i as int] == v@[i as int].tree());
                    let item = v[i].to_value();
                    out.push(item);
                    i += 1;
                }
                let node = JsonNode::Array(out);
                assert(node.tree()->Array_0 =~= self.tree()->Array_0);
                close_value(node)
            },
            Json::Object(m) => {
                let mut out: Vec<(String, serde_json::Value)> = Vec::new();
                let mut i: usize = 0;
                while i < m.len()
                    invariant
                        i <= m@.len(),
                        self is Object && self->Object_0 == m,
                        ordered(self.tree()),
                        out@.len() == i,
                        forall|k: int|
                            0 <= k < i ==> (#[trigger] out@[k]).0@ == m@[k].0@ && value_tree(
                                out@[k].1,
                            ) == m@[k].1.tree(),
                    decreases m@.len() - i,
                {
                    assert(self.tree()->Object_0[i as int].1 == m@[i as int].1.tree());
                    let key = m[i].0.clone();
                    let item = m[i].1.to_value();
                    out.push((key, item));
                    i += 1;
                }
                let node = JsonNode::Object(out);
                assert(node.tree()->Object_0 =~= self.tree()->Object_0);
                close_value(node)
            },
        }
    }

    /// Reads a JSON text.
    pub fn parse(bytes: &[u8]) -> (r: Option<Json>)
        ensures
            r is Some <==> parsed(bytes@) is Some,
            r matches Some(j) ==> parsed(bytes@) == Some(j.tree()) && ordered(j.tree()),
    {
        match parse_value(bytes) {
            Some(v) => Some(Json::from_value(v)),
            None => None,
        }
    }

    /// The value as compact JSON text.
    pub fn to_text(&self) -> (r: String)
        requires
            ordered(self.tree()),
        ensures
            r@ == printed(self.tree()),
            forall|i: int| 0 <= i < r@.len() ==> #[trigger] r@[i] as u32 >= 0x20,
    {
        let v = self.to_value();
        print_value(&v)
    }

    /// Whether the value is an object or an array.
    pub fn is_container(&self) -> (r: bool)
        ensures
            r == is_container(self.tree()),
    {
        match self {
            Json::Array(_) => true,
            Json::Object(_) => true,
            _ => false,
        }
    }

    /// The member of an object under `key`.
    pub fn get(&self, key: &str) -> (r: Option<&Json>)
        ensures
            r is Some <==> member(self.tree(), key@) is Some,
            r matches Some(j) ==> member(self.tree(), key@) == Some(j.tree()),
    {
        match self {
            Json::Object(m) => {
                let ghost all = self.tree()->Object_0;
                proof {
                    assert(all.skip(0) =~= all);
                }
                let mut i: usize = 0;
                while i < m.len()
                    invariant
                        i <= m@.len(),
                        self is Object && self->Object_0 == m,
                        all == self.tree()->Object_0,
                        lookup(all, key@) == lookup(all.skip(i as int), key@),
                    decreases m@.len() - i,
                {
                    assert(all[i as int] == (m@[i as int].0@, m@[i as int].1.tree()));
                    if text::same(m[i].0.as_str(), key) {
                        return Some(&m[i].1);
                    }
                    proof {
                        assert(all.skip(i as int).drop_first() =~= all.skip(i + 1));
                    }
                    i += 1;
                }
                None
            },
            _ => None,
        }
    }

    /// Whether the value is an object with a member under `key`.
    pub fn has_key(&self, key: &str) -> (r: bool)
        ensures
            r == has_member(self.tree(), key@),
    {
        self.get(key).is_some()
    }

    /// The text of a string value.
    pub fn as_text(&self) -> (r: Option<&String>)
        ensures
            r is Some <==> self.tree() is Text,
            r matches Some(s) ==> self.tree() == JsonTree::Text(s@),
    {
        match self {
            Json::Text(s) => Some(s),
            _ => None,
        }
    }
}

/// The value is an object or an array.
pub open spec fn is_container(t: JsonTree) -> bool {
    t is Array || t is Object
}

/// The first member under `key`.
pub open spec fn lookup(members: Seq<(Seq<char>, JsonTree)>, key: Seq<char>) -> Option<JsonTree>
    decreases members.len(),
{
    if members.len() == 0 {
        None
    } else if members[0].0 == key {
        Some(members[0].1)
    } else {
        lookup(members.drop_first(), key)
    }
}

/// The member of an object under `key`; `None` for any other value.
pub open spec fn member(t: JsonTree, key: Seq<char>) -> Option<JsonTree> {
    match t {
        JsonTree::Object(members) => lookup(members, key),
        _ => None,
    }
}

/// The value is an object with a member under `key`.
pub open spec fn has_member(t: JsonTree, key: Seq<char>) -> bool {
    member(t, key) is Some
}

// ---------------------------------------------------------------------------
// Laws
// ---------------------------------------------------------------------------

/// The member under a key is the first one that has it; only objects have
/// members.
pub proof fn law_members_are_found(members: Seq<(Seq<char>, JsonTree)>, key: Seq<char>, i: int)
    requires
        0 <= i <= members.len(),
        forall|j: int| 0 <= j < i ==> (#[trigger] members[j]).0 != key,
        i < members.len() ==> members[i].0 == key,
    ensures
        member(JsonTree::Object(members), key) == if i < members.len() {
            Some(members[i].1)
        } else {
            None
        },
        has_member(JsonTree::Object(members), key) == (i < members.len()),
        forall|t: JsonTree| !(t is Object) ==> #[trigger] member(t, key) is None,
    decreases i,
{
    if i > 0 {
        assert(members[0].0 != key);
        assert forall|j: int| 0 <= j < i - 1 implies (#[trigger] members.drop_first()[j]).0
            != key by {
            assert(members[j + 1].0 != key);
        }
        law_members_are_found(members.drop_first(), key, i - 1);
    }
}

} // verus!
