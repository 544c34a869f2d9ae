//! The JSON value model.
use vstd::prelude::*;
use crate::text::same_text;

verus! {

broadcast use {vstd::std_specs::vec::group_vec_axioms, vstd::seq::group_seq_axioms};

/// Mathematical model of a JSON value.
pub enum JsonValue {
    Null,
    Bool(bool),
    Number(Seq<char>),
    Str(Seq<char>),
    Array(Seq<JsonValue>),
    Object(Seq<(Seq<char>, JsonValue)>),
}

/// A JSON value; numbers keep their exact source text.
#[derive(Debug, PartialEq, Eq)]
pub enum Value {
    Null,
    Bool(bool),
    Number(String),
    Str(String),
    Array(Vec<Value>),
    Object(Vec<(String, Value)>),
}

impl Value {
    pub open spec fn model(&self) -> JsonValue
        decreases self,
    {
        match self {
            Value::Null => JsonValue::Null,
            Value::Bool(b) => JsonValue::Bool(*b),
            Value::Number(t) => JsonValue::Number(t@),
            Value::Str(s) => JsonValue::Str(s@),
            Value::Array(items) => JsonValue::Array(
                Seq::new(items@.len(), |i: int|
                    if 0 <= i < items@.len() {
                        items@[i].model()
                    } else {
                        JsonValue::Null
                    },),
            ),
            Value::Object(members) => JsonValue::Object(
                Seq::new(members@.len(), |i: int|
                    if 0 <= i < members@.len() {
                        (members@[i].0@, members@[i].1.model())
                    } else {
                        (Seq::empty(), JsonValue::Null)
                    },),
            ),
        }
    }
}

/// The value of the first member named `key`.
pub open spec fn member(ms: Seq<(Seq<char>, JsonValue)>, key: Seq<char>) -> Option<JsonValue>
    decreases ms.len(),
{
    if ms.len() == 0 {
        None
    } else if ms[0].0 == key {
        Some(ms[0].1)
    } else {
        member(ms.drop_first(), key)
    }
}

/// The member `key` of an object; nothing for any other value.
pub open spec fn field(v: Option<JsonValue>, key: Seq<char>) -> Option<JsonValue> {
    match v {
        Some(JsonValue::Object(ms)) => member(ms, key),
        _ => None,
    }
}

/// The characters of a string value.
pub open spec fn text(v: Option<JsonValue>) -> Option<Seq<char>> {
    match v {
        Some(JsonValue::Str(s)) => Some(s),
        _ => None,
    }
}

/// A looked-up value seen through the model.
pub open spec fn found(r: Option<&Value>) -> Option<JsonValue> {
    match r {
        Some(v) => Some(v.model()),
        None => None,
    }
}

impl Value {
    /// The member `key`, if this is an object that has one.
    pub fn get(&self, key: &str) -> (r: Option<&Value>)
        ensures
            found(r) == field(Some(self.model()), key@),
    {
        match self {
            Value::Object(members) => {
                let ghost ms = self.model()->Object_0;
                assert(ms.len() == members@.len());
                assert(ms.subrange(0, ms.len() as int) =~= ms);
                let mut k: usize = 0;
                while k < members.len()
                    invariant
                        k <= members@.len(),
                        ms == self.model()->Object_0,
                        *self == Value::Object(*members),
                        ms.len() == members@.len(),
                        member(ms, key@) == member(ms.subrange(k as int, ms.len() as int), key@),
                    decreases members@.len() - k,
                {
                    let ghost rest = ms.subrange(k as int, ms.len() as int);
                    assert(rest.drop_first() =~= ms.subrange(k + 1, ms.len() as int));
                    assert(rest[0] == ms[k as int]);
                    assert(ms[k as int] == (members@[k as int].0@, members@[k as int].1.model()));
                    if same_text(members[k].0.as_str(), key) {
                        return Some(&members[k].1);
                    }
                    k = k + 1;
                }
                None
            },
            _ => None,
        }
    }

    /// The characters, if this is a string.
    pub fn as_str(&self) -> (r: Option<&String>)
        ensures
            r matches Some(t) ==> text(Some(self.model())) == Some(t@),
            r is None <==> text(Some(self.model())) is None,
    {
        match self {
            Value::Str(t) => Some(t),
            _ => None,
        }
    }
}

/// The member `key` of a looked-up value.
pub fn get_in<'a>(v: Option<&'a Value>, key: &str) -> (r: Option<&'a Value>)
    ensures
        found(r) == field(found(v), key@),
{
    match v {
        Some(x) => x.get(key),
        None => None,
    }
}

/// A copy of the characters of a looked-up string value.
pub fn text_of(v: Option<&Value>) -> (r: Option<String>)
    ensures
        r matches Some(t) ==> text(found(v)) == Some(t@),
        r is None <==> text(found(v)) is None,
{
    match v {
        Some(x) => match x.as_str() {
            Some(t) => Some(t.clone()),
            None => None,
        },
        None => None,
    }
}

} // verus!
