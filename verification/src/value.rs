//! Raw definitions as the registry hands them out: a tree of named members,
//! lists and scalars.

use vstd::prelude::*;
use crate::map::TextMap;
use crate::text::Text;

verus! {

/// A raw definition or a part of one. A number is kept as the text it was
/// written with.
#[derive(Debug, PartialEq, Eq)]
pub enum Value {
    Null,
    Bool(bool),
    Number(String),
    Str(String),
    List(Vec<Value>),
    Object(TextMap<Value>),
}

impl Value {
    /// The member under `key`, if this is an object that has one.
    pub open spec fn member(self, key: Text) -> Option<Value> {
        match self {
            Value::Object(m) => m.lookup(key),
            _ => None,
        }
    }

    /// The text, if this is a string.
    pub open spec fn text(self) -> Option<Text> {
        match self {
            Value::Str(s) => Some(s@),
            _ => None,
        }
    }

    /// The items, if this is a list.
    pub open spec fn items(self) -> Option<Seq<Value>> {
        match self {
            Value::List(v) => Some(v@),
            _ => None,
        }
    }

    /// The entries, if this is an object.
    pub open spec fn entries(self) -> Option<Seq<(String, Value)>> {
        match self {
            Value::Object(m) => Some(m.entries@),
            _ => None,
        }
    }

    /// The text of the member under `key`, if there is such a member and it
    /// is a string.
    pub open spec fn text_member(self, key: Text) -> Option<Text> {
        match self.member(key) {
            Some(v) => v.text(),
            None => None,
        }
    }

    /// The member under `key`.
    pub fn get(&self, key: &str) -> (r: Option<&Value>)
        ensures
            match r {
                Some(v) => self.member(key@) == Some(*v),
                None => self.member(key@) is None,
            },
    {
        match self {
            Value::Object(m) => m.get(key),
            _ => None,
        }
    }

    /// Whether there is a member under `key`.
    pub fn has(&self, key: &str) -> (r: bool)
        ensures
            r == self.member(key@).is_some(),
    {
        self.get(key).is_some()
    }

    /// The string, if this is one.
    pub fn as_str(&self) -> (r: Option<&str>)
        ensures
            match r {
                Some(s) => self.text() == Some(s@),
                None => self.text() is None,
            },
    {
        match self {
            Value::Str(s) => Some(s.as_str()),
            _ => None,
        }
    }

    /// The list, if this is one.
    pub fn as_array(&self) -> (r: Option<&Vec<Value>>)
        ensures
            match r {
                Some(v) => self.items() == Some(v@),
                None => self.items() is None,
            },
    {
        match self {
            Value::List(v) => Some(v),
            _ => None,
        }
    }

    /// The object, if this is one.
    pub fn as_object(&self) -> (r: Option<&TextMap<Value>>)
        ensures
            match r {
                Some(m) => self == Value::Object(*m),
                None => !(self is Object),
            },
    {
        match self {
            Value::Object(m) => Some(m),
            _ => None,
        }
    }

    /// The string under `key`, if there is a member there and it is one.
    pub fn get_str(&self, key: &str) -> (r: Option<&str>)
        ensures
            match r {
                Some(s) => self.text_member(key@) == Some(s@),
                None => self.text_member(key@) is None,
            },
    {
        match self.get(key) {
            Some(v) => v.as_str(),
            None => None,
        }
    }
}

/// The texts among `items`, in order; what is no string is passed over.
pub open spec fn text_items(items: Seq<Value>) -> Seq<Text>
    decreases items.len(),
{
    if items.len() == 0 {
        Seq::empty()
    } else {
        let front = text_items(items.drop_last());
        match items.last().text() {
            Some(t) => front.push(t),
            None => front,
        }
    }
}

} // verus!
