//! A JSON value as the Wikibase readers see it.
//!
//! Objects keep their entries in document order; a key names the first entry that
//! carries it. Numbers keep the decimal form that JSON gives them: a sign, a mantissa
//! and a power of ten.
use vstd::prelude::*;
use crate::text::str_eq;

verus! {

/// A JSON number: `(-1 if !positive) * mantissa * 10^exponent`.
#[derive(Debug, Clone, Copy, PartialEq, Eq, Structural)]
pub struct JsonNumber {
    pub positive: bool,
    pub mantissa: u64,
    pub exponent: i16,
}

/// A JSON value.
#[derive(Debug)]
pub enum Json {
    Null,
    Bool(bool),
    Number(JsonNumber),
    Str(String),
    Array(Vec<Json>),
    Object(Vec<(String, Json)>),
}

/// The value of the first entry whose key is `key`.
pub open spec fn lookup(entries: Seq<(String, Json)>, key: Seq<char>) -> Option<Json>
    decreases entries.len(),
{
    if entries.len() == 0 {
        None
    } else if entries[0].0@ == key {
        Some(entries[0].1)
    } else {
        lookup(entries.drop_first(), key)
    }
}

/// The value that an optional reference stands for, `None` standing for `Null`.
pub open spec fn or_null(j: Option<&Json>) -> Json {
    match j {
        Some(v) => *v,
        None => Json::Null,
    }
}

/// The entries of an object; nothing for any other value.
pub open spec fn object_entries(j: Json) -> Seq<(String, Json)> {
    match j {
        Json::Object(e) => e@,
        _ => Seq::empty(),
    }
}

/// The members of an array; nothing for any other value.
pub open spec fn members(j: Json) -> Seq<Json> {
    match j {
        Json::Array(a) => a@,
        _ => Seq::empty(),
    }
}

impl Json {
    /// The value under `key` of an object; `Null` where there is none, or where
    /// `self` is not an object.
    pub open spec fn prop(self, key: Seq<char>) -> Json {
        match self {
            Json::Object(entries) => match lookup(entries@, key) {
                Some(v) => v,
                None => Json::Null,
            },
            _ => Json::Null,
        }
    }

    /// The string that `self` holds, if it is a string.
    pub open spec fn string(self) -> Option<String> {
        match self {
            Json::Str(s) => Some(s),
            _ => None,
        }
    }

    /// The value under `key` of an object, `None` standing for `Null`.
    pub fn get_prop(&self, key: &str) -> (r: Option<&Json>)
        ensures
            or_null(r) == self.prop(key@),
    {
        match self {
            Json::Object(entries) => {
                let mut i: usize = 0;
                assert(entries@.skip(0) =~= entries@);
                while i < entries.len()
                    invariant
                        i <= entries@.len(),
                        *self == Json::Object(*entries),
                        lookup(entries@, key@) == lookup(entries@.skip(i as int), key@),
                    decreases entries.len() - i,
                {
                    let ghost rest = entries@.skip(i as int);
                    assert(rest[0] == entries@[i as int]);
                    if str_eq(entries[i].0.as_str(), key) {
                        assert(lookup(rest, key@) == Some(rest[0].1));
                        return Some(&entries[i].1);
                    }
                    assert(rest.drop_first() =~= entries@.skip(i + 1));
                    i = i + 1;
                }
                assert(entries@.skip(i as int) =~= Seq::<(String, Json)>::empty());
                None
            },
            _ => None,
        }
    }

    /// The string that `self` holds, if it is a string.
    pub fn as_string(&self) -> (r: Option<&String>)
        ensures
            r matches Some(s) ==> self.string() == Some(*s),
            r is None ==> self.string() is None,
    {
        match self {
            Json::Str(s) => Some(s),
            _ => None,
        }
    }
}

/// The value under `key` of `j`, where `None` stands for `Null`.
pub fn sub_prop<'a>(j: Option<&'a Json>, key: &str) -> (r: Option<&'a Json>)
    ensures
        or_null(r) == or_null(j).prop(key@),
{
    match j {
        Some(v) => v.get_prop(key),
        None => None,
    }
}

/// The string that `j` holds, where `None` stands for `Null`.
pub fn opt_string<'a>(j: Option<&'a Json>) -> (r: Option<&'a String>)
    ensures
        r matches Some(s) ==> or_null(j).string() == Some(*s),
        r is None ==> or_null(j).string() is None,
{
    match j {
        Some(v) => v.as_string(),
        None => None,
    }
}

} // verus!
