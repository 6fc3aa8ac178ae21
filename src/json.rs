//! A JSON value as the number-puzzle reader sees it.
use vstd::prelude::*;
use crate::text::chars_of;

verus! {

/// A parsed JSON value. Numbers are kept as `Int` when they fit an `i64`;
/// any other number is `OtherNumber`. An object keeps its members in order,
/// each key once.
#[derive(Debug)]
pub enum Json {
    Null,
    Bool(bool),
    Int(i64),
    OtherNumber,
    Str(String),
    Array(Vec<Json>),
    Object(Vec<(String, Json)>),
}

/// The value under `key` among `fields`: the first member with that key.
pub open spec fn lookup_in(fields: Seq<(String, Json)>, key: Seq<char>) -> Option<Json>
    decreases fields.len(),
{
    if fields.len() == 0 {
        None
    } else if fields[0].0@ == key {
        Some(fields[0].1)
    } else {
        lookup_in(fields.drop_first(), key)
    }
}

/// The member `key` of `v`; nothing when `v` is no object or lacks it.
pub open spec fn lookup(v: Json, key: Seq<char>) -> Option<Json> {
    match v {
        Json::Object(fields) => lookup_in(fields@, key),
        _ => None,
    }
}

/// The text of a string member, or `default` when it is missing or no string.
pub open spec fn str_or(v: Option<Json>, default: Seq<char>) -> Seq<char> {
    match v {
        Some(Json::Str(s)) => s@,
        _ => default,
    }
}

fn same_chars(a: &Vec<char>, b: &Vec<char>) -> (r: bool)
    ensures
        r == (a@ == b@),
{
    if a.len() != b.len() {
        return false;
    }
    let mut i: usize = 0;
    while i < a.len()
        invariant
            a.len() == b.len(),
            i <= a.len(),
            forall|j: int| 0 <= j < i ==> a@[j] == b@[j],
        decreases a.len() - i,
    {
        if a[i] != b[i] {
            return false;
        }
        i += 1;
    }
    assert(a@ == b@);
    true
}

impl Json {
    /// The member `key` of this value, when it is an object that has one.
    pub fn get(&self, key: &str) -> (r: Option<&Json>)
        ensures
            r matches Some(j) ==> lookup(*self, key@) == Some(*j),
            r is None ==> lookup(*self, key@) is None,
    {
        match self {
            Json::Object(fields) => {
                let k = chars_of(key);
                let mut i: usize = 0;
                assert(fields@.subrange(0, fields.len() as int) == fields@);
                while i < fields.len()
                    invariant
                        i <= fields.len(),
                        k@ == key@,
                        lookup(*self, key@) == lookup_in(fields@, key@),
                        lookup_in(fields@, key@) == lookup_in(
                            fields@.subrange(i as int, fields.len() as int),
                            key@,
                        ),
                    decreases fields.len() - i,
                {
                    let ghost rest = fields@.subrange(i as int, fields.len() as int);
                    assert(rest[0] == fields@[i as int]);
                    assert(rest.drop_first() == fields@.subrange(i + 1, fields.len() as int));
                    let name = chars_of(fields[i].0.as_str());
                    if same_chars(&name, &k) {
                        assert(rest[0].0@ == key@);
                        assert(lookup_in(rest, key@) == Some(rest[0].1));
                        let f = &fields[i];
                        assert(f.1 == rest[0].1);
                        return Some(&f.1);
                    }
                    i += 1;
                }
                None
            },
            _ => None,
        }
    }

    /// The text of the string member `key`, or `default`.
    pub fn get_str_or(&self, key: &str, default: &str) -> (r: String)
        ensures
            r@ == str_or(lookup(*self, key@), default@),
    {
        match self.get(key) {
            Some(Json::Str(s)) => s.as_str().to_owned(),
            _ => default.to_owned(),
        }
    }
}

} // verus!
