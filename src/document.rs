//! The document model: a JSON-like value tree, as loaded from one source file.

use vstd::prelude::*;

verus! {

/// One untyped value of a source document.
pub enum Json {
    Null,
    Bool(bool),
    /// A number, kept in its textual form.
    Number(String),
    Str(String),
    Array(Vec<Json>),
    Object(Vec<Member>),
}

/// One `key: value` member of an object.
pub struct Member {
    pub key: String,
    pub value: Json,
}

/// The value of the first member of `ms` whose key is `key`.
pub open spec fn lookup(ms: Seq<Member>, key: Seq<char>) -> Option<Json>
    decreases ms.len(),
{
    if ms.len() == 0 {
        None
    } else if ms[0].key@ == key {
        Some(ms[0].value)
    } else {
        lookup(ms.drop_first(), key)
    }
}

/// The member `key` of `v`, when `v` is an object that has one.
pub open spec fn member_of(v: Json, key: Seq<char>) -> Option<Json> {
    match v {
        Json::Object(ms) => lookup(ms@, key),
        _ => None,
    }
}

/// The member `key` of an optional value.
pub open spec fn member_in(v: Option<Json>, key: Seq<char>) -> Option<Json> {
    match v {
        Some(j) => member_of(j, key),
        None => None,
    }
}

/// Compares two strings character by character.
pub fn same_text(a: &str, b: &str) -> (r: bool)
    ensures
        r == (a@ == b@),
{
    let n = a.unicode_len();
    if n != b.unicode_len() {
        return false;
    }
    let mut i: usize = 0;
    while i < n
        invariant
            n == a@.len(),
            n == b@.len(),
            i <= n,
            forall|j: int| 0 <= j < i ==> a@[j] == b@[j],
        decreases n - i,
    {
        if a.get_char(i) != b.get_char(i) {
            return false;
        }
        i = i + 1;
    }
    assert(a@ =~= b@);
    true
}

impl Json {
    /// The member `key` of this value, when it is an object that has one.
    pub fn member(&self, key: &str) -> (r: Option<&Json>)
        ensures
            r is Some <==> member_of(*self, key@) is Some,
            r matches Some(v) ==> member_of(*self, key@) == Some(*v),
    {
        match self {
            Json::Object(ms) => {
                let mut i: usize = 0;
                assert(ms@.skip(0) =~= ms@);
                while i < ms.len()
                    invariant
                        i <= ms@.len(),
                        member_of(*self, key@) == lookup(ms@, key@),
                        lookup(ms@, key@) == lookup(ms@.skip(i as int), key@),
                    decreases ms.len() - i,
                {
                    if same_text(ms[i].key.as_str(), key) {
                        assert(ms@.skip(i as int)[0] == ms@[i as int]);
                        return Some(&ms[i].value);
                    }
                    assert(ms@.skip(i as int).drop_first() =~= ms@.skip(i + 1));
                    i = i + 1;
                }
                None
            },
            _ => None,
        }
    }
}

} // verus!
