//! Type-prefixed identifiers: a raw id is a one-letter kind tag followed by
//! the record's id, normally its decimal number (`A42` is author 42). A
//! record's own id is kept only when numeric; a reference keeps whatever
//! follows its tag.

use vstd::prelude::*;

verus! {

pub open spec fn is_digit(c: char) -> bool {
    '0' <= c <= '9'
}

/// A non-empty run of decimal digits.
pub open spec fn is_numeric(s: Seq<char>) -> bool {
    s.len() > 0 && forall|i: int| 0 <= i < s.len() ==> is_digit(#[trigger] s[i])
}

/// `raw` without its leading `prefix`, or `raw` itself when it does not start with it.
pub open spec fn strip_prefix(raw: Seq<char>, prefix: char) -> Seq<char> {
    if raw.len() > 0 && raw[0] == prefix {
        raw.drop_first()
    } else {
        raw
    }
}

/// The id carried by a reference to the kind tagged `prefix`: what follows the
/// tag, `Some` exactly when `raw` is `prefix` followed by at least one
/// character (a bare tag names no record).
pub open spec fn tagged_id(raw: Seq<char>, prefix: char) -> Option<Seq<char>> {
    if raw.len() > 1 && raw[0] == prefix {
        Some(raw.drop_first())
    } else {
        None
    }
}

/// A record's own id: the tag is stripped when present, and what remains is
/// kept only when it is numeric (empty otherwise).
pub open spec fn record_id(raw: Seq<char>, prefix: char) -> Seq<char> {
    if is_numeric(strip_prefix(raw, prefix)) {
        strip_prefix(raw, prefix)
    } else {
        Seq::empty()
    }
}

/// Whether `s` is a non-empty run of decimal digits.
pub fn numeric(s: &str) -> (r: bool)
    ensures
        r == is_numeric(s@),
{
    let n = s.unicode_len();
    if n == 0 {
        return false;
    }
    let mut i: usize = 0;
    while i < n
        invariant
            n == s@.len(),
            i <= n,
            forall|j: int| 0 <= j < i ==> is_digit(#[trigger] s@[j]),
        decreases n - i,
    {
        let c = s.get_char(i);
        if !('0' <= c && c <= '9') {
            return false;
        }
        i = i + 1;
    }
    true
}

/// `raw` without its leading `prefix`, when it has one.
pub fn without_prefix(raw: &str, prefix: char) -> (r: &str)
    ensures
        r@ == strip_prefix(raw@, prefix),
{
    let n = raw.unicode_len();
    if n > 0 && raw.get_char(0) == prefix {
        let r = raw.substring_char(1, n);
        assert(r@ =~= raw@.drop_first());
        r
    } else {
        raw
    }
}

/// The id of a reference tagged `prefix`, its tag stripped, or `None` when
/// `raw` is not `prefix` followed by at least one character.
pub fn parse_tagged(raw: &str, prefix: char) -> (r: Option<String>)
    ensures
        r matches Some(s) ==> tagged_id(raw@, prefix) == Some(s@),
        r is None ==> tagged_id(raw@, prefix) is None,
{
    let n = raw.unicode_len();
    if n > 1 && raw.get_char(0) == prefix {
        let rest = raw.substring_char(1, n);
        assert(rest@ =~= raw@.drop_first());
        Some(rest.to_owned())
    } else {
        None
    }
}

/// A record's own id from its raw id text: see [`record_id`].
pub fn parse_record_id(raw: &str, prefix: char) -> (r: String)
    ensures
        r@ == record_id(raw@, prefix),
{
    let rest = without_prefix(raw, prefix);
    if numeric(rest) {
        rest.to_owned()
    } else {
        String::new()
    }
}

} // verus!
