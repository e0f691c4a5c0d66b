//! The field extractor: the scalar fields of an entity row, each defaulting
//! when its member is missing or not shaped as expected.

use vstd::prelude::*;
use crate::document::{Json, member_of};
use crate::ident::{record_id, parse_record_id};
use crate::registry::Field;

verus! {

/// The member that holds a document's own tagged id.
pub const ID_KEY: &'static str = "@ID";

/// The text of a scalar member: the string it holds, else empty.
pub open spec fn text_value(v: Option<Json>) -> Seq<char> {
    match v {
        Some(Json::Str(s)) => s@,
        _ => Seq::empty(),
    }
}

/// The strings among `items`, in order.
pub open spec fn string_items(items: Seq<Json>) -> Seq<Seq<char>>
    decreases items.len(),
{
    if items.len() == 0 {
        Seq::empty()
    } else {
        let rest = string_items(items.drop_last());
        match items.last() {
            Json::Str(s) => rest.push(s@),
            _ => rest,
        }
    }
}

/// The names held by a name member: one string, or the strings of a list.
pub open spec fn names_value(v: Option<Json>) -> Seq<Seq<char>> {
    match v {
        Some(Json::Str(s)) => seq![s@],
        Some(Json::Array(items)) => string_items(items@),
        _ => Seq::empty(),
    }
}

/// `parts` joined with `sep` between neighbours.
pub open spec fn join(parts: Seq<Seq<char>>, sep: char) -> Seq<char>
    decreases parts.len(),
{
    if parts.len() == 0 {
        Seq::empty()
    } else if parts.len() == 1 {
        parts[0]
    } else {
        join(parts.drop_last(), sep).push(sep) + parts.last()
    }
}

pub open spec fn true_text() -> Seq<char> {
    seq!['t', 'r', 'u', 'e']
}

pub open spec fn false_text() -> Seq<char> {
    seq!['f', 'a', 'l', 's', 'e']
}

/// A flag member: `true` when it holds exactly `truthy`; anything else,
/// absence included, is `false`.
pub open spec fn flag_value(v: Option<Json>, truthy: Seq<char>) -> Seq<char> {
    if v matches Some(Json::Str(s)) && s@ == truthy {
        true_text()
    } else {
        false_text()
    }
}

/// The value of one entity column of `doc`, for a kind tagged `prefix`.
pub open spec fn field_value(doc: Json, prefix: char, f: Field) -> Seq<char> {
    match f {
        Field::Id => record_id(text_value(member_of(doc, ID_KEY@)), prefix),
        Field::Text(key) => text_value(member_of(doc, key@)),
        Field::Names(key) => join(names_value(member_of(doc, key@)), ','),
        Field::Flag { key, truthy } => flag_value(member_of(doc, key@), truthy@),
    }
}

/// The entity row of `doc`: one value per field, in order.
pub open spec fn entity_row(doc: Json, prefix: char, fields: Seq<Field>) -> Seq<Seq<char>> {
    Seq::new(fields.len(), |i: int| field_value(doc, prefix, fields[i]))
}

pub open spec fn opt_value(v: Option<&Json>) -> Option<Json> {
    match v {
        Some(j) => Some(*j),
        None => None,
    }
}

/// The text of a scalar member.
pub fn text_of(v: Option<&Json>) -> (r: String)
    ensures
        r@ == text_value(opt_value(v)),
{
    match v {
        Some(Json::Str(s)) => s.clone(),
        _ => String::new(),
    }
}

/// The strings among `items`, joined with commas.
fn join_strings(items: &Vec<Json>) -> (r: String)
    ensures
        r@ == join(string_items(items@), ','),
{
    let mut r = String::new();
    let mut any = false;
    let mut i: usize = 0;
    proof {
        reveal_strlit(",");
        assert(items@.take(0) =~= Seq::<Json>::empty());
    }
    while i < items.len()
        invariant
            i <= items@.len(),
            r@ == join(string_items(items@.take(i as int)), ','),
            any == (string_items(items@.take(i as int)).len() > 0),
            ","@ == seq![','],
        decreases items.len() - i,
    {
        let ghost before = string_items(items@.take(i as int));
        assert(items@.take(i + 1).drop_last() =~= items@.take(i as int));
        if let Json::Str(s) = &items[i] {
            if any {
                r.append(",");
            }
            r.append(s.as_str());
            any = true;
            assert(before.push(s@).drop_last() =~= before);
        }
        i = i + 1;
    }
    assert(items@.take(items@.len() as int) =~= items@);
    r
}

/// The names of a name member, joined with commas.
pub fn names_of(v: Option<&Json>) -> (r: String)
    ensures
        r@ == join(names_value(opt_value(v)), ','),
{
    match v {
        Some(Json::Str(s)) => s.clone(),
        Some(Json::Array(items)) => join_strings(items),
        _ => String::new(),
    }
}

/// A flag member as `true` or `false`.
pub fn flag_of(v: Option<&Json>, truthy: &str) -> (r: String)
    ensures
        r@ == flag_value(opt_value(v), truthy@),
{
    proof {
        reveal_strlit("true");
        reveal_strlit("false");
    }
    let set = match v {
        Some(Json::Str(s)) => crate::document::same_text(s.as_str(), truthy),
        _ => false,
    };
    if set {
        "true".to_owned()
    } else {
        "false".to_owned()
    }
}

/// The value of one entity column.
pub fn extract_field(doc: &Json, prefix: char, f: &Field) -> (r: String)
    ensures
        r@ == field_value(*doc, prefix, *f),
{
    match f {
        Field::Id => {
            let raw = text_of(doc.member(ID_KEY));
            parse_record_id(raw.as_str(), prefix)
        },
        Field::Text(key) => text_of(doc.member(key)),
        Field::Names(key) => names_of(doc.member(key)),
        Field::Flag { key, truthy } => flag_of(doc.member(key), truthy),
    }
}

/// The entity row of `doc`: one value per field, in the fields' order.
pub fn extract_fields(doc: &Json, prefix: char, fields: &Vec<Field>) -> (r: Vec<String>)
    ensures
        r.deep_view() == entity_row(*doc, prefix, fields@),
        r@.len() == fields@.len(),
{
    let mut r: Vec<String> = Vec::new();
    let mut i: usize = 0;
    while i < fields.len()
        invariant
            i <= fields@.len(),
            r.deep_view() =~= entity_row(*doc, prefix, fields@.take(i as int)),
        decreases fields.len() - i,
    {
        let v = extract_field(doc, prefix, &fields[i]);
        let ghost before = r.deep_view();
        let ghost value = v@;
        r.push(v);
        assert(r.deep_view() =~= before.push(value));
        assert(entity_row(*doc, prefix, fields@.take(i + 1)) =~= entity_row(
            *doc,
            prefix,
            fields@.take(i as int),
        ).push(value));
        i = i + 1;
    }
    assert(fields@.take(fields@.len() as int) =~= fields@);
    r
}

} // verus!
