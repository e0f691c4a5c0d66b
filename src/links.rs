//! Link normalization and the relationship transform.
//!
//! A document's links field may be absent, one reference, or a list of
//! references; each reference is a bare string or an object carrying an id.
//! All of these normalize to one list of raw ids, tags kept. Relationship rows
//! follow the fanned-out policy: one `(source id, target id)` row per
//! reference to the target kind.
//!
//! A reference belongs to the target kind when it starts with that kind's tag
//! and has something after it; the target id is what follows the tag. The
//! source id is the document's own id read as its entity row reads it (tag
//! stripped, empty unless numeric), so that a relationship row names its
//! source by the same id as the source kind's own rows do.

use vstd::prelude::*;
use crate::document::{Json, member_of, member_in};
use crate::extract::{ID_KEY, text_value, text_of};
use crate::ident::{record_id, tagged_id, parse_record_id, parse_tagged};

verus! {

/// The member holding a document's links.
pub const LINKS_KEY: &'static str = "LINKS";

/// The member of the links holding the references.
pub const ITEM_KEY: &'static str = "ITEM";

/// The links field of a document.
pub open spec fn links_field(doc: Json) -> Option<Json> {
    member_in(member_of(doc, LINKS_KEY@), ITEM_KEY@)
}

/// The raw id carried by one reference.
pub open spec fn reference_id(r: Json) -> Option<Seq<char>> {
    match r {
        Json::Str(s) => Some(s@),
        Json::Object(_) => match member_of(r, ID_KEY@) {
            Some(Json::Str(s)) => Some(s@),
            _ => None,
        },
        _ => None,
    }
}

/// The raw ids carried by a list of references, in order.
pub open spec fn reference_ids(items: Seq<Json>) -> Seq<Seq<char>>
    decreases items.len(),
{
    if items.len() == 0 {
        Seq::empty()
    } else {
        let rest = reference_ids(items.drop_last());
        match reference_id(items.last()) {
            Some(id) => rest.push(id),
            None => rest,
        }
    }
}

/// A links field as one list of raw ids: empty when absent, the id of a
/// single reference, or the ids of a list.
pub open spec fn normalized(field: Option<Json>) -> Seq<Seq<char>> {
    match field {
        None => Seq::empty(),
        Some(Json::Array(items)) => reference_ids(items@),
        Some(r) => match reference_id(r) {
            Some(id) => seq![id],
            None => Seq::empty(),
        },
    }
}

/// The raw ids that a document links to.
pub open spec fn references(doc: Json) -> Seq<Seq<char>> {
    normalized(links_field(doc))
}

/// The ids of the references tagged `prefix`, tags stripped, in order.
pub open spec fn target_ids(refs: Seq<Seq<char>>, prefix: char) -> Seq<Seq<char>>
    decreases refs.len(),
{
    if refs.len() == 0 {
        Seq::empty()
    } else {
        let rest = target_ids(refs.drop_last(), prefix);
        match tagged_id(refs.last(), prefix) {
            Some(n) => rest.push(n),
            None => rest,
        }
    }
}

/// The document's own id, for a kind tagged `prefix`: the same id as the
/// document's entity row holds (see [`record_id`]).
pub open spec fn own_id(doc: Json, prefix: char) -> Seq<char> {
    record_id(text_value(member_of(doc, ID_KEY@)), prefix)
}

/// The relationship rows of `doc`: one `(source id, target id)` row for each
/// reference to a record tagged `target_prefix`.
pub open spec fn edge_rows(doc: Json, source_prefix: char, target_prefix: char) -> Seq<
    Seq<Seq<char>>,
> {
    let targets = target_ids(references(doc), target_prefix);
    Seq::new(targets.len(), |i: int| seq![own_id(doc, source_prefix), targets[i]])
}

/// A links field written as one reference normalizes to the same list as the
/// same reference written as a one-element list.
pub proof fn lemma_single_reference_as_list(d: Json, d2: Json, list: Vec<Json>)
    requires
        links_field(d) is Some,
        links_field(d)->0 !is Array,
        list@ == seq![links_field(d)->0],
        links_field(d2) == Some(Json::Array(list)),
    ensures
        references(d) == references(d2),
{
    let r = links_field(d)->0;
    assert(list@.drop_last() =~= Seq::<Json>::empty());
    assert(reference_ids(list@.drop_last()) == Seq::<Seq<char>>::empty());
    assert(list@.last() == r);
    match reference_id(r) {
        Some(id) => assert(reference_ids(list@) =~= seq![id]),
        None => assert(reference_ids(list@) =~= Seq::<Seq<char>>::empty()),
    }
}

/// No id is taken from references none of which is tagged `prefix`.
pub proof fn lemma_untagged_give_nothing(refs: Seq<Seq<char>>, prefix: char)
    requires
        forall|i: int| 0 <= i < refs.len() ==> tagged_id(#[trigger] refs[i], prefix) is None,
    ensures
        target_ids(refs, prefix).len() == 0,
    decreases refs.len(),
{
    if refs.len() > 0 {
        let rest = refs.drop_last();
        assert forall|i: int| 0 <= i < rest.len() implies tagged_id(
            #[trigger] rest[i],
            prefix,
        ) is None by {
            assert(rest[i] == refs[i]);
        }
        lemma_untagged_give_nothing(rest, prefix);
        assert(tagged_id(refs[refs.len() - 1], prefix) is None);
    }
}

/// No id taken from tagged references is empty.
pub proof fn lemma_target_ids_numeric(refs: Seq<Seq<char>>, prefix: char)
    ensures
        forall|i: int|
            0 <= i < target_ids(refs, prefix).len() ==> (#[trigger] target_ids(
                refs,
                prefix,
            )[i]).len() > 0,
    decreases refs.len(),
{
    if refs.len() > 0 {
        let rest = target_ids(refs.drop_last(), prefix);
        lemma_target_ids_numeric(refs.drop_last(), prefix);
        if let Some(n) = tagged_id(refs.last(), prefix) {
            assert forall|i: int| 0 <= i < rest.push(n).len() implies (#[trigger] rest.push(
                n,
            )[i]).len() > 0 by {
                if i < rest.len() {
                    assert(rest.push(n)[i] == rest[i]);
                }
            }
        }
    }
}

/// The raw id carried by one reference.
fn id_of_reference(r: &Json) -> (out: Option<String>)
    ensures
        out matches Some(s) ==> reference_id(*r) == Some(s@),
        out is None ==> reference_id(*r) is None,
{
    match r {
        Json::Str(s) => Some(s.clone()),
        Json::Object(_) => match r.member(ID_KEY) {
            Some(Json::Str(s)) => Some(s.clone()),
            _ => None,
        },
        _ => None,
    }
}

/// The raw ids that `doc` links to, whichever way its links field is written.
pub fn normalize_links(doc: &Json) -> (r: Vec<String>)
    ensures
        r.deep_view() == references(*doc),
{
    let field = match doc.member(LINKS_KEY) {
        Some(links) => links.member(ITEM_KEY),
        None => None,
    };
    let mut r: Vec<String> = Vec::new();
    match field {
        None => {},
        Some(Json::Array(items)) => {
            let mut i: usize = 0;
            while i < items.len()
                invariant
                    i <= items@.len(),
                    r.deep_view() =~= reference_ids(items@.take(i as int)),
                decreases items.len() - i,
            {
                assert(items@.take(i + 1).drop_last() =~= items@.take(i as int));
                if let Some(id) = id_of_reference(&items[i]) {
                    let ghost before = r.deep_view();
                    let ghost value = id@;
                    r.push(id);
                    assert(r.deep_view() =~= before.push(value));
                }
                i = i + 1;
            }
            assert(items@.take(items@.len() as int) =~= items@);
        },
        Some(single) => {
            if let Some(id) = id_of_reference(single) {
                r.push(id);
            }
        },
    }
    assert(r.deep_view() =~= references(*doc));
    r
}

/// The relationship rows of `doc`, fanned out: one `(source id, target id)`
/// row for each reference tagged `target_prefix`, in the order of the links.
pub fn relationship_rows(doc: &Json, source_prefix: char, target_prefix: char) -> (r: Vec<
    Vec<String>,
>)
    ensures
        r.deep_view() == edge_rows(*doc, source_prefix, target_prefix),
{
    let refs = normalize_links(doc);
    let raw = text_of(doc.member(ID_KEY));
    let source = parse_record_id(raw.as_str(), source_prefix);
    let ghost src = own_id(*doc, source_prefix);
    let ghost all = references(*doc);
    let mut r: Vec<Vec<String>> = Vec::new();
    let mut i: usize = 0;
    while i < refs.len()
        invariant
            i <= refs@.len(),
            refs.deep_view() == all,
            source@ == src,
            r.deep_view() =~= Seq::new(
                target_ids(all.take(i as int), target_prefix).len(),
                |j: int| seq![src, target_ids(all.take(i as int), target_prefix)[j]],
            ),
        decreases refs.len() - i,
    {
        assert(all.take(i + 1).drop_last() =~= all.take(i as int));
        assert(all[i as int] == refs[i as int]@);
        if let Some(n) = parse_tagged(refs[i].as_str(), target_prefix) {
            let ghost before = r.deep_view();
            let ghost value = n@;
            let row = vec![source.clone(), n];
            assert(row.deep_view() =~= seq![src, value]);
            r.push(row);
            assert(r.deep_view() =~= before.push(seq![src, value]));
        }
        i = i + 1;
    }
    assert(all.take(all.len() as int) =~= all);
    r
}

} // verus!
