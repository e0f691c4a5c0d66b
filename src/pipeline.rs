//! The row transform dispatcher and the batch runner.
//!
//! Each kind is turned into rows by one of two strategies, chosen by its
//! shape: an entity document gives one row, a relationship document gives one
//! row per matching reference. A document that cannot be read or parsed, or
//! that has no id, is skipped and counted; it never stops the run. An id that
//! is present but not numeric gives an empty id in the rows.

use vstd::prelude::*;
use crate::document::{Json, member_of};
use crate::extract::{ID_KEY, entity_row, extract_fields};
use crate::ident::tagged_id;
use crate::links::{
    own_id,
    edge_rows,
    relationship_rows,
    references,
    target_ids,
    lemma_untagged_give_nothing,
    lemma_single_reference_as_list,
    links_field,
    lemma_target_ids_numeric,
};
use crate::registry::{Registry, Shape};
use crate::sink::{total, lemma_total_agree};
use crate::order::listing;

verus! {

/// Whether `doc` has an id member holding text.
pub open spec fn has_id(doc: Json) -> bool {
    member_of(doc, ID_KEY@) matches Some(Json::Str(_))
}

/// The rows that `doc` gives for kind `k`, or `None` when the document has no
/// id of its own.
pub open spec fn document_rows(reg: Registry, k: int, doc: Json) -> Option<Seq<Seq<Seq<char>>>> {
    match reg.kind(k).shape {
        Shape::Entity { prefix, fields, .. } => if !has_id(doc) {
            None
        } else {
            Some(seq![entity_row(doc, prefix, fields@)])
        },
        Shape::Relationship { source, target } => {
            let sp = reg.kind(source as int).prefix();
            let tp = reg.kind(target as int).prefix();
            if !has_id(doc) {
                None
            } else {
                Some(edge_rows(doc, sp, tp))
            }
        },
    }
}

/// What one input gives: `None` for an input that could not be read or
/// parsed, or whose document has no id.
pub open spec fn input_rows(reg: Registry, k: int, input: Option<Json>) -> Option<
    Seq<Seq<Seq<char>>>,
> {
    match input {
        Some(doc) => document_rows(reg, k, doc),
        None => None,
    }
}

/// The rows of a batch: those of each input in turn, each input's rows kept
/// together.
pub open spec fn batch_rows(reg: Registry, k: int, inputs: Seq<Option<Json>>) -> Seq<
    Seq<Seq<char>>,
>
    decreases inputs.len(),
{
    if inputs.len() == 0 {
        Seq::empty()
    } else {
        batch_rows(reg, k, inputs.drop_last()) + match input_rows(reg, k, inputs.last()) {
            Some(rows) => rows,
            None => Seq::empty(),
        }
    }
}

/// How many inputs of a batch are skipped.
pub open spec fn batch_skips(reg: Registry, k: int, inputs: Seq<Option<Json>>) -> nat
    decreases inputs.len(),
{
    if inputs.len() == 0 {
        0
    } else {
        batch_skips(reg, k, inputs.drop_last()) + if input_rows(reg, k, inputs.last()) is None {
            1nat
        } else {
            0nat
        }
    }
}

/// How many rows each input of a batch gave, for the inputs that gave any:
/// the boundaries between documents in the batch's rows.
pub open spec fn batch_groups(reg: Registry, k: int, inputs: Seq<Option<Json>>) -> Seq<usize>
    decreases inputs.len(),
{
    if inputs.len() == 0 {
        Seq::empty()
    } else {
        batch_groups(reg, k, inputs.drop_last()) + match input_rows(reg, k, inputs.last()) {
            Some(rows) => if rows.len() > 0 {
                seq![rows.len() as usize]
            } else {
                Seq::empty()
            },
            None => Seq::empty(),
        }
    }
}

/// The groups of a batch account for each of its rows exactly once.
pub proof fn lemma_groups_cover_rows(reg: Registry, k: int, inputs: Seq<Option<Json>>)
    requires
        batch_rows(reg, k, inputs).len() <= usize::MAX,
    ensures
        total(batch_groups(reg, k, inputs), 0, batch_groups(reg, k, inputs).len() as int)
            == batch_rows(reg, k, inputs).len(),
    decreases inputs.len(),
{
    if inputs.len() > 0 {
        let shorter = inputs.drop_last();
        lemma_groups_cover_rows(reg, k, shorter);
        let g0 = batch_groups(reg, k, shorter);
        let g = batch_groups(reg, k, inputs);
        lemma_total_agree(g0, g, 0, g0.len() as int);
        if g.len() > g0.len() {
            assert(total(g, 0, g.len() as int) == total(g, 0, g0.len() as int) + g[g0.len() as int]);
        }
    }
}

/// Two runs over the same unchanged files give the same rows, row groups and
/// skip count, whatever order each run discovered the files in: both visit the
/// listing of the files, and each file holds what it held before.
pub proof fn lemma_runs_agree(
    reg: Registry,
    k: int,
    found_a: Seq<Seq<char>>,
    found_b: Seq<Seq<char>>,
    content: spec_fn(Seq<char>) -> Option<Json>,
)
    requires
        found_a.to_set() == found_b.to_set(),
    ensures
        ({
            let a = listing(found_a.to_set()).map_values(content);
            let b = listing(found_b.to_set()).map_values(content);
            &&& batch_rows(reg, k, a) == batch_rows(reg, k, b)
            &&& batch_groups(reg, k, a) == batch_groups(reg, k, b)
            &&& batch_skips(reg, k, a) == batch_skips(reg, k, b)
        }),
{
}

/// An entity row has one value per column of its kind.
pub proof fn lemma_entity_row_width(reg: Registry, k: int, doc: Json)
    requires
        reg.wf(),
        0 <= k < reg.kinds@.len(),
        reg.kind(k).is_entity(),
    ensures
        entity_row(doc, reg.kind(k).prefix(), reg.kind(k).shape->Entity_fields@).len()
            == reg.kind(k).columns@.len(),
{
    assert(reg.kind(k).wf());
}

/// Every row that a document gives has as many values as its kind has
/// columns.
pub proof fn lemma_row_width(reg: Registry, k: int, doc: Json)
    requires
        reg.wf(),
        0 <= k < reg.kinds@.len(),
    ensures
        document_rows(reg, k, doc) matches Some(rows) ==> forall|i: int|
            0 <= i < rows.len() ==> (#[trigger] rows[i]).len() == reg.kind(k).columns@.len(),
{
    assert(reg.kind(k).wf());
}

/// A relationship document none of whose references is tagged with the
/// target kind's prefix gives no row.
pub proof fn lemma_no_target_no_rows(reg: Registry, k: int, doc: Json)
    requires
        reg.wf(),
        0 <= k < reg.kinds@.len(),
        !reg.kind(k).is_entity(),
        forall|i: int|
            0 <= i < references(doc).len() ==> tagged_id(
                #[trigger] references(doc)[i],
                reg.kind(reg.kind(k).target()).prefix(),
            ) is None,
    ensures
        document_rows(reg, k, doc) matches Some(rows) ==> rows.len() == 0,
{
    assert(reg.kind(k).wf());
    lemma_untagged_give_nothing(references(doc), reg.kind(reg.kind(k).target()).prefix());
}

/// For a relationship kind, a document whose links field is one reference gives the
/// same rows as the same document with that reference written as a
/// one-element list.
pub proof fn lemma_single_reference_same_rows(
    reg: Registry,
    k: int,
    d: Json,
    d2: Json,
    list: Vec<Json>,
)
    requires
        reg.wf(),
        0 <= k < reg.kinds@.len(),
        member_of(d, ID_KEY@) == member_of(d2, ID_KEY@),
        !reg.kind(k).is_entity(),
        links_field(d) is Some,
        links_field(d)->0 !is Array,
        list@ == seq![links_field(d)->0],
        links_field(d2) == Some(Json::Array(list)),
    ensures
        document_rows(reg, k, d) == document_rows(reg, k, d2),
{
    lemma_single_reference_as_list(d, d2, list);
    assert(references(d) == references(d2));
    let sp = reg.kind(reg.kind(k).source()).prefix();
    let tp = reg.kind(reg.kind(k).target()).prefix();
    assert(own_id(d, sp) == own_id(d2, sp));
    assert(edge_rows(d, sp, tp) =~= edge_rows(d2, sp, tp));
}

/// Every relationship row pairs the document's own id, its tag stripped,
/// with the non-empty id of a reference to the target kind.
pub proof fn lemma_edge_ids(reg: Registry, k: int, doc: Json)
    requires
        reg.wf(),
        0 <= k < reg.kinds@.len(),
        !reg.kind(k).is_entity(),
    ensures
        document_rows(reg, k, doc) matches Some(rows) ==> forall|i: int|
            0 <= i < rows.len() ==> (#[trigger] rows[i])[0] == own_id(
                doc,
                reg.kind(reg.kind(k).source()).prefix(),
            ) && rows[i][1].len() > 0,
{
    let tp = reg.kind(reg.kind(k).target()).prefix();
    lemma_target_ids_numeric(references(doc), tp);
    if let Some(rows) = document_rows(reg, k, doc) {
        assert forall|i: int| 0 <= i < rows.len() implies (#[trigger] rows[i])[0] == own_id(
            doc,
            reg.kind(reg.kind(k).source()).prefix(),
        ) && rows[i][1].len() > 0 by {
            assert(rows[i][1] == target_ids(references(doc), tp)[i]);
        }
    }
}

/// The outcome of running one kind over a batch of inputs.
pub struct RunResult {
    pub rows: Vec<Vec<String>>,
    /// How many rows each document that gave any gave, in order.
    pub groups: Vec<usize>,
    /// How many inputs were looked at.
    pub seen: usize,
    /// How many inputs were skipped as unreadable, unparsable or without id.
    pub skipped: usize,
}

/// The rows that `doc` gives for kind `k`, or `None` when it has no id member
/// holding text.
pub fn transform(reg: &Registry, k: usize, doc: &Json) -> (r: Option<Vec<Vec<String>>>)
    requires
        reg.wf(),
        k < reg.kinds@.len(),
    ensures
        r matches Some(rows) ==> document_rows(*reg, k as int, *doc) == Some(rows.deep_view()),
        r is None ==> document_rows(*reg, k as int, *doc) is None,
{
    match doc.member(ID_KEY) {
        Some(Json::Str(_)) => {},
        _ => return None,
    }
    match &reg.kinds[k].shape {
        Shape::Entity { prefix, fields, .. } => {
            let row = extract_fields(doc, *prefix, fields);
            let ghost value = row.deep_view();
            let rows = vec![row];
            assert(rows.deep_view() =~= seq![value]);
            Some(rows)
        },
        Shape::Relationship { source, target } => {
            let sp = match &reg.kinds[*source].shape {
                Shape::Entity { prefix, .. } => *prefix,
                Shape::Relationship { .. } => return None,
            };
            let tp = match &reg.kinds[*target].shape {
                Shape::Entity { prefix, .. } => *prefix,
                Shape::Relationship { .. } => return None,
            };
            Some(relationship_rows(doc, sp, tp))
        },
    }
}

/// Runs kind `k` over a batch of inputs, in order; `None` stands for an input
/// that could not be read or parsed.
pub fn run_batch(reg: &Registry, k: usize, inputs: &Vec<Option<Json>>) -> (r: RunResult)
    requires
        reg.wf(),
        k < reg.kinds@.len(),
    ensures
        r.rows.deep_view() == batch_rows(*reg, k as int, inputs@),
        r.groups@ == batch_groups(*reg, k as int, inputs@),
        r.seen == inputs@.len(),
        r.skipped == batch_skips(*reg, k as int, inputs@),
{
    let mut rows: Vec<Vec<String>> = Vec::new();
    let mut groups: Vec<usize> = Vec::new();
    let mut skipped: usize = 0;
    let mut i: usize = 0;
    while i < inputs.len()
        invariant
            reg.wf(),
            k < reg.kinds@.len(),
            i <= inputs@.len(),
            skipped <= i,
            rows.deep_view() =~= batch_rows(*reg, k as int, inputs@.take(i as int)),
            skipped == batch_skips(*reg, k as int, inputs@.take(i as int)),
            groups@ =~= batch_groups(*reg, k as int, inputs@.take(i as int)),
        decreases inputs.len() - i,
    {
        assert(inputs@.take(i + 1).drop_last() =~= inputs@.take(i as int));
        let got = match &inputs[i] {
            Some(doc) => transform(reg, k, doc),
            None => None,
        };
        match got {
            Some(mut more) => {
                let ghost before = rows.deep_view();
                let ghost added = more.deep_view();
                let count = more.len();
                if count > 0 {
                    groups.push(count);
                }
                rows.append(&mut more);
                assert(rows.deep_view() =~= before + added);
            },
            None => {
                skipped = skipped + 1;
            },
        }
        i = i + 1;
    }
    assert(inputs@.take(inputs@.len() as int) =~= inputs@);
    RunResult { rows, groups, seen: inputs.len(), skipped }
}

} // verus!
