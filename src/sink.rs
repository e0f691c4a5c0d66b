//! What the sinks need besides I/O: the text sink's field convention, and the
//! bulk loader's chunking and insert statements.
//!
//! The text sink writes an empty value as an explicit null marker (`\N`) and
//! drops record separators (line feeds and carriage returns) from values, so a
//! value never spans two records. A non-empty value that starts with a
//! backslash gets one more backslash in front, so no value is written as the
//! marker but the empty one.

use vstd::prelude::*;
use crate::registry::RecordKind;
use crate::extract::join;

verus! {

/// What the text sink writes for an empty value.
pub const NULL_MARKER: &'static str = "\\N";

pub open spec fn is_separator(c: char) -> bool {
    c == '\n' || c == '\r'
}

pub open spec fn has_separator(s: Seq<char>) -> bool {
    exists|i: int| 0 <= i < s.len() && is_separator(#[trigger] s[i])
}

/// `s` without its record separators.
pub open spec fn strip_separators(s: Seq<char>) -> Seq<char>
    decreases s.len(),
{
    if s.len() == 0 {
        Seq::empty()
    } else if is_separator(s.last()) {
        strip_separators(s.drop_last())
    } else {
        strip_separators(s.drop_last()).push(s.last())
    }
}

/// The escape character of the text sink.
pub open spec fn backslash() -> char {
    '\\'
}

/// How the text sink writes a value.
pub open spec fn encoded(v: Seq<char>) -> Seq<char> {
    let t = strip_separators(v);
    if t.len() == 0 {
        NULL_MARKER@
    } else if t[0] == backslash() {
        seq![backslash()] + t
    } else {
        t
    }
}

/// The value that a written field stands for.
pub open spec fn decoded(f: Seq<char>) -> Seq<char> {
    if f == NULL_MARKER@ {
        Seq::empty()
    } else if f.len() > 0 && f[0] == backslash() {
        f.drop_first()
    } else {
        f
    }
}

/// The view of a row.
pub open spec fn row_view(row: Seq<Seq<char>>, f: spec_fn(Seq<char>) -> Seq<char>) -> Seq<
    Seq<char>,
> {
    Seq::new(row.len(), |i: int| f(row[i]))
}

/// A value without record separators is its own stripped form.
pub proof fn lemma_strip_clean(s: Seq<char>)
    requires
        !has_separator(s),
    ensures
        strip_separators(s) == s,
    decreases s.len(),
{
    if s.len() > 0 {
        let rest = s.drop_last();
        assert(!has_separator(rest)) by {
            if has_separator(rest) {
                let i = choose|i: int| 0 <= i < rest.len() && is_separator(#[trigger] rest[i]);
                assert(s[i] == rest[i]);
            }
        }
        lemma_strip_clean(rest);
        assert(!is_separator(s[s.len() - 1]));
        assert(rest.push(s.last()) =~= s);
    }
}

/// Stripping leaves no record separator.
pub proof fn lemma_strip_leaves_none(s: Seq<char>)
    ensures
        !has_separator(strip_separators(s)),
    decreases s.len(),
{
    if s.len() > 0 {
        lemma_strip_leaves_none(s.drop_last());
        let t = strip_separators(s.drop_last());
        if !is_separator(s.last()) {
            assert forall|i: int| 0 <= i < t.push(s.last()).len() implies !is_separator(
                #[trigger] t.push(s.last())[i],
            ) by {
                if i < t.len() {
                    assert(t.push(s.last())[i] == t[i]);
                }
            }
        }
    }
}

/// No value that the text sink writes holds a record separator.
pub proof fn lemma_encoded_has_no_separator(v: Seq<char>)
    ensures
        !has_separator(encoded(v)),
{
    let t = strip_separators(v);
    lemma_strip_leaves_none(v);
    reveal_strlit("\\N");
    if t.len() > 0 && t[0] == backslash() {
        let e = seq![backslash()] + t;
        assert forall|i: int| 0 <= i < e.len() implies !is_separator(#[trigger] e[i]) by {
            if i > 0 {
                assert(e[i] == t[i - 1]);
            }
        }
    }
}

/// The null marker is written for the empty value (or one of separators
/// only), and for no other value.
pub proof fn lemma_marker_only_for_empty(v: Seq<char>)
    ensures
        encoded(v) == NULL_MARKER@ <==> strip_separators(v).len() == 0,
{
    reveal_strlit("\\N");
    let t = strip_separators(v);
    if t.len() > 0 && t[0] == backslash() {
        assert((seq![backslash()] + t)[1] == t[0]);
    }
}

/// Reading back what the text sink wrote gives back the values it was given,
/// for every value that holds no record separator (the empty value comes back
/// from the marker).
pub proof fn lemma_field_round_trip(row: Seq<Seq<char>>)
    requires
        forall|i: int| 0 <= i < row.len() ==> !has_separator(#[trigger] row[i]),
    ensures
        row_view(row_view(row, |v: Seq<char>| encoded(v)), |f: Seq<char>| decoded(f)) == row,
{
    assert forall|i: int| 0 <= i < row.len() implies decoded(encoded(#[trigger] row[i])) == row[i] by {
        let v = row[i];
        lemma_strip_clean(v);
        reveal_strlit("\\N");
        if v.len() > 0 && v[0] == backslash() {
            let e = seq![backslash()] + v;
            assert(e[1] == v[0]);
            assert(e.drop_first() =~= v);
        }
    }
    assert(row_view(row_view(row, |v: Seq<char>| encoded(v)), |f: Seq<char>| decoded(f)) =~= row);
}

/// `s` without its record separators.
pub fn without_separators(s: &str) -> (r: String)
    ensures
        r@ == strip_separators(s@),
{
    let n = s.unicode_len();
    let mut r = String::new();
    let mut start: usize = 0;
    let mut i: usize = 0;
    assert(s@.take(0) =~= Seq::<char>::empty());
    while i < n
        invariant
            n == s@.len(),
            start <= i <= n,
            r@ + s@.subrange(start as int, i as int) == strip_separators(s@.take(i as int)),
        decreases n - i,
    {
        let c = s.get_char(i);
        assert(s@.take(i + 1).drop_last() =~= s@.take(i as int));
        if c == '\n' || c == '\r' {
            let piece = s.substring_char(start, i);
            r.append(piece);
            start = i + 1;
            assert(s@.subrange(start as int, start as int) =~= Seq::<char>::empty());
            assert(r@ + s@.subrange(start as int, i + 1) =~= r@);
        } else {
            assert(s@.subrange(start as int, i + 1) =~= s@.subrange(start as int, i as int).push(c));
        }
        i = i + 1;
    }
    let piece = s.substring_char(start, n);
    r.append(piece);
    assert(s@.take(n as int) =~= s@);
    r
}

/// How the text sink writes a value: separators dropped, and the null marker
/// for an empty value.
pub fn encode_field(v: &str) -> (r: String)
    ensures
        r@ == encoded(v@),
{
    proof {
        reveal_strlit("\\");
    }
    let t = without_separators(v);
    if t.unicode_len() == 0 {
        NULL_MARKER.to_owned()
    } else if t.get_char(0) == '\\' {
        let mut e = "\\".to_owned();
        e.append(t.as_str());
        e
    } else {
        t
    }
}

/// The value that a written field stands for.
pub fn decode_field(f: &str) -> (r: String)
    ensures
        r@ == decoded(f@),
{
    let n = f.unicode_len();
    if crate::document::same_text(f, NULL_MARKER) {
        String::new()
    } else if n > 0 && f.get_char(0) == '\\' {
        let rest = f.substring_char(1, n);
        assert(rest@ =~= f@.drop_first());
        rest.to_owned()
    } else {
        f.to_owned()
    }
}

/// A row as the text sink writes it.
pub fn encode_row(row: &Vec<String>) -> (r: Vec<String>)
    ensures
        r.deep_view() == row_view(row.deep_view(), |v: Seq<char>| encoded(v)),
{
    let mut r: Vec<String> = Vec::new();
    let mut i: usize = 0;
    while i < row.len()
        invariant
            i <= row@.len(),
            r.deep_view() =~= row_view(row.deep_view().take(i as int), |v: Seq<char>| encoded(v)),
        decreases row.len() - i,
    {
        let f = encode_field(row[i].as_str());
        let ghost before = r.deep_view();
        let ghost value = f@;
        r.push(f);
        assert(r.deep_view() =~= before.push(value));
        i = i + 1;
    }
    assert(row.deep_view().take(row@.len() as int) =~= row.deep_view());
    r
}

/// The values that a written row stands for.
pub fn decode_row(fields: &Vec<String>) -> (r: Vec<String>)
    ensures
        r.deep_view() == row_view(fields.deep_view(), |f: Seq<char>| decoded(f)),
{
    let mut r: Vec<String> = Vec::new();
    let mut i: usize = 0;
    while i < fields.len()
        invariant
            i <= fields@.len(),
            r.deep_view() =~= row_view(fields.deep_view().take(i as int), |f: Seq<char>| decoded(f)),
        decreases fields.len() - i,
    {
        let v = decode_field(fields[i].as_str());
        let ghost before = r.deep_view();
        let ghost value = v@;
        r.push(v);
        assert(r.deep_view() =~= before.push(value));
        i = i + 1;
    }
    assert(fields.deep_view().take(fields@.len() as int) =~= fields.deep_view());
    r
}

/// The header record of a kind: its column names.
pub fn header(kind: &RecordKind) -> (r: Vec<String>)
    ensures
        r@.len() == kind.columns@.len(),
        forall|i: int| 0 <= i < r@.len() ==> (#[trigger] r@[i])@ == kind.columns@[i]@,
{
    let mut r: Vec<String> = Vec::new();
    let mut i: usize = 0;
    while i < kind.columns.len()
        invariant
            i <= kind.columns@.len(),
            r@.len() == i,
            forall|j: int| 0 <= j < i ==> (#[trigger] r@[j])@ == kind.columns@[j]@,
        decreases kind.columns.len() - i,
    {
        r.push(kind.columns[i].to_owned());
        i = i + 1;
    }
    r
}

/// The number of rows in groups `a` to `b` (exclusive).
pub open spec fn total(groups: Seq<usize>, a: int, b: int) -> int
    decreases b - a,
{
    if b <= a {
        0
    } else {
        total(groups, a, b - 1) + groups[b - 1]
    }
}

/// Totals over groups that agree are equal.
pub proof fn lemma_total_agree(g1: Seq<usize>, g2: Seq<usize>, a: int, b: int)
    requires
        0 <= a,
        b <= g1.len(),
        b <= g2.len(),
        forall|i: int| a <= i < b ==> g1[i] == g2[i],
    ensures
        total(g1, a, b) == total(g2, a, b),
    decreases b - a,
{
    if b > a {
        lemma_total_agree(g1, g2, a, b - 1);
    }
}

/// Where chunk `j` of a plan starts: at the end of the one before it.
pub open spec fn chunk_start(ends: Seq<usize>, j: int) -> int {
    if j == 0 {
        0
    } else {
        ends[j - 1] as int
    }
}

/// The chunks, each running from its start to its end, are non-empty and
/// together take groups `0` to `n` in order.
pub open spec fn chunks_cover(ends: Seq<usize>, n: int) -> bool {
    &&& n == 0 ==> ends.len() == 0
    &&& n > 0 ==> ends.len() > 0 && ends.last() == n
    &&& forall|j: int| 0 <= j < ends.len() ==> chunk_start(ends, j) < #[trigger] ends[j]
}

/// Every chunk holds at most `limit` rows, unless it is one group alone.
pub open spec fn chunks_fit(groups: Seq<usize>, limit: int, ends: Seq<usize>) -> bool {
    forall|j: int|
        0 <= j < ends.len() ==> total(groups, chunk_start(ends, j), (#[trigger] ends[j]) as int) <= limit
            || ends[j] == chunk_start(ends, j) + 1
}

/// No chunk could have taken the next group too: the plan is greedy.
pub open spec fn chunks_full(groups: Seq<usize>, limit: int, ends: Seq<usize>) -> bool {
    forall|j: int|
        0 <= j < ends.len() && #[trigger] ends[j] < groups.len() ==> total(
            groups,
            chunk_start(ends, j),
            ends[j] as int,
        ) + groups[ends[j] as int] > limit
}

/// Closing a chunk that runs from `start` to `end` keeps a plan valid, when
/// the chunk fits and could not have taken the group after it.
proof fn lemma_close_chunk(groups: Seq<usize>, limit: int, before: Seq<usize>, start: int, end: usize)
    requires
        0 <= start < end,
        chunks_cover(before, start),
        chunks_fit(groups, limit, before),
        chunks_full(groups, limit, before),
        total(groups, start, end as int) <= limit || end == start + 1,
        end < groups.len() ==> total(groups, start, end as int) + groups[end as int] > limit,
    ensures
        chunks_cover(before.push(end), end as int),
        chunks_fit(groups, limit, before.push(end)),
        chunks_full(groups, limit, before.push(end)),
{
    let after = before.push(end);
    assert forall|j: int| 0 <= j < before.len() implies after[j] == before[j] && chunk_start(
        after,
        j,
    ) == chunk_start(before, j) by {}
    assert(chunk_start(after, before.len() as int) == start) by {
        if before.len() > 0 {
            assert(after[before.len() - 1] == before.last());
        }
    }
    assert forall|j: int| 0 <= j < after.len() implies chunk_start(after, j) < #[trigger] after[j] by {
        if j < before.len() {
            assert(chunk_start(before, j) < before[j]);
        }
    }
    assert forall|j: int| 0 <= j < after.len() implies total(
        groups,
        chunk_start(after, j),
        (#[trigger] after[j]) as int,
    ) <= limit || after[j] == chunk_start(after, j) + 1 by {
        if j < before.len() {
            assert(total(groups, chunk_start(before, j), before[j] as int) <= limit || before[j]
                == chunk_start(before, j) + 1);
        }
    }
    assert forall|j: int|
        0 <= j < after.len() && #[trigger] after[j] < groups.len() implies total(
        groups,
        chunk_start(after, j),
        after[j] as int,
    ) + groups[after[j] as int] > limit by {
        if j < before.len() {
            assert(before[j] < groups.len());
        }
    }
}

/// Splits groups of rows (each group the rows of one document) into chunks of
/// whole groups, filling each chunk while it stays within `limit` rows; a
/// group larger than `limit` makes a chunk of its own. The result holds the
/// index of the group that ends each chunk (exclusive).
pub fn plan_chunks(groups: &Vec<usize>, limit: usize) -> (ends: Vec<usize>)
    ensures
        chunks_cover(ends@, groups@.len() as int),
        chunks_fit(groups@, limit as int, ends@),
        chunks_full(groups@, limit as int, ends@),
{
    let n = groups.len();
    let mut ends: Vec<usize> = Vec::new();
    let mut start: usize = 0;
    let mut size: usize = 0;
    let mut i: usize = 0;
    while i < n
        invariant
            n == groups@.len(),
            start <= i <= n,
            i > 0 ==> start < i,
            i == 0 ==> ends@.len() == 0,
            size == total(groups@, start as int, i as int),
            start < i ==> size <= limit || i == start + 1,
            chunks_cover(ends@, start as int),
            chunks_fit(groups@, limit as int, ends@),
            chunks_full(groups@, limit as int, ends@),
        decreases n - i,
    {
        let g = groups[i];
        if start < i && !(size <= limit && g <= limit - size) {
            proof {
                lemma_close_chunk(groups@, limit as int, ends@, start as int, i);
            }
            ends.push(i);
            start = i;
            size = 0;
        }
        assert(total(groups@, start as int, i + 1) == total(groups@, start as int, i as int) + g);
        if start == i {
            assert(total(groups@, i as int, i as int) == 0);
            size = g;
        } else {
            size = size + g;
        }
        i = i + 1;
    }
    if n > 0 {
        proof {
            lemma_close_chunk(groups@, limit as int, ends@, start as int, n);
        }
        ends.push(n);
    }
    ends
}

/// One row's placeholders: `(?,?,...)` with `width` of them.
pub open spec fn placeholder_tuple(width: nat) -> Seq<char> {
    "("@ + join(Seq::new(width, |i: int| "?"@), ',') + ")"@
}

/// The parameterized insert of `rows` rows into the kind's table.
pub open spec fn insert_sql(kind: RecordKind, rows: nat) -> Seq<char> {
    "INSERT INTO "@ + kind.export@ + " ("@ + join(kind.column_names(), ',') + ") VALUES "@ + join(
        Seq::new(rows, |i: int| placeholder_tuple(kind.columns@.len())),
        ',',
    )
}

/// The values of `rows`, row after row.
pub open spec fn flatten(rows: Seq<Seq<Seq<char>>>) -> Seq<Seq<char>>
    decreases rows.len(),
{
    if rows.len() == 0 {
        Seq::empty()
    } else {
        flatten(rows.drop_last()) + rows.last()
    }
}

/// `parts` joined with commas.
pub fn join_texts(parts: &Vec<String>) -> (r: String)
    ensures
        r@ == join(parts.deep_view(), ','),
{
    let mut r = String::new();
    let mut i: usize = 0;
    proof {
        reveal_strlit(",");
    }
    while i < parts.len()
        invariant
            i <= parts@.len(),
            r@ == join(parts.deep_view().take(i as int), ','),
            ","@ == seq![','],
        decreases parts.len() - i,
    {
        assert(parts.deep_view().take(i + 1).drop_last() =~= parts.deep_view().take(i as int));
        if i > 0 {
            r.append(",");
        }
        r.append(parts[i].as_str());
        i = i + 1;
    }
    assert(parts.deep_view().take(parts@.len() as int) =~= parts.deep_view());
    r
}

/// `count` copies of `text`.
fn copies(text: &str, count: usize) -> (r: Vec<String>)
    ensures
        r.deep_view() == Seq::new(count as nat, |i: int| text@),
{
    let mut r: Vec<String> = Vec::new();
    let mut i: usize = 0;
    while i < count
        invariant
            i <= count,
            r.deep_view() =~= Seq::new(i as nat, |j: int| text@),
        decreases count - i,
    {
        let ghost before = r.deep_view();
        r.push(text.to_owned());
        assert(r.deep_view() =~= before.push(text@));
        i = i + 1;
    }
    r
}

/// The parameterized multi-row insert of `rows` rows into the kind's table,
/// one `?` per value: `INSERT INTO t (a,b) VALUES (?,?),(?,?)`.
pub fn insert_statement(kind: &RecordKind, rows: usize) -> (r: String)
    ensures
        r@ == insert_sql(*kind, rows as nat),
{
    let names = header(kind);
    assert(names.deep_view() =~= kind.column_names());
    let marks = copies("?", kind.columns.len());
    let mut tuple = "(".to_owned();
    tuple.append(join_texts(&marks).as_str());
    tuple.append(")");
    let tuples = copies(tuple.as_str(), rows);
    let mut r = "INSERT INTO ".to_owned();
    r.append(kind.export);
    r.append(" (");
    r.append(join_texts(&names).as_str());
    r.append(") VALUES ");
    r.append(join_texts(&tuples).as_str());
    r
}

/// The values bound to the insert of rows `from` to `to` (exclusive): each
/// row's values in turn.
pub fn chunk_values(rows: &Vec<Vec<String>>, from: usize, to: usize) -> (r: Vec<String>)
    requires
        from <= to <= rows@.len(),
    ensures
        r.deep_view() == flatten(rows.deep_view().subrange(from as int, to as int)),
{
    let mut r: Vec<String> = Vec::new();
    let mut i: usize = from;
    assert(rows.deep_view().subrange(from as int, from as int) =~= Seq::<Seq<Seq<char>>>::empty());
    while i < to
        invariant
            from <= i <= to <= rows@.len(),
            r.deep_view() =~= flatten(rows.deep_view().subrange(from as int, i as int)),
        decreases to - i,
    {
        assert(rows.deep_view().subrange(from as int, i + 1).drop_last() =~= rows.deep_view().subrange(
            from as int,
            i as int,
        ));
        let row = &rows[i];
        let mut j: usize = 0;
        let ghost base = r.deep_view();
        while j < row.len()
            invariant
                j <= row@.len(),
                r.deep_view() =~= base + row.deep_view().take(j as int),
            decreases row.len() - j,
        {
            let ghost before = r.deep_view();
            r.push(row[j].clone());
            assert(r.deep_view() =~= before.push(row.deep_view()[j as int]));
            assert(row.deep_view().take(j + 1) =~= row.deep_view().take(j as int).push(
                row.deep_view()[j as int],
            ));
            j = j + 1;
        }
        assert(row.deep_view().take(row@.len() as int) =~= row.deep_view());
        i = i + 1;
    }
    r
}

/// Where each chunk of a plan starts and ends among the rows: the row offset
/// at the end of each chunk.
pub fn row_offsets(groups: &Vec<usize>, ends: &Vec<usize>) -> (r: Vec<usize>)
    requires
        chunks_cover(ends@, groups@.len() as int),
        total(groups@, 0, groups@.len() as int) <= usize::MAX,
    ensures
        r@.len() == ends@.len(),
        forall|j: int| 0 <= j < r@.len() ==> r@[j] == total(groups@, 0, #[trigger] ends@[j] as int),
{
    let mut r: Vec<usize> = Vec::new();
    let mut sum: usize = 0;
    let mut g: usize = 0;
    let mut j: usize = 0;
    while j < ends.len()
        invariant
            chunks_cover(ends@, groups@.len() as int),
            total(groups@, 0, groups@.len() as int) <= usize::MAX,
            j <= ends@.len(),
            g == chunk_start(ends@, j as int),
            j < ends@.len() ==> g < ends@[j as int],
            sum == total(groups@, 0, g as int),
            r@.len() == j,
            forall|m: int| 0 <= m < j ==> r@[m] == total(groups@, 0, #[trigger] ends@[m] as int),
        decreases ends.len() - j,
    {
        let end = ends[j];
        proof {
            lemma_ends_bounded(ends@, groups@.len() as int, j as int);
        }
        while g < end
            invariant
                total(groups@, 0, groups@.len() as int) <= usize::MAX,
                g <= end <= groups@.len(),
                sum == total(groups@, 0, g as int),
            decreases end - g,
        {
            proof {
                lemma_total_grows(groups@, 0, g + 1, groups@.len() as int);
            }
            sum = sum + groups[g];
            g = g + 1;
        }
        r.push(sum);
        j = j + 1;
        proof {
            if j < ends@.len() {
                assert(chunk_start(ends@, j as int) < ends@[j as int]);
            }
        }
    }
    r
}

/// A chunk ends within the groups.
proof fn lemma_ends_bounded(ends: Seq<usize>, n: int, j: int)
    requires
        0 <= n,
        chunks_cover(ends, n),
        0 <= j < ends.len(),
    ensures
        ends[j] <= n,
    decreases ends.len() - j,
{
    if j < ends.len() - 1 {
        assert(chunk_start(ends, j + 1) < ends[j + 1]);
        lemma_ends_bounded(ends, n, j + 1);
    } else {
        assert(n > 0);
        assert(ends[j] == ends.last());
    }
}

/// A total over more groups is no smaller.
proof fn lemma_total_grows(groups: Seq<usize>, a: int, b: int, c: int)
    requires
        b <= c,
    ensures
        total(groups, a, b) <= total(groups, a, c),
    decreases c - b,
{
    if b < c {
        lemma_total_grows(groups, a, b, c - 1);
    }
}

} // verus!
