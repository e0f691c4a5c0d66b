//! The order in which a run visits its documents: the discovered paths,
//! sorted by character and without repeats, so that two runs over the same
//! files visit them alike whatever order they were discovered in.

use vstd::prelude::*;

verus! {

/// Lexicographic order on texts, by character code.
pub open spec fn text_lt(a: Seq<char>, b: Seq<char>) -> bool
    decreases a.len(),
{
    if a.len() == 0 {
        b.len() > 0
    } else if b.len() == 0 {
        false
    } else if a[0] != b[0] {
        a[0] < b[0]
    } else {
        text_lt(a.drop_first(), b.drop_first())
    }
}

/// Each text comes strictly before the next.
pub open spec fn strictly_sorted(s: Seq<Seq<char>>) -> bool {
    forall|i: int, j: int| 0 <= i < j < s.len() ==> text_lt(#[trigger] s[i], #[trigger] s[j])
}

/// The listing of a finite set of texts: its members in order, once each.
pub open spec fn listing(files: Set<Seq<char>>) -> Seq<Seq<char>> {
    choose|s: Seq<Seq<char>>| strictly_sorted(s) && s.to_set() == files
}

pub proof fn lemma_lt_irreflexive(a: Seq<char>)
    ensures
        !text_lt(a, a),
    decreases a.len(),
{
    if a.len() > 0 {
        lemma_lt_irreflexive(a.drop_first());
    }
}

pub proof fn lemma_lt_transitive(a: Seq<char>, b: Seq<char>, c: Seq<char>)
    requires
        text_lt(a, b),
        text_lt(b, c),
    ensures
        text_lt(a, c),
    decreases a.len(),
{
    if a.len() > 0 && b.len() > 0 && c.len() > 0 && a[0] == b[0] && b[0] == c[0] {
        lemma_lt_transitive(a.drop_first(), b.drop_first(), c.drop_first());
    }
}

pub proof fn lemma_lt_total(a: Seq<char>, b: Seq<char>)
    requires
        a != b,
    ensures
        text_lt(a, b) || text_lt(b, a),
    decreases a.len(),
{
    if a.len() > 0 && b.len() > 0 && a[0] == b[0] {
        if a.drop_first() == b.drop_first() {
            assert(a =~= seq![a[0]] + a.drop_first());
            assert(b =~= seq![b[0]] + b.drop_first());
        }
        lemma_lt_total(a.drop_first(), b.drop_first());
    } else if a.len() == 0 && b.len() == 0 {
        assert(a =~= b);
    }
}

/// Two strictly sorted sequences of the same texts are the same sequence.
pub proof fn lemma_sorted_unique(s: Seq<Seq<char>>, t: Seq<Seq<char>>)
    requires
        strictly_sorted(s),
        strictly_sorted(t),
        s.to_set() == t.to_set(),
    ensures
        s == t,
    decreases s.len(),
{
    if s.len() == 0 {
        if t.len() > 0 {
            assert(t.to_set().contains(t[0]));
        }
        assert(s =~= t);
    } else {
        assert(s.to_set().contains(s[0]));
        assert(t.len() > 0);
        assert(t.to_set().contains(t[0]));
        let k = choose|k: int| 0 <= k < t.len() && t[k] == s[0];
        let m = choose|m: int| 0 <= m < s.len() && s[m] == t[0];
        if k > 0 {
            assert(text_lt(t[0], t[k]));
            if m > 0 {
                assert(text_lt(s[0], s[m]));
                lemma_lt_transitive(t[0], s[0], t[0]);
            }
            lemma_lt_irreflexive(t[0]);
        }
        assert(s[0] == t[0]);
        let s1 = s.drop_first();
        let t1 = t.drop_first();
        assert forall|x: Seq<char>| s1.to_set().contains(x) <==> t1.to_set().contains(x) by {
            if s1.to_set().contains(x) {
                let i = choose|i: int| 0 <= i < s1.len() && s1[i] == x;
                assert(s.to_set().contains(s[i + 1]));
                let j = choose|j: int| 0 <= j < t.len() && t[j] == x;
                if j == 0 {
                    assert(text_lt(s[0], s[i + 1]));
                    lemma_lt_irreflexive(x);
                }
                assert(t1[j - 1] == x);
            }
            if t1.to_set().contains(x) {
                let i = choose|i: int| 0 <= i < t1.len() && t1[i] == x;
                assert(t.to_set().contains(t[i + 1]));
                let j = choose|j: int| 0 <= j < s.len() && s[j] == x;
                if j == 0 {
                    assert(text_lt(t[0], t[i + 1]));
                    lemma_lt_irreflexive(x);
                }
                assert(s1[j - 1] == x);
            }
        }
        assert(s1.to_set() =~= t1.to_set());
        lemma_sorted_unique(s1, t1);
        assert(s =~= seq![s[0]] + s1);
        assert(t =~= seq![t[0]] + t1);
    }
}

/// A strictly sorted sequence is the listing of its texts.
pub proof fn lemma_is_listing(s: Seq<Seq<char>>)
    requires
        strictly_sorted(s),
    ensures
        listing(s.to_set()) == s,
{
    let t = listing(s.to_set());
    assert(strictly_sorted(t) && t.to_set() == s.to_set());
    lemma_sorted_unique(t, s);
}

/// Whether `a` comes strictly before `b`.
pub fn text_less(a: &str, b: &str) -> (r: bool)
    ensures
        r == text_lt(a@, b@),
{
    let n = a.unicode_len();
    let m = b.unicode_len();
    let mut i: usize = 0;
    assert(a@.skip(0) =~= a@);
    assert(b@.skip(0) =~= b@);
    while i < n && i < m
        invariant
            n == a@.len(),
            m == b@.len(),
            i <= n,
            i <= m,
            text_lt(a@, b@) == text_lt(a@.skip(i as int), b@.skip(i as int)),
        decreases n - i,
    {
        let x = a.get_char(i);
        let y = b.get_char(i);
        if x != y {
            return x < y;
        }
        assert(a@.skip(i as int).drop_first() =~= a@.skip(i + 1));
        assert(b@.skip(i as int).drop_first() =~= b@.skip(i + 1));
        i = i + 1;
    }
    i == n && i < m
}

/// The discovered paths in the order a run visits them: sorted by character,
/// each once. Each path is placed by binary search, so paths that arrive
/// already in order are only appended.
pub fn sort_paths(paths: &Vec<String>) -> (r: Vec<String>)
    ensures
        r.deep_view() == listing(paths.deep_view().to_set()),
{
    let ghost all = paths.deep_view();
    let mut r: Vec<String> = Vec::new();
    let mut i: usize = 0;
    assert(all.take(0).to_set() =~= r.deep_view().to_set());
    while i < paths.len()
        invariant
            i <= paths@.len(),
            all == paths.deep_view(),
            strictly_sorted(r.deep_view()),
            r.deep_view().to_set() == all.take(i as int).to_set(),
        decreases paths.len() - i,
    {
        let p = &paths[i];
        let ghost pv = p@;
        let ghost old_r = r.deep_view();
        let mut lo: usize = 0;
        let mut hi: usize = r.len();
        while lo < hi
            invariant
                lo <= hi <= r@.len(),
                old_r == r.deep_view(),
                pv == p@,
                strictly_sorted(old_r),
                forall|j: int| 0 <= j < lo ==> text_lt(#[trigger] old_r[j], pv),
                forall|j: int| hi <= j < old_r.len() ==> !text_lt(#[trigger] old_r[j], pv),
            decreases hi - lo,
        {
            let mid = lo + (hi - lo) / 2;
            if text_less(r[mid].as_str(), p.as_str()) {
                assert forall|j: int| 0 <= j < mid + 1 implies text_lt(#[trigger] old_r[j], pv) by {
                    if j < mid {
                        lemma_lt_transitive(old_r[j], old_r[mid as int], pv);
                    }
                }
                lo = mid + 1;
            } else {
                assert forall|j: int| mid <= j < old_r.len() implies !text_lt(
                    #[trigger] old_r[j],
                    pv,
                ) by {
                    if j > mid && text_lt(old_r[j], pv) {
                        lemma_lt_transitive(old_r[mid as int], old_r[j], pv);
                    }
                }
                hi = mid;
            }
        }
        let pos = lo;
        let ghost seen = all.take(i as int);
        let ghost upto = all.take(i + 1);
        assert(upto =~= seen.push(pv));
        if pos < r.len() && crate::document::same_text(r[pos].as_str(), p.as_str()) {
            assert(old_r[pos as int] == pv);
            assert(upto.to_set() =~= old_r.to_set()) by {
                assert(old_r.to_set().contains(old_r[pos as int]));
            }
        } else {
            proof {
                if pos < old_r.len() {
                    assert(!text_lt(old_r[pos as int], pv));
                    lemma_lt_total(old_r[pos as int], pv);
                }
            }
            r.insert(pos, p.clone());
            let ghost new_r = old_r.insert(pos as int, pv);
            assert(r.deep_view() =~= new_r);
            assert forall|a: int, b: int| 0 <= a < b < new_r.len() implies text_lt(
                #[trigger] new_r[a],
                #[trigger] new_r[b],
            ) by {
                if b < pos {
                } else if b == pos {
                    assert(new_r[a] == old_r[a]);
                } else if a == pos {
                    if b - 1 > pos {
                        assert(text_lt(old_r[pos as int], old_r[b - 1]));
                        lemma_lt_transitive(pv, old_r[pos as int], old_r[b - 1]);
                    }
                } else if a < pos {
                    assert(text_lt(old_r[a], pv));
                    if pos < old_r.len() {
                        lemma_lt_transitive(old_r[a], pv, old_r[pos as int]);
                        if b - 1 > pos {
                            lemma_lt_transitive(old_r[a], old_r[pos as int], old_r[b - 1]);
                        }
                    }
                    assert(text_lt(old_r[a], old_r[b - 1]));
                } else {
                    assert(text_lt(old_r[a - 1], old_r[b - 1]));
                }
            }
            assert forall|x: Seq<char>| new_r.to_set().contains(x) <==> upto.to_set().contains(x) by {
                if new_r.to_set().contains(x) {
                    let j = choose|j: int| 0 <= j < new_r.len() && new_r[j] == x;
                    if j < pos {
                        assert(old_r.to_set().contains(old_r[j]));
                    } else if j > pos {
                        assert(old_r.to_set().contains(old_r[j - 1]));
                    }
                    if x != pv {
                        assert(seen.to_set().contains(x));
                        let q = choose|q: int| 0 <= q < seen.len() && seen[q] == x;
                        assert(upto[q] == x);
                    } else {
                        assert(upto[i as int] == x);
                    }
                }
                if upto.to_set().contains(x) {
                    let q = choose|q: int| 0 <= q < upto.len() && upto[q] == x;
                    if q < i {
                        assert(seen[q] == x);
                        assert(seen.to_set().contains(x));
                        assert(old_r.to_set().contains(x));
                        let j = choose|j: int| 0 <= j < old_r.len() && old_r[j] == x;
                        if j < pos {
                            assert(new_r[j] == x);
                        } else {
                            assert(new_r[j + 1] == x);
                        }
                    } else {
                        assert(new_r[pos as int] == x);
                    }
                }
            }
            assert(new_r.to_set() =~= upto.to_set());
        }
        i = i + 1;
    }
    assert(all.take(paths@.len() as int) =~= all);
    proof {
        lemma_is_listing(r.deep_view());
    }
    r
}

} // verus!
