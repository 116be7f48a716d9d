//! Reconciliation of the citation-key collection against the bibliography-key
//! collection: the set difference (exact, case-sensitive membership, order and
//! duplicates preserved on the citation side), the nearest bibliography key
//! for each unmatched citation, and the textual report lines.

use vstd::prelude::*;
use vstd::string::StringExecFns;

use crate::distance::edit_distance;
use crate::distance::levenshtein;
use crate::text::views_of;

verus! {

// ---------------------------------------------------------------------------
// Set difference
// ---------------------------------------------------------------------------
/// The predicate "has no exactly-equal key anywhere in `ks`".
pub open spec fn missing_from(ks: Seq<Seq<char>>) -> spec_fn(Seq<char>) -> bool {
    |c: Seq<char>| !ks.contains(c)
}

/// The citations of `cs` that have no exactly-equal key in `ks`, in citation
/// order, duplicates kept.
pub open spec fn unmatched_spec(cs: Seq<Seq<char>>, ks: Seq<Seq<char>>) -> Seq<Seq<char>> {
    cs.filter(missing_from(ks))
}

/// Whether some key of `keys` equals `key` exactly.
fn contains_key(keys: &Vec<String>, key: &String) -> (r: bool)
    ensures
        r == views_of(keys@).contains(key@),
{
    let n = keys.len();
    let mut i: usize = 0;
    while i < n
        invariant
            i <= n,
            n == keys@.len(),
            forall|q: int| 0 <= q < i ==> keys@[q]@ != key@,
        decreases n - i,
    {
        if keys[i] == *key {
            proof {
                assert(views_of(keys@)[i as int] == key@);
            }
            return true;
        }
        i = i + 1;
    }
    proof {
        assert(forall|q: int| 0 <= q < keys@.len() ==> views_of(keys@)[q] != key@);
    }
    false
}

/// The citation keys with no matching bibliography key, in citation order,
/// duplicates kept.
pub fn unmatched_citations(citations: &Vec<String>, bib_keys: &Vec<String>) -> (r: Vec<String>)
    ensures
        views_of(r@) == unmatched_spec(views_of(citations@), views_of(bib_keys@)),
{
    let ghost cv = views_of(citations@);
    let ghost ks = views_of(bib_keys@);
    let n = citations.len();
    let mut out: Vec<String> = Vec::new();
    let mut i: usize = 0;
    while i < n
        invariant
            i <= n,
            n == citations@.len(),
            cv == views_of(citations@),
            ks == views_of(bib_keys@),
            views_of(out@) == cv.take(i as int).filter(missing_from(ks)),
        decreases n - i,
    {
        let ghost out0 = out@;
        let present = contains_key(bib_keys, &citations[i]);
        if !present {
            let c = citations[i].clone();
            out.push(c);
        }
        proof {
            reveal(Seq::filter);
            let pred = missing_from(ks);
            let t1 = cv.take(i + 1);
            assert(t1.drop_last() =~= cv.take(i as int));
            assert(t1.last() == cv[i as int]);
            assert(pred(cv[i as int]) == !ks.contains(cv[i as int]));
            if !ks.contains(cv[i as int]) {
                assert(views_of(out@) =~= views_of(out0).push(cv[i as int]));
            } else {
                assert(views_of(out@) =~= views_of(out0));
            }
            assert(views_of(out@) =~= t1.filter(pred));
        }
        i = i + 1;
    }
    proof {
        assert(cv.take(n as int) =~= cv);
    }
    out
}

// ---------------------------------------------------------------------------
// Nearest match
// ---------------------------------------------------------------------------
/// Index of the bibliography key nearest to `key` by edit distance, the first
/// in bibliography order among those tying for the minimum; 0 when `ks` has
/// at most one key.
pub open spec fn nearest_index(key: Seq<char>, ks: Seq<Seq<char>>) -> int
    decreases ks.len(),
{
    if ks.len() <= 1 {
        0
    } else {
        let p = nearest_index(key, ks.drop_last());
        if edit_distance(key, ks.last()) < edit_distance(key, ks[p]) {
            ks.len() - 1
        } else {
            p
        }
    }
}

/// The suggested nearest key: the first bibliography key achieving the
/// minimum edit distance, or the empty string when the collection is empty.
pub open spec fn nearest_spec(key: Seq<char>, ks: Seq<Seq<char>>) -> Seq<char> {
    if ks.len() == 0 {
        Seq::empty()
    } else {
        ks[nearest_index(key, ks)]
    }
}

/// Nearest-match tie-break: the suggestion is a key achieving the minimum
/// edit distance to the query, and every key standing before it in
/// bibliography order lies strictly further away, so among tying candidates
/// the first in bibliography order is returned.
pub proof fn lemma_nearest_first_min(key: Seq<char>, ks: Seq<Seq<char>>)
    requires
        ks.len() > 0,
    ensures
        0 <= nearest_index(key, ks) < ks.len(),
        nearest_spec(key, ks) == ks[nearest_index(key, ks)],
        forall|j: int|
            0 <= j < ks.len() ==> edit_distance(key, ks[nearest_index(key, ks)])
                <= edit_distance(key, #[trigger] ks[j]),
        forall|j: int|
            0 <= j < nearest_index(key, ks) ==> edit_distance(key, #[trigger] ks[j])
                > edit_distance(key, ks[nearest_index(key, ks)]),
    decreases ks.len(),
{
    if ks.len() > 1 {
        lemma_nearest_first_min(key, ks.drop_last());
        assert(forall|j: int| 0 <= j < ks.len() - 1 ==> ks.drop_last()[j] == ks[j]);
    }
}

/// Nearest-match is deterministic: the suggestion is a function of the query
/// and the bibliography-key collection alone, so for a fixed collection and a
/// fixed query, repeated lookups agree.
pub proof fn lemma_nearest_deterministic(
    key: Seq<char>,
    ks: Seq<Seq<char>>,
    r1: Seq<char>,
    r2: Seq<char>,
)
    requires
        r1 == nearest_spec(key, ks),
        r2 == nearest_spec(key, ks),
    ensures
        r1 == r2,
{
}

/// The bibliography key nearest to `key` by edit distance, the first in
/// bibliography order among those tying for the minimum; the empty string
/// when the bibliography-key collection is empty.
pub fn find_nearest(key: &str, keys: &Vec<String>) -> (r: String)
    ensures
        r@ == nearest_spec(key@, views_of(keys@)),
        keys@.len() == 0 ==> r@ == Seq::<char>::empty(),
{
    let n = keys.len();
    if n == 0 {
        return String::new();
    }
    let ghost ks = views_of(keys@);
    let mut best_idx: usize = 0;
    let mut best_dist = levenshtein(key, keys[0].as_str());
    let mut i: usize = 1;
    while i < n
        invariant
            1 <= i <= n,
            n == keys@.len(),
            ks == views_of(keys@),
            best_idx < i,
            best_idx == nearest_index(key@, ks.take(i as int)),
            best_dist == edit_distance(key@, ks[best_idx as int]),
        decreases n - i,
    {
        let d = levenshtein(key, keys[i].as_str());
        proof {
            let t1 = ks.take(i + 1);
            assert(t1.drop_last() =~= ks.take(i as int));
            assert(t1.last() == ks[i as int]);
            assert(t1[nearest_index(key@, ks.take(i as int))] == ks[best_idx as int]);
        }
        if d < best_dist {
            best_idx = i;
            best_dist = d;
        }
        proof {
            assert(best_idx == nearest_index(key@, ks.take(i + 1)));
        }
        i = i + 1;
    }
    proof {
        assert(ks.take(n as int) =~= ks);
    }
    keys[best_idx].clone()
}

// ---------------------------------------------------------------------------
// The report
// ---------------------------------------------------------------------------
/// The report line for one unmatched citation and its suggested key.
pub open spec fn report_line_spec(key: Seq<char>, nearest: Seq<char>) -> Seq<char> {
    key + " not found in bib. Most similar key in bib: "@ + nearest
}

/// The report line mapping an unmatched citation to its text, for a fixed
/// bibliography-key collection.
pub open spec fn report_map(ks: Seq<Seq<char>>) -> spec_fn(Seq<char>) -> Seq<char> {
    |c: Seq<char>| report_line_spec(c, nearest_spec(c, ks))
}

/// The full report: one line per unmatched citation, in citation order.
pub open spec fn report_lines_spec(cs: Seq<Seq<char>>, ks: Seq<Seq<char>>) -> Seq<Seq<char>> {
    unmatched_spec(cs, ks).map_values(report_map(ks))
}

/// The report line for one unmatched citation.
pub fn report_line(key: &str, nearest: &str) -> (r: String)
    ensures
        r@ == report_line_spec(key@, nearest@),
{
    let mut r = String::from_str(key);
    r.append(" not found in bib. Most similar key in bib: ");
    r.append(nearest);
    r
}

/// The full report for a citation-key collection against a bibliography-key
/// collection: one line per unmatched citation, in the order citations were
/// discovered, each pairing the citation with its nearest bibliography key.
pub fn reconcile_report(citations: &Vec<String>, bib_keys: &Vec<String>) -> (r: Vec<String>)
    ensures
        views_of(r@) == report_lines_spec(views_of(citations@), views_of(bib_keys@)),
{
    let ghost ks = views_of(bib_keys@);
    let un = unmatched_citations(citations, bib_keys);
    let ghost uv = views_of(un@);
    let n = un.len();
    let mut out: Vec<String> = Vec::new();
    let mut i: usize = 0;
    while i < n
        invariant
            i <= n,
            n == un@.len(),
            uv == views_of(un@),
            ks == views_of(bib_keys@),
            uv == unmatched_spec(views_of(citations@), ks),
            views_of(out@) == uv.take(i as int).map_values(report_map(ks)),
        decreases n - i,
    {
        let ghost out0 = out@;
        let nearest = find_nearest(un[i].as_str(), bib_keys);
        let line = report_line(un[i].as_str(), nearest.as_str());
        out.push(line);
        proof {
            let rm = report_map(ks);
            let t1 = uv.take(i + 1);
            assert(out@ == out0.push(line));
            assert(views_of(out0).len() == out0.len());
            assert(out0.len() == i);
            assert(line@ == report_line_spec(uv[i as int], nearest_spec(uv[i as int], ks)));
            assert(rm(uv[i as int]) == report_line_spec(uv[i as int], nearest_spec(uv[i as int], ks)));
            assert forall|q: int| 0 <= q < i + 1 implies views_of(out@)[q] == t1.map_values(rm)[q] by {
                assert(t1[q] == uv[q]);
                if q < i {
                    assert(out@[q] == out0[q]);
                    assert(views_of(out0)[q] == uv.take(i as int).map_values(rm)[q]);
                } else {
                    assert(out@[q] == line);
                }
            }
            assert(views_of(out@) =~= t1.map_values(rm));
        }
        i = i + 1;
    }
    proof {
        assert(uv.take(n as int) =~= uv);
    }
    out
}

// ---------------------------------------------------------------------------
// Laws
// ---------------------------------------------------------------------------
/// Set-difference is order-preserving and duplicate-preserving on the
/// citation side: the unmatched citations of a concatenation are the
/// concatenation of the unmatched citations of the parts.
pub proof fn lemma_set_difference_append(
    cs1: Seq<Seq<char>>,
    cs2: Seq<Seq<char>>,
    ks: Seq<Seq<char>>,
)
    ensures
        unmatched_spec(cs1 + cs2, ks) == unmatched_spec(cs1, ks) + unmatched_spec(cs2, ks),
{
    Seq::filter_distributes_over_add(cs1, cs2, missing_from(ks));
}

/// A citation with no matching bibliography key always contributes exactly
/// one unmatched entry, so citing the same missing key twice produces two.
pub proof fn lemma_set_difference_singleton(c: Seq<char>, ks: Seq<Seq<char>>)
    requires
        !ks.contains(c),
    ensures
        unmatched_spec(seq![c], ks) == seq![c],
{
    reveal(Seq::filter);
    let s = seq![c];
    assert(s.drop_last() =~= Seq::<Seq<char>>::empty());
    assert(Seq::<Seq<char>>::empty().filter(missing_from(ks)) =~= Seq::<Seq<char>>::empty());
    assert(missing_from(ks)(c) == !ks.contains(c));
    assert(s.filter(missing_from(ks)) =~= Seq::<Seq<char>>::empty().push(c));
    assert(Seq::<Seq<char>>::empty().push(c) =~= s);
}

} // verus!
