//! Edit distance between two strings: the minimum number of single-character
//! insertions, deletions and substitutions that turn one into the other, with
//! a dynamic-programming implementation proved against the definition.

use vstd::prelude::*;

use crate::text::chars_of;

verus! {

/// The least of three values.
pub open spec fn min3(a: int, b: int, c: int) -> int {
    if a <= b && a <= c {
        a
    } else if b <= c {
        b
    } else {
        c
    }
}

/// Edit distance: the minimum number of single-character insertions,
/// deletions and substitutions transforming `a` into `b`.
pub open spec fn edit_distance(a: Seq<char>, b: Seq<char>) -> int
    decreases a.len() + b.len(),
{
    if a.len() == 0 {
        b.len() as int
    } else if b.len() == 0 {
        a.len() as int
    } else {
        let subst = edit_distance(a.drop_last(), b.drop_last()) + if a.last() == b.last() {
            0int
        } else {
            1int
        };
        let delete = edit_distance(a.drop_last(), b) + 1;
        let insert = edit_distance(a, b.drop_last()) + 1;
        min3(subst, delete, insert)
    }
}

/// The edit distance never exceeds the length of the longer string.
pub proof fn lemma_edit_distance_bounds(a: Seq<char>, b: Seq<char>)
    ensures
        0 <= edit_distance(a, b),
        edit_distance(a, b) <= if a.len() >= b.len() {
            a.len() as int
        } else {
            b.len() as int
        },
    decreases a.len() + b.len(),
{
    if a.len() > 0 && b.len() > 0 {
        lemma_edit_distance_bounds(a.drop_last(), b.drop_last());
        lemma_edit_distance_bounds(a.drop_last(), b);
        lemma_edit_distance_bounds(a, b.drop_last());
    }
}

/// Edit distance between two character vectors, by the usual row-by-row
/// dynamic programming over prefix pairs.
pub fn levenshtein_chars(a: &Vec<char>, b: &Vec<char>) -> (r: usize)
    ensures
        r == edit_distance(a@, b@),
{
    let m = a.len();
    let n = b.len();
    // Row for the empty prefix of `a`: distance to each prefix of `b`.
    let mut prev: Vec<usize> = Vec::new();
    prev.push(0);
    let mut j: usize = 0;
    while j < n
        invariant
            j <= n,
            n == b@.len(),
            prev@.len() == j + 1,
            forall|q: int| 0 <= q <= j ==> prev@[q] == edit_distance(a@.take(0), b@.take(q)),
        decreases n - j,
    {
        proof {
            assert(a@.take(0) =~= Seq::<char>::empty());
            assert(b@.take(j + 1).len() == j + 1);
        }
        prev.push(j + 1);
        j = j + 1;
    }
    let mut i: usize = 0;
    while i < m
        invariant
            i <= m,
            m == a@.len(),
            n == b@.len(),
            prev@.len() == n + 1,
            forall|q: int| 0 <= q <= n ==> prev@[q] == edit_distance(a@.take(i as int), b@.take(q)),
        decreases m - i,
    {
        let mut cur: Vec<usize> = Vec::new();
        proof {
            assert(b@.take(0) =~= Seq::<char>::empty());
            assert(a@.take(i + 1).len() == i + 1);
        }
        cur.push(i + 1);
        let mut j: usize = 0;
        while j < n
            invariant
                i < m,
                j <= n,
                m == a@.len(),
                n == b@.len(),
                prev@.len() == n + 1,
                forall|q: int| 0 <= q <= n ==> prev@[q] == edit_distance(
                    a@.take(i as int),
                    b@.take(q),
                ),
                cur@.len() == j + 1,
                forall|q: int| 0 <= q <= j ==> cur@[q] == edit_distance(
                    a@.take(i + 1),
                    b@.take(q),
                ),
            decreases n - j,
        {
            let cost: usize = if *a.get(i).unwrap() == *b.get(j).unwrap() {
                0
            } else {
                1
            };
            proof {
                lemma_edit_distance_bounds(a@.take(i as int), b@.take(j as int));
            }
            let mut val: usize = prev[j] + cost;
            if prev[j + 1] < val {
                val = prev[j + 1] + 1;
            }
            if cur[j] < val {
                val = cur[j] + 1;
            }
            proof {
                let pa = a@.take(i + 1);
                let pb = b@.take(j + 1);
                assert(pa.drop_last() =~= a@.take(i as int));
                assert(pb.drop_last() =~= b@.take(j as int));
                assert(pa.last() == a@[i as int]);
                assert(pb.last() == b@[j as int]);
                assert(edit_distance(pa, pb) == min3(
                    edit_distance(a@.take(i as int), b@.take(j as int)) + if a@[i as int] == b@[
                        j as int
                    ] {
                        0int
                    } else {
                        1int
                    },
                    edit_distance(a@.take(i as int), b@.take(j + 1)) + 1,
                    edit_distance(a@.take(i + 1), b@.take(j as int)) + 1,
                ));
            }
            cur.push(val);
            j = j + 1;
        }
        prev = cur;
        i = i + 1;
    }
    proof {
        assert(a@.take(m as int) =~= a@);
        assert(b@.take(n as int) =~= b@);
    }
    prev[n]
}

/// Edit distance between two strings.
pub fn levenshtein(a: &str, b: &str) -> (r: usize)
    ensures
        r == edit_distance(a@, b@),
{
    let ca = chars_of(a);
    let cb = chars_of(b);
    levenshtein_chars(&ca, &cb)
}

} // verus!
