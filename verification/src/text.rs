//! Character-level text utilities shared by the extractors: searching for the
//! first character satisfying a predicate, trimming whitespace, and turning a
//! string slice into its character vector.

use vstd::prelude::*;

verus! {

/// The character sequences of a sequence of strings.
pub open spec fn views_of(ss: Seq<String>) -> Seq<Seq<char>> {
    ss.map_values(|s: String| s@)
}

/// The blank characters that trimming removes from both ends of a key.
pub open spec fn is_space_char(c: char) -> bool {
    c == ' ' || c == '\t' || c == '\n' || c == '\r' || c == '\u{b}' || c == '\u{c}'
}

/// Word characters as an entry type may use them: letters, digits, underscore.
pub open spec fn is_word_char(c: char) -> bool {
    ||| 97 <= c as u32 <= 122
    ||| 65 <= c as u32 <= 90
    ||| 48 <= c as u32 <= 57
    ||| c == '_'
}

/// The predicate "is exactly the character `c`".
pub open spec fn is_char(c: char) -> spec_fn(char) -> bool {
    |x: char| x == c
}

/// The predicate "is not a blank character".
pub open spec fn not_space() -> spec_fn(char) -> bool {
    |x: char| !is_space_char(x)
}

/// The predicate "is not a word character".
pub open spec fn not_word() -> spec_fn(char) -> bool {
    |x: char| !is_word_char(x)
}

/// First index at or after `i` whose character satisfies `p`; `s.len()` if
/// no such index exists (also for any `i` outside `0 ..= s.len()`).
pub open spec fn find_first(s: Seq<char>, i: int, p: spec_fn(char) -> bool) -> int
    decreases s.len() - i,
{
    if i < 0 || i >= s.len() {
        s.len() as int
    } else if p(s[i]) {
        i
    } else {
        find_first(s, i + 1, p)
    }
}

/// First index at or after `i` holding the character `c`; `s.len()` if none.
pub open spec fn find_char(s: Seq<char>, i: int, c: char) -> int {
    find_first(s, i, is_char(c))
}

/// `find_first` lands between `i` and `s.len()`, on a character satisfying
/// `p` when it lands inside, and nothing before it satisfies `p`.
pub proof fn lemma_find_first_bounds(s: Seq<char>, i: int, p: spec_fn(char) -> bool)
    requires
        0 <= i <= s.len(),
    ensures
        i <= find_first(s, i, p) <= s.len(),
        find_first(s, i, p) < s.len() ==> p(s[find_first(s, i, p)]),
        forall|j: int| i <= j < find_first(s, i, p) ==> !p(s[j]),
    decreases s.len() - i,
{
    if i < s.len() && !p(s[i]) {
        lemma_find_first_bounds(s, i + 1, p);
    }
}

/// `find_first` is pinned to `k` when nothing in `[i, k)` satisfies `p` and
/// `k` is the end of the sequence or satisfies `p`.
pub proof fn lemma_find_first_exact(s: Seq<char>, i: int, k: int, p: spec_fn(char) -> bool)
    requires
        0 <= i <= k <= s.len(),
        forall|j: int| i <= j < k ==> !p(s[j]),
        k < s.len() ==> p(s[k]),
    ensures
        find_first(s, i, p) == k,
    decreases k - i,
{
    if i < k {
        lemma_find_first_exact(s, i + 1, k, p);
    }
}

/// `s` with its leading blank characters removed.
pub open spec fn trim_start_spec(s: Seq<char>) -> Seq<char>
    decreases s.len(),
{
    if s.len() > 0 && is_space_char(s[0]) {
        trim_start_spec(s.drop_first())
    } else {
        s
    }
}

/// `s` with its trailing blank characters removed.
pub open spec fn trim_end_spec(s: Seq<char>) -> Seq<char>
    decreases s.len(),
{
    if s.len() > 0 && is_space_char(s.last()) {
        trim_end_spec(s.drop_last())
    } else {
        s
    }
}

/// `s` with blank characters removed from both ends.
pub open spec fn trim_spec(s: Seq<char>) -> Seq<char> {
    trim_end_spec(trim_start_spec(s))
}

/// Whether the character is one that trimming removes.
pub fn is_space(c: char) -> (r: bool)
    ensures
        r == is_space_char(c),
{
    c == ' ' || c == '\t' || c == '\n' || c == '\r' || c == '\u{b}' || c == '\u{c}'
}

/// Whether the character is a word character.
pub fn is_word(c: char) -> (r: bool)
    ensures
        r == is_word_char(c),
{
    let u = c as u32;
    (97 <= u && u <= 122) || (65 <= u && u <= 90) || (48 <= u && u <= 57) || c == '_'
}

/// The characters of `s`, in order.
pub fn chars_of(s: &str) -> (r: Vec<char>)
    ensures
        r@ == s@,
{
    let n = s.unicode_len();
    let mut r: Vec<char> = Vec::new();
    let mut i: usize = 0;
    while i < n
        invariant
            n == s@.len(),
            i <= n,
            r@.len() == i,
            forall|j: int| 0 <= j < i ==> r@[j] == s@[j],
        decreases n - i,
    {
        r.push(s.get_char(i));
        i = i + 1;
    }
    assert(r@ =~= s@);
    r
}

/// First index at or after `from` holding the character `c`, or the length
/// of `cs` if the character does not occur there.
pub fn find_char_exec(cs: &Vec<char>, from: usize, c: char) -> (r: usize)
    requires
        from <= cs@.len(),
    ensures
        r == find_char(cs@, from as int, c),
        from <= r <= cs@.len(),
{
    let n = cs.len();
    let mut j = from;
    while j < n && *cs.get(j).unwrap() != c
        invariant
            from <= j <= n,
            n == cs@.len(),
            find_char(cs@, from as int, c) == find_char(cs@, j as int, c),
        decreases n - j,
    {
        j = j + 1;
    }
    proof {
        if j < n {
            assert(is_char(c)(cs@[j as int]) == (cs@[j as int] == c));
        }
    }
    j
}

/// The bounds of the trimmed middle of `cs[lo .. hi]`: both ends stripped of
/// blank characters.
pub fn trim_bounds(cs: &Vec<char>, lo: usize, hi: usize) -> (r: (usize, usize))
    requires
        lo <= hi <= cs@.len(),
    ensures
        lo <= r.0 <= r.1 <= hi,
        cs@.subrange(r.0 as int, r.1 as int) == trim_spec(cs@.subrange(lo as int, hi as int)),
{
    let mut a = lo;
    while a < hi && is_space(*cs.get(a).unwrap())
        invariant
            lo <= a <= hi <= cs@.len(),
            trim_start_spec(cs@.subrange(lo as int, hi as int)) == trim_start_spec(
                cs@.subrange(a as int, hi as int),
            ),
        decreases hi - a,
    {
        proof {
            assert(cs@.subrange(a as int, hi as int).drop_first() =~= cs@.subrange(
                a + 1,
                hi as int,
            ));
        }
        a = a + 1;
    }
    proof {
        assert(trim_start_spec(cs@.subrange(a as int, hi as int)) == cs@.subrange(
            a as int,
            hi as int,
        ));
    }
    let mut b = hi;
    while b > a && is_space(*cs.get(b - 1).unwrap())
        invariant
            lo <= a <= b <= hi <= cs@.len(),
            trim_end_spec(cs@.subrange(a as int, hi as int)) == trim_end_spec(
                cs@.subrange(a as int, b as int),
            ),
        decreases b,
    {
        proof {
            assert(cs@.subrange(a as int, b as int).drop_last() =~= cs@.subrange(
                a as int,
                b - 1,
            ));
        }
        b = b - 1;
    }
    proof {
        assert(trim_end_spec(cs@.subrange(a as int, b as int)) == cs@.subrange(
            a as int,
            b as int,
        ));
    }
    (a, b)
}

} // verus!
