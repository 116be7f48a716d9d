//! Extraction of citation keys from document lines and of entry keys from
//! bibliography lines.
//!
//! A citation command has the shape `\cite..{arglist}`: the characters `\cite`,
//! then any characters other than `{` up to the first `{`, then the argument
//! list, which runs to the first `}` and is split on commas into trimmed keys.
//! Matches are found left to right and do not overlap; a command without a
//! closing brace on its line yields nothing.
//!
//! A bibliography entry header is a line that, after leading whitespace,
//! reads `@type{key,` with a non-empty word-character type and a non-empty
//! key running to the first comma; the declared key is trimmed. At most one
//! key is taken per line, and lines of any other shape yield nothing.

use vstd::prelude::*;

use crate::text::chars_of;
use crate::text::find_char;
use crate::text::find_char_exec;
use crate::text::find_first;
use crate::text::is_char;
use crate::text::is_space;
use crate::text::is_space_char;
use crate::text::is_word;
use crate::text::is_word_char;
use crate::text::lemma_find_first_bounds;
use crate::text::lemma_find_first_exact;
use crate::text::not_space;
use crate::text::not_word;
use crate::text::trim_bounds;
use crate::text::trim_spec;
use crate::text::views_of;

verus! {

// ---------------------------------------------------------------------------
// Splitting an argument list on commas
// ---------------------------------------------------------------------------
/// The pieces of `s[i ..]` between commas, in order. A string without a comma
/// is one piece; each comma ends a piece, so trailing commas yield empty
/// pieces.
pub open spec fn split_commas_from(s: Seq<char>, i: int) -> Seq<Seq<char>>
    decreases s.len() - i,
    via split_commas_from_decreases
{
    if i < 0 || i > s.len() {
        Seq::empty()
    } else {
        let m = find_char(s, i, ',');
        if m >= s.len() {
            seq![s.subrange(i, s.len() as int)]
        } else {
            seq![s.subrange(i, m)] + split_commas_from(s, m + 1)
        }
    }
}

#[via_fn]
proof fn split_commas_from_decreases(s: Seq<char>, i: int) {
    if 0 <= i <= s.len() {
        lemma_find_first_bounds(s, i, is_char(','));
    }
}

/// Each piece trimmed of surrounding whitespace.
pub open spec fn trim_each(ts: Seq<Seq<char>>) -> Seq<Seq<char>> {
    ts.map_values(|t: Seq<char>| trim_spec(t))
}

/// The trimmed comma-separated pieces of `s[i ..]`.
pub open spec fn split_trim_from(s: Seq<char>, i: int) -> Seq<Seq<char>> {
    trim_each(split_commas_from(s, i))
}

/// The trimmed comma-separated pieces of an argument list.
pub open spec fn split_trim(s: Seq<char>) -> Seq<Seq<char>> {
    split_trim_from(s, 0)
}

// ---------------------------------------------------------------------------
// The citation-command pattern
// ---------------------------------------------------------------------------
/// The characters `\cite` stand at position `i` of `s`.
pub open spec fn cite_cmd_at(s: Seq<char>, i: int) -> bool {
    &&& 0 <= i
    &&& i + 5 <= s.len()
    &&& s[i] == '\\'
    &&& s[i + 1] == 'c'
    &&& s[i + 2] == 'i'
    &&& s[i + 3] == 't'
    &&& s[i + 4] == 'e'
}

/// Position of the opening brace of a citation command at `i`: the first `{`
/// after the command name (any characters other than `{` may intervene).
pub open spec fn cite_open(s: Seq<char>, i: int) -> int {
    find_char(s, i + 5, '{')
}

/// Position of the closing brace: the first `}` after the opening brace.
pub open spec fn cite_close(s: Seq<char>, i: int) -> int {
    find_char(s, cite_open(s, i) + 1, '}')
}

/// A citation command at `i` matches: `\cite` stands there and both braces
/// are found on the line.
pub open spec fn cite_match_ok(s: Seq<char>, i: int) -> bool {
    &&& cite_cmd_at(s, i)
    &&& cite_open(s, i) < s.len()
    &&& cite_close(s, i) < s.len()
}

/// The argument list of a matching citation command at `i`: the characters
/// strictly between the braces.
pub open spec fn cite_capture(s: Seq<char>, i: int) -> Seq<char> {
    s.subrange(cite_open(s, i) + 1, cite_close(s, i))
}

/// First position after a matching citation command at `i`.
pub open spec fn cite_match_end(s: Seq<char>, i: int) -> int {
    cite_close(s, i) + 1
}

/// A matching citation command ends after `i` and within the line.
pub proof fn lemma_cite_match_end_bounds(s: Seq<char>, i: int)
    requires
        0 <= i < s.len(),
        cite_match_ok(s, i),
    ensures
        i < cite_match_end(s, i) <= s.len(),
        i + 5 <= cite_open(s, i) < cite_close(s, i) < s.len(),
{
    lemma_find_first_bounds(s, i + 5, is_char('{'));
    lemma_find_first_bounds(s, cite_open(s, i) + 1, is_char('}'));
}

/// The citation keys contributed by `s[i ..]`: scan left to right; at each
/// matching citation command emit its trimmed keys and resume after the
/// match, otherwise move one character on.
pub open spec fn line_citations_from(s: Seq<char>, i: int) -> Seq<Seq<char>>
    decreases s.len() - i,
    via line_citations_from_decreases
{
    if i < 0 || i >= s.len() {
        Seq::empty()
    } else if cite_match_ok(s, i) {
        split_trim(cite_capture(s, i)) + line_citations_from(s, cite_match_end(s, i))
    } else {
        line_citations_from(s, i + 1)
    }
}

#[via_fn]
proof fn line_citations_from_decreases(s: Seq<char>, i: int) {
    if 0 <= i < s.len() && cite_match_ok(s, i) {
        lemma_cite_match_end_bounds(s, i);
    }
}

/// The citation keys of one document line, in order of appearance.
pub open spec fn line_citations(s: Seq<char>) -> Seq<Seq<char>> {
    line_citations_from(s, 0)
}

/// The citation keys of a sequence of document lines: line order first, then
/// left-to-right match order, then argument order.
pub open spec fn citations_of_lines(lines: Seq<Seq<char>>) -> Seq<Seq<char>>
    decreases lines.len(),
{
    if lines.len() == 0 {
        Seq::empty()
    } else {
        citations_of_lines(lines.drop_last()) + line_citations(lines.last())
    }
}

// ---------------------------------------------------------------------------
// The bibliography entry-header pattern
// ---------------------------------------------------------------------------
/// The entry key declared by a bibliography line, if the line is an entry
/// header: after leading whitespace, `@`, a non-empty run of word
/// characters, `{`, then a non-empty key running to the first comma, which
/// must be present. The key is trimmed.
pub open spec fn bib_line_key(s: Seq<char>) -> Option<Seq<char>> {
    let a = find_first(s, 0, not_space());
    if a < s.len() && s[a] == '@' {
        let w = find_first(s, a + 1, not_word());
        if a + 1 < w && w < s.len() && s[w] == '{' {
            let k = find_char(s, w + 1, ',');
            if w + 1 < k && k < s.len() {
                Some(trim_spec(s.subrange(w + 1, k)))
            } else {
                None
            }
        } else {
            None
        }
    } else {
        None
    }
}

/// The entry keys of a sequence of bibliography lines, in line order.
pub open spec fn bib_keys_of_lines(lines: Seq<Seq<char>>) -> Seq<Seq<char>>
    decreases lines.len(),
{
    if lines.len() == 0 {
        Seq::empty()
    } else {
        bib_keys_of_lines(lines.drop_last()) + match bib_line_key(lines.last()) {
            Some(k) => seq![k],
            None => Seq::<Seq<char>>::empty(),
        }
    }
}

// ---------------------------------------------------------------------------
// Executable extraction
// ---------------------------------------------------------------------------
/// Split `cs[lo .. hi]` on commas, trim each piece, and append the pieces to
/// `out` in order.
fn push_tokens(line: &str, cs: &Vec<char>, lo: usize, hi: usize, out: &mut Vec<String>)
    requires
        cs@ == line@,
        lo <= hi <= cs@.len(),
    ensures
        views_of(final(out)@) == views_of(old(out)@) + split_trim(
            cs@.subrange(lo as int, hi as int),
        ),
{
    let ghost cap = cs@.subrange(lo as int, hi as int);
    let mut t = lo;
    let mut more = true;
    while more
        invariant
            lo <= t <= hi <= cs@.len(),
            cs@ == line@,
            cap == cs@.subrange(lo as int, hi as int),
            more ==> views_of(out@) + split_trim_from(cap, t - lo) == views_of(old(out)@)
                + split_trim_from(cap, 0),
            !more ==> views_of(out@) == views_of(old(out)@) + split_trim_from(cap, 0),
        decreases hi - t + if more { 1int } else { 0int },
    {
        let ghost out0 = out@;
        // First comma in cs[t .. hi], or hi if none.
        let mut m = t;
        while m < hi && cs[m] != ','
            invariant
                t <= m <= hi <= cs@.len(),
                forall|q: int| t <= q < m ==> cs@[q] != ',',
            decreases hi - m,
        {
            m = m + 1;
        }
        proof {
            assert forall|q: int| t - lo <= q < m - lo implies !(is_char(',')(cap[q])) by {
                assert(cap[q] == cs@[lo + q]);
            }
            if m < hi {
                assert(is_char(',')(cap[m - lo]) == (cs@[m as int] == ','));
            }
            lemma_find_first_exact(cap, t - lo, m - lo, is_char(','));
        }
        let bounds = trim_bounds(cs, t, m);
        let piece = line.substring_char(bounds.0, bounds.1);
        out.push(piece.to_owned());
        proof {
            assert(cs@.subrange(t as int, m as int) =~= cap.subrange(t - lo, m - lo));
            if m < hi {
                // The piece before the comma, then the rest.
                assert(split_commas_from(cap, t - lo) == seq![cap.subrange(t - lo, m - lo)]
                    + split_commas_from(cap, m + 1 - lo));
                assert(split_trim_from(cap, t - lo) =~= seq![trim_spec(cap.subrange(t - lo, m - lo))]
                    + split_trim_from(cap, m + 1 - lo));
                assert(views_of(out@) =~= views_of(out0) + seq![trim_spec(cap.subrange(t - lo, m - lo))]);
                assert(views_of(out@) + split_trim_from(cap, m + 1 - lo) =~= views_of(out0)
                    + split_trim_from(cap, t - lo));
            } else {
                // The final piece.
                assert(split_commas_from(cap, t - lo) == seq![cap.subrange(t - lo, cap.len() as int)]);
                assert(cap.subrange(t - lo, cap.len() as int) =~= cap.subrange(t - lo, m - lo));
                assert(split_trim_from(cap, t - lo) =~= seq![trim_spec(cap.subrange(t - lo, m - lo))]);
                assert(views_of(out@) =~= views_of(out0) + split_trim_from(cap, t - lo));
            }
        }
        if m < hi {
            t = m + 1;
        } else {
            more = false;
        }
    }
}

/// The citation keys of one document line, in order of appearance.
pub fn extract_citations_line(line: &str) -> (r: Vec<String>)
    ensures
        views_of(r@) == line_citations(line@),
{
    let cs = chars_of(line);
    let n = cs.len();
    let mut out: Vec<String> = Vec::new();
    let mut i: usize = 0;
    while i < n
        invariant
            i <= n,
            n == cs@.len(),
            cs@ == line@,
            views_of(out@) + line_citations_from(cs@, i as int) == line_citations(cs@),
        decreases n - i,
    {
        let is_cite = n - i >= 5 && cs[i] == '\\' && cs[i + 1] == 'c' && cs[i + 2] == 'i' && cs[i
            + 3] == 't' && cs[i + 4] == 'e';
        let mut matched = false;
        if is_cite {
            let j = find_char_exec(&cs, i + 5, '{');
            if j < n {
                let k = find_char_exec(&cs, j + 1, '}');
                if k < n {
                    proof {
                        assert(cite_match_ok(cs@, i as int));
                    }
                    let ghost out0 = out@;
                    push_tokens(line, &cs, j + 1, k, &mut out);
                    proof {
                        assert(cite_capture(cs@, i as int) == cs@.subrange(j + 1, k as int));
                        assert(line_citations_from(cs@, i as int) == split_trim(
                            cs@.subrange(j + 1, k as int),
                        ) + line_citations_from(cs@, k + 1));
                        assert((views_of(out0) + split_trim(cs@.subrange(j + 1, k as int)))
                            + line_citations_from(cs@, k + 1) =~= views_of(out0)
                            + line_citations_from(cs@, i as int));
                    }
                    matched = true;
                    i = k + 1;
                }
            }
        }
        if !matched {
            proof {
                assert(!cite_match_ok(cs@, i as int));
                assert(line_citations_from(cs@, i as int) == line_citations_from(cs@, i + 1));
            }
            i = i + 1;
        }
    }
    proof {
        assert(line_citations_from(cs@, n as int) =~= Seq::<Seq<char>>::empty());
        assert(views_of(out@) =~= line_citations(cs@));
    }
    out
}

/// The citation keys of a sequence of document lines: line order, then
/// left-to-right match order, then argument order.
pub fn extract_citations_latex(lines: &Vec<String>) -> (r: Vec<String>)
    ensures
        views_of(r@) == citations_of_lines(views_of(lines@)),
{
    let mut out: Vec<String> = Vec::new();
    let mut i: usize = 0;
    while i < lines.len()
        invariant
            i <= lines@.len(),
            views_of(out@) == citations_of_lines(views_of(lines@).take(i as int)),
        decreases lines@.len() - i,
    {
        let ghost out0 = out@;
        let mut part = extract_citations_line(lines[i].as_str());
        let ghost part0 = part@;
        out.append(&mut part);
        proof {
            let lv = views_of(lines@);
            assert(lv.take(i + 1).drop_last() =~= lv.take(i as int));
            assert(lv.take(i + 1).last() == lines@[i as int]@);
            assert(views_of(out@) =~= views_of(out0) + views_of(part0));
            assert(views_of(out@) =~= citations_of_lines(lv.take(i + 1)));
        }
        i = i + 1;
    }
    proof {
        assert(views_of(lines@).take(lines@.len() as int) =~= views_of(lines@));
    }
    out
}

/// The entry key declared by one bibliography line, if the line is an entry
/// header.
pub fn extract_bibtex_key_line(line: &str) -> (r: Option<String>)
    ensures
        match r {
            Some(t) => bib_line_key(line@) == Some(t@),
            None => bib_line_key(line@) is None,
        },
{
    let cs = chars_of(line);
    let n = cs.len();
    let mut a: usize = 0;
    while a < n && is_space(cs[a])
        invariant
            a <= n,
            n == cs@.len(),
            find_first(cs@, 0, not_space()) == find_first(cs@, a as int, not_space()),
        decreases n - a,
    {
        proof {
            assert(not_space()(cs@[a as int]) == !is_space_char(cs@[a as int]));
        }
        a = a + 1;
    }
    proof {
        if a < n {
            assert(not_space()(cs@[a as int]) == !is_space_char(cs@[a as int]));
        }
        assert(find_first(cs@, 0, not_space()) == a);
    }
    if a < n && cs[a] == '@' {
        let mut w = a + 1;
        while w < n && is_word(cs[w])
            invariant
                a + 1 <= w <= n,
                n == cs@.len(),
                find_first(cs@, a + 1, not_word()) == find_first(cs@, w as int, not_word()),
            decreases n - w,
        {
            proof {
                assert(not_word()(cs@[w as int]) == !is_word_char(cs@[w as int]));
            }
            w = w + 1;
        }
        proof {
            if w < n {
                assert(not_word()(cs@[w as int]) == !is_word_char(cs@[w as int]));
            }
            assert(find_first(cs@, a + 1, not_word()) == w);
        }
        if w > a + 1 && w < n && cs[w] == '{' {
            let k = find_char_exec(&cs, w + 1, ',');
            if k > w + 1 && k < n {
                let bounds = trim_bounds(&cs, w + 1, k);
                Some(line.substring_char(bounds.0, bounds.1).to_owned())
            } else {
                None
            }
        } else {
            None
        }
    } else {
        None
    }
}

/// The entry keys of a sequence of bibliography lines, in line order.
pub fn extract_bibtex_keys(lines: &Vec<String>) -> (r: Vec<String>)
    ensures
        views_of(r@) == bib_keys_of_lines(views_of(lines@)),
{
    let mut out: Vec<String> = Vec::new();
    let mut i: usize = 0;
    while i < lines.len()
        invariant
            i <= lines@.len(),
            views_of(out@) == bib_keys_of_lines(views_of(lines@).take(i as int)),
        decreases lines@.len() - i,
    {
        let ghost out0 = out@;
        let found = extract_bibtex_key_line(lines[i].as_str());
        match found {
            Some(t) => {
                out.push(t);
            },
            None => {},
        }
        proof {
            let lv = views_of(lines@);
            assert(lv.take(i + 1).drop_last() =~= lv.take(i as int));
            assert(lv.take(i + 1).last() == lines@[i as int]@);
            match bib_line_key(lines@[i as int]@) {
                Some(k) => {
                    assert(views_of(out@) =~= views_of(out0) + seq![k]);
                },
                None => {
                    assert(views_of(out@) =~= views_of(out0));
                    assert(views_of(out0) + Seq::<Seq<char>>::empty() =~= views_of(out0));
                },
            }
            assert(views_of(out@) =~= bib_keys_of_lines(lv.take(i + 1)));
        }
        i = i + 1;
    }
    proof {
        assert(views_of(lines@).take(lines@.len() as int) =~= views_of(lines@));
    }
    out
}

// ---------------------------------------------------------------------------
// Laws
// ---------------------------------------------------------------------------
/// A well-formed citation line yields exactly its trimmed, comma-separated
/// keys, in order: extracting from the line `\cite{args}` where the argument
/// list holds no brace gives precisely the split of the argument list.
pub proof fn lemma_cite_line_extraction(args: Seq<char>)
    requires
        forall|q: int| 0 <= q < args.len() ==> args[q] != '{' && args[q] != '}',
    ensures
        line_citations(seq!['\\', 'c', 'i', 't', 'e', '{'] + args + seq!['}']) == split_trim(args),
{
    let s = seq!['\\', 'c', 'i', 't', 'e', '{'] + args + seq!['}'];
    let alen = args.len() as int;
    assert(s.len() == alen + 7);
    assert(s[0] == '\\' && s[1] == 'c' && s[2] == 'i' && s[3] == 't' && s[4] == 'e');
    assert(s[5] == '{');
    assert(forall|q: int| 0 <= q < alen ==> s[6 + q] == args[q]);
    assert(s[alen + 6] == '}');
    assert(cite_cmd_at(s, 0));
    assert(is_char('{')(s[5]));
    lemma_find_first_exact(s, 5, 5, is_char('{'));
    assert(cite_open(s, 0) == 5);
    assert forall|q: int| 6 <= q < alen + 6 implies !(is_char('}')(s[q])) by {
        assert(s[q] == args[q - 6]);
    }
    assert(is_char('}')(s[alen + 6]));
    lemma_find_first_exact(s, 6, alen + 6, is_char('}'));
    assert(cite_close(s, 0) == alen + 6);
    assert(cite_match_ok(s, 0));
    assert(cite_capture(s, 0) =~= args);
    assert(cite_match_end(s, 0) == s.len());
    assert(line_citations_from(s, s.len() as int) =~= Seq::<Seq<char>>::empty());
    assert(line_citations(s) == split_trim(cite_capture(s, 0)) + line_citations_from(
        s,
        s.len() as int,
    ));
    assert(split_trim(args) + Seq::<Seq<char>>::empty() =~= split_trim(args));
}

/// A bibliography entry-header line yields exactly its declared key and
/// nothing else: a line of leading whitespace, `@`, a non-empty word-character
/// type, `{`, a non-empty comma-free key, a comma and then anything at all
/// yields the trimmed key.
pub proof fn lemma_bib_line_extraction(ws: Seq<char>, ty: Seq<char>, key: Seq<char>, rest: Seq<char>)
    requires
        forall|q: int| 0 <= q < ws.len() ==> is_space_char(ws[q]),
        ty.len() > 0,
        forall|q: int| 0 <= q < ty.len() ==> is_word_char(ty[q]),
        key.len() > 0,
        forall|q: int| 0 <= q < key.len() ==> key[q] != ',',
    ensures
        bib_line_key(ws + seq!['@'] + ty + seq!['{'] + key + seq![','] + rest) == Some(
            trim_spec(key),
        ),
{
    let s = ws + seq!['@'] + ty + seq!['{'] + key + seq![','] + rest;
    let a = ws.len() as int;
    let w = a + 1 + ty.len() as int;
    let k = w + 1 + key.len() as int;
    assert(s.len() == k + 1 + rest.len());
    assert(forall|q: int| 0 <= q < a ==> s[q] == ws[q]);
    assert(s[a] == '@');
    assert(forall|q: int| a + 1 <= q < w ==> s[q] == ty[q - (a + 1)]);
    assert(s[w] == '{');
    assert(forall|q: int| w + 1 <= q < k ==> s[q] == key[q - (w + 1)]);
    assert(s[k] == ',');
    // Leading whitespace runs exactly to the `@`.
    assert forall|q: int| 0 <= q < a implies !(not_space()(s[q])) by {
        assert(s[q] == ws[q]);
    }
    assert(not_space()(s[a]) == !is_space_char('@'));
    lemma_find_first_exact(s, 0, a, not_space());
    // The word-character run ends exactly at the `{`.
    assert forall|q: int| a + 1 <= q < w implies !(not_word()(s[q])) by {
        assert(s[q] == ty[q - (a + 1)]);
    }
    assert(not_word()(s[w]) == !is_word_char('{'));
    lemma_find_first_exact(s, a + 1, w, not_word());
    // The key runs exactly to the comma.
    assert forall|q: int| w + 1 <= q < k implies !(is_char(',')(s[q])) by {
        assert(s[q] == key[q - (w + 1)]);
    }
    assert(is_char(',')(s[k]));
    lemma_find_first_exact(s, w + 1, k, is_char(','));
    assert(s.subrange(w + 1, k) =~= key);
    assert(bib_line_key(s) == Some(trim_spec(key)));
}

} // verus!
