//! Routing of input files by extension: `.tex` names go to the citation
//! extractor, `.bib` names to the key extractor, and any other name is
//! reported as an unknown file type and otherwise skipped.

use vstd::prelude::*;
use vstd::string::StringExecFns;

use crate::text::chars_of;

verus! {

/// Whether `s` ends with the characters of `suffix`.
pub open spec fn has_suffix(s: Seq<char>, suffix: Seq<char>) -> bool {
    s.len() >= suffix.len() && s.subrange(s.len() - suffix.len(), s.len() as int) == suffix
}

/// How one input file is processed, decided by its name alone.
#[derive(Clone, Copy, Debug, PartialEq, Eq, Structural)]
pub enum FileKind {
    /// A document source: its lines feed the citation extractor.
    Tex,
    /// A bibliography source: its lines feed the key extractor.
    Bib,
    /// Anything else: reported as an unknown file type and skipped.
    Other,
}

/// Whether the characters of `cs` end with the characters of `suffix`.
fn ends_with_chars(cs: &Vec<char>, suffix: &Vec<char>) -> (r: bool)
    ensures
        r == has_suffix(cs@, suffix@),
{
    let n = cs.len();
    let m = suffix.len();
    if n < m {
        return false;
    }
    let mut i: usize = 0;
    while i < m
        invariant
            i <= m <= n,
            n == cs@.len(),
            m == suffix@.len(),
            forall|q: int| 0 <= q < i ==> cs@[n - m + q] == suffix@[q],
        decreases m - i,
    {
        if cs[n - m + i] != suffix[i] {
            proof {
                assert(cs@.subrange(n - m, n as int)[i as int] != suffix@[i as int]);
            }
            return false;
        }
        i = i + 1;
    }
    proof {
        assert(cs@.subrange(n - m, n as int) =~= suffix@);
    }
    true
}

/// The routing decision for a file name: `.tex` names are document sources,
/// `.bib` names are bibliography sources, all others are unknown.
pub fn classify(name: &str) -> (k: FileKind)
    ensures
        has_suffix(name@, ".tex"@) ==> k == FileKind::Tex,
        !has_suffix(name@, ".tex"@) && has_suffix(name@, ".bib"@) ==> k == FileKind::Bib,
        !has_suffix(name@, ".tex"@) && !has_suffix(name@, ".bib"@) ==> k == FileKind::Other,
{
    let cs = chars_of(name);
    let tex = chars_of(".tex");
    let bib = chars_of(".bib");
    if ends_with_chars(&cs, &tex) {
        FileKind::Tex
    } else if ends_with_chars(&cs, &bib) {
        FileKind::Bib
    } else {
        FileKind::Other
    }
}

/// The console line reporting a file of unknown type.
pub fn unknown_file_message(name: &str) -> (r: String)
    ensures
        r@ == "Unknown file type: "@ + name@,
{
    let mut r = String::from_str("Unknown file type: ");
    r.append(name);
    r
}

} // verus!
