use citecheck::extract::extract_bibtex_keys;
use citecheck::extract::extract_citations_latex;
use citecheck::reconcile::find_nearest;
use citecheck::reconcile::reconcile_report;
use citecheck::reconcile::unmatched_citations;

fn strings(items: &[&str]) -> Vec<String> {
    let mut v = Vec::new();
    for s in items {
        v.push(s.to_string());
    }
    v
}

#[test]
fn unmatched_keeps_order_and_duplicates() {
    let citations = strings(&["x", "y", "x"]);
    let keys = strings(&["y"]);
    let r = unmatched_citations(&citations, &keys);
    assert_eq!(r, strings(&["x", "x"]));
}

#[test]
fn duplicate_missing_citation_two_report_lines() {
    let citations = strings(&["miss", "miss"]);
    let keys = strings(&["hit"]);
    let r = reconcile_report(&citations, &keys);
    assert_eq!(r.len(), 2);
    assert_eq!(r[0], r[1]);
}

#[test]
fn membership_is_exact_and_case_sensitive() {
    let citations = strings(&["Key", "key"]);
    let keys = strings(&["key"]);
    let r = unmatched_citations(&citations, &keys);
    assert_eq!(r, strings(&["Key"]));
}

#[test]
fn nearest_is_deterministic() {
    let keys = strings(&["alpha", "beta", "gamma"]);
    let first = find_nearest("alphq", &keys);
    let second = find_nearest("alphq", &keys);
    assert_eq!(first, second);
    assert_eq!(first, "alpha".to_string());
}

#[test]
fn nearest_tie_breaks_to_first_in_bib_order() {
    // "oo" lies at distance 1 from both keys: the first declared wins.
    let keys = strings(&["foo", "boo"]);
    assert_eq!(find_nearest("oo", &keys), "foo".to_string());
    let reversed = strings(&["boo", "foo"]);
    assert_eq!(find_nearest("oo", &reversed), "boo".to_string());
}

#[test]
fn nearest_prefers_smaller_distance() {
    let keys = strings(&["foo", "boo"]);
    assert_eq!(find_nearest("foo1", &keys), "foo".to_string());
}

#[test]
fn empty_bib_suggests_empty_string() {
    let keys: Vec<String> = Vec::new();
    assert_eq!(find_nearest("anything", &keys), "".to_string());
    let r = reconcile_report(&strings(&["anything"]), &keys);
    assert_eq!(r, strings(&["anything not found in bib. Most similar key in bib: "]));
}

#[test]
fn end_to_end_unmatched_citation_reported() {
    let tex_lines = vec![String::from("\\cite{smith2020}")];
    let bib_lines = vec![String::from("@book{smith2021,")];
    let citations = extract_citations_latex(&tex_lines);
    let keys = extract_bibtex_keys(&bib_lines);
    let r = reconcile_report(&citations, &keys);
    assert_eq!(
        r,
        strings(&["smith2020 not found in bib. Most similar key in bib: smith2021"])
    );
}

#[test]
fn end_to_end_matched_citation_silent() {
    let tex_lines = vec![String::from("\\cite{smith2021}")];
    let bib_lines = vec![String::from("@book{smith2021,")];
    let citations = extract_citations_latex(&tex_lines);
    let keys = extract_bibtex_keys(&bib_lines);
    let r = reconcile_report(&citations, &keys);
    assert_eq!(r, Vec::<String>::new());
}
