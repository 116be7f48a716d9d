use citecheck::extract::extract_bibtex_key_line;
use citecheck::extract::extract_bibtex_keys;
use citecheck::extract::extract_citations_latex;
use citecheck::extract::extract_citations_line;

#[test]
fn cite_basic_split_and_trim() {
    let r = extract_citations_line("\\cite{a, b,c}");
    assert_eq!(r, vec!["a".to_string(), "b".to_string(), "c".to_string()]);
}

#[test]
fn cite_whitespace_trimmed() {
    let r = extract_citations_line("text \\cite{  alpha ,beta\t, gamma }.");
    assert_eq!(r, vec!["alpha".to_string(), "beta".to_string(), "gamma".to_string()]);
}

#[test]
fn cite_variant_commands() {
    let r = extract_citations_line("\\citep{a}\\citet*{b} and \\citeauthor[p. 3]{c}");
    assert_eq!(r, vec!["a".to_string(), "b".to_string(), "c".to_string()]);
}

#[test]
fn cite_no_closing_brace_no_match() {
    let r = extract_citations_line("\\cite{abc");
    assert_eq!(r, Vec::<String>::new());
}

#[test]
fn cite_empty_argument_list() {
    let r = extract_citations_line("\\cite{}");
    assert_eq!(r, vec!["".to_string()]);
}

#[test]
fn cite_argument_may_hold_open_brace() {
    // The argument list runs from the first `{` to the first `}`.
    let r = extract_citations_line("\\cite{{a}");
    assert_eq!(r, vec!["{a".to_string()]);
}

#[test]
fn cite_stops_at_first_closing_brace() {
    let r = extract_citations_line("\\cite{a}} and \\cite{b} after");
    assert_eq!(r, vec!["a".to_string(), "b".to_string()]);
}

#[test]
fn cite_plain_line_contributes_nothing() {
    let r = extract_citations_line("no citation commands here");
    assert_eq!(r, Vec::<String>::new());
}

#[test]
fn cite_lines_keep_order() {
    let lines = vec![
        String::from("\\cite{b}\\cite{a}"),
        String::from("nothing"),
        String::from("\\cite{c,b}"),
    ];
    let r = extract_citations_latex(&lines);
    assert_eq!(
        r,
        vec!["b".to_string(), "a".to_string(), "c".to_string(), "b".to_string()]
    );
}

#[test]
fn bib_basic_header() {
    let r = extract_bibtex_key_line("@article{key1, author = {Someone}}");
    assert_eq!(r, Some("key1".to_string()));
}

#[test]
fn bib_leading_whitespace_allowed() {
    let r = extract_bibtex_key_line("   \t@book{ smith2021 , title = {T}}");
    assert_eq!(r, Some("smith2021".to_string()));
}

#[test]
fn bib_header_needs_line_start() {
    let r = extract_bibtex_key_line("text before @article{key1,");
    assert_eq!(r, None);
}

#[test]
fn bib_header_needs_comma() {
    let r = extract_bibtex_key_line("@book{key}");
    assert_eq!(r, None);
}

#[test]
fn bib_header_needs_nonempty_key() {
    let r = extract_bibtex_key_line("@book{,title}");
    assert_eq!(r, None);
}

#[test]
fn bib_non_header_lines_skipped() {
    let lines = vec![
        String::from("@article{first,"),
        String::from("  author = {A},"),
        String::from("}"),
        String::from("@misc{second,"),
    ];
    let r = extract_bibtex_keys(&lines);
    assert_eq!(r, vec!["first".to_string(), "second".to_string()]);
}

#[test]
fn bib_duplicate_keys_kept() {
    let lines = vec![String::from("@a{k,"), String::from("@b{k,")];
    let r = extract_bibtex_keys(&lines);
    assert_eq!(r, vec!["k".to_string(), "k".to_string()]);
}
