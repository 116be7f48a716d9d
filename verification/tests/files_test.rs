use citecheck::files::classify;
use citecheck::files::unknown_file_message;
use citecheck::files::FileKind;

#[test]
fn tex_names_route_to_citations() {
    assert_eq!(classify("paper.tex"), FileKind::Tex);
    assert_eq!(classify(".tex"), FileKind::Tex);
}

#[test]
fn bib_names_route_to_keys() {
    assert_eq!(classify("refs.bib"), FileKind::Bib);
}

#[test]
fn other_names_are_unknown() {
    assert_eq!(classify("notes.txt"), FileKind::Other);
    assert_eq!(classify("tex"), FileKind::Other);
    assert_eq!(classify("archive.bib.gz"), FileKind::Other);
    assert_eq!(classify(""), FileKind::Other);
}

#[test]
fn unknown_file_message_format() {
    assert_eq!(unknown_file_message("notes.txt"), "Unknown file type: notes.txt".to_string());
}
