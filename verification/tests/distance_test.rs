use citecheck::distance::levenshtein;

#[test]
fn distance_of_equal_strings_is_zero() {
    assert_eq!(levenshtein("same", "same"), 0);
    assert_eq!(levenshtein("", ""), 0);
}

#[test]
fn distance_to_empty_is_length() {
    assert_eq!(levenshtein("", "abc"), 3);
    assert_eq!(levenshtein("abcd", ""), 4);
}

#[test]
fn distance_known_values() {
    assert_eq!(levenshtein("kitten", "sitting"), 3);
    assert_eq!(levenshtein("flaw", "lawn"), 2);
    assert_eq!(levenshtein("smith2020", "smith2021"), 1);
    assert_eq!(levenshtein("foo", "boo"), 1);
    assert_eq!(levenshtein("foo1", "foo"), 1);
}

#[test]
fn distance_is_symmetric_on_samples() {
    assert_eq!(levenshtein("kitten", "sitting"), levenshtein("sitting", "kitten"));
    assert_eq!(levenshtein("a", "xyz"), levenshtein("xyz", "a"));
}
