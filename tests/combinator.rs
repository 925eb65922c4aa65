use biotite::combinator::{and, id, many, newline, or, some};
use biotite::lex::{character, string};

#[test]
fn test_map() {
    let parser = |i: &str| biotite::combinator::map(&|i: &str| character(i, |c| c == 'a'), &|_c: char| 1, i);

    assert_eq!(parser("abc"), Some((1, "bc".to_string())));
    assert_eq!(parser("def"), None);
    assert_eq!(parser(""), None);
}

#[test]
fn test_or() {
    let parser = |i: &str| or(&|i: &str| character(i, |c| c == 'a'), &|i: &str| character(i, |c| c == 'b'), i);

    assert_eq!(parser("abc"), Some(('a', "bc".to_string())));
    assert_eq!(parser("bcd"), Some(('b', "cd".to_string())));
    assert_eq!(parser("def"), None);
    assert_eq!(parser(""), None);
}

#[test]
fn test_and() {
    let parser = |i: &str| and(&|i: &str| character(i, |c| c == 'a'), &|i: &str| character(i, |c| c == 'b'), i);

    assert_eq!(parser("abc"), Some((('a', 'b'), "c".to_string())));
    assert_eq!(parser("def"), None);
    assert_eq!(parser(""), None);
}

#[test]
fn test_many() {
    let triming = |i: &str| character(i.trim_start(), |c| c == 'a');
    let parser = |i: &str| many(&triming, i);
    assert_eq!(parser("a a a"), (vec!['a', 'a', 'a'], "".to_string()));
    assert_eq!(parser(""), (vec![], "".to_string()));
    assert_eq!(parser("  a aabc"), (vec!['a', 'a', 'a'], "bc".to_string()));
}

#[test]
fn test_choice_macro() {
    let zero = |i: &str| biotite::combinator::map(&|i: &str| string(i, "zero"), &|_s: String| 0, i);
    let one = |i: &str| biotite::combinator::map(&|i: &str| string(i, "one"), &|_s: String| 1, i);
    let two = |i: &str| biotite::combinator::map(&|i: &str| string(i, "two"), &|_s: String| 2, i);
    let three = |i: &str| biotite::combinator::map(&|i: &str| string(i, "three"), &|_s: String| 3, i);
    let parser = |i: &str| or(&|i: &str| or(&|i: &str| or(&zero, &one, i), &two, i), &three, i);

    assert_eq!(parser("zero"), Some((0, "".to_string())));
    assert_eq!(parser("one"), Some((1, "".to_string())));
    assert_eq!(parser("two"), Some((2, "".to_string())));
    assert_eq!(parser("three"), Some((3, "".to_string())));
    assert_eq!(parser("hoge"), None);
}

#[test]
fn some_needs_one_match() {
    let a = |i: &str| character(i, |c| c == 'a');
    assert_eq!(some(&a, "aab"), Some((vec!['a', 'a'], "b".to_string())));
    assert_eq!(some(&a, "b"), None);
}

#[test]
fn id_consumes_nothing() {
    assert_eq!(id(None::<bool>, "x"), Some((None, "x".to_string())));
    assert_eq!(newline("\nx"), Some(("\n".to_string(), "x".to_string())));
    assert_eq!(newline("x"), None);
}
