use biotite::lex::{character, digit, string};

#[test]
fn char_works() {
    assert_eq!(character("abc", |c| c == 'a'), Some(('a', "bc".to_string())));
    assert_eq!(character("def", |c| c == 'a'), None);
    assert_eq!(character("あいう", |c| c == 'あ'), Some(('あ', "いう".to_string())));
    assert_eq!(character("えおか", |c| c == 'あ'), None);
}

#[test]
fn test_string() {
    assert_eq!(string("abcdef", "abc"), Some(("abc".to_string(), "def".to_string())));
    assert_eq!(string("def", "abc"), None);
    assert_eq!(string("あいう", "あいう"), Some(("あいう".to_string(), "".to_string())));
    assert_eq!(string("あいうえお", "あいう"), Some(("あいう".to_string(), "えお".to_string())));
}

#[test]
fn digit_reads_a_number() {
    assert_eq!(digit("123abc"), Some((123, "abc".to_string())));
    assert_eq!(digit("2147483647"), Some((2147483647, "".to_string())));
    assert_eq!(digit("2147483648"), None);
    assert_eq!(digit("abc"), None);
}
