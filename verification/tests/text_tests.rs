use ssr_launcher::text::{find_char_in, rfind_char_in, str_eq, str_has_prefix, str_lex_lt};

#[test]
fn prefix_test_is_exact() {
    assert!(str_has_prefix("export FOO", "export "));
    assert!(!str_has_prefix("exportFOO", "export "));
    assert!(!str_has_prefix("exp", "export "));
    assert!(str_has_prefix("anything", ""));
}

#[test]
fn character_search_finds_first_and_last() {
    assert_eq!(find_char_in("a=b=c", '='), Some(1));
    assert_eq!(find_char_in("abc", '='), None);
    assert_eq!(rfind_char_in("/a/b/.env", '/'), Some(4));
    assert_eq!(rfind_char_in(".env", '/'), None);
}

#[test]
fn string_equality_compares_text() {
    assert!(str_eq("abc", "abc"));
    assert!(!str_eq("abc", "abd"));
    assert!(!str_eq("abc", "ab"));
}

#[test]
fn lexicographic_order_on_keys() {
    assert!(str_lex_lt("A", "B"));
    assert!(str_lex_lt("AB", "B"));
    assert!(str_lex_lt("A", "AB"));
    assert!(!str_lex_lt("B", "A"));
    assert!(!str_lex_lt("A", "A"));
}
