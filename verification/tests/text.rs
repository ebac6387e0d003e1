use craby::text::{
    chars_of, compare, contains_text, decimal_string, flat_case, join_strings, pascal_case,
    replace_all, snake_case, Rank,
};

#[test]
fn characters_of_a_string_come_in_order() {
    assert_eq!(chars_of("a\u{e9}\u{1f600}"), vec!['a', '\u{e9}', '\u{1f600}']);
    assert_eq!(chars_of(""), Vec::<char>::new());
}

#[test]
fn join_puts_the_separator_between_neighbours_only() {
    let parts = |list: &[&str]| list.iter().map(|s| s.to_string()).collect::<Vec<_>>();

    assert_eq!(join_strings(&parts(&[]), ", "), "");
    assert_eq!(join_strings(&parts(&["a"]), ", "), "a");
    assert_eq!(join_strings(&parts(&["a", "b", "c"]), ", "), "a, b, c");
    assert_eq!(join_strings(&parts(&["a", "", "c"]), "-"), "a--c");
    assert_eq!(join_strings(&parts(&["a", "b"]), ""), "ab");
}

#[test]
fn decimal_has_no_leading_zeros() {
    assert_eq!(decimal_string(0), "0");
    assert_eq!(decimal_string(7), "7");
    assert_eq!(decimal_string(10), "10");
    assert_eq!(decimal_string(1234567890), "1234567890");
    assert_eq!(decimal_string(usize::MAX), usize::MAX.to_string());
}

#[test]
fn flat_case_keeps_only_letters_and_digits_in_lower_case() {
    assert_eq!(flat_case("CrabyTest"), "crabytest");
    assert_eq!(flat_case("craby-test_2"), "crabytest2");
    assert_eq!(flat_case("  "), "");
    assert_eq!(flat_case("\u{e9}t\u{e9}"), "t");
}

#[test]
fn snake_case_separates_words_with_underscores() {
    assert_eq!(snake_case("CrabyTest"), "craby_test");
    assert_eq!(snake_case("moveTo"), "move_to");
    assert_eq!(snake_case("craby-test"), "craby_test");
    assert_eq!(snake_case("already_snake"), "already_snake");
    assert_eq!(snake_case("getValue2"), "get_value2");
    assert_eq!(snake_case("value2Get"), "value2_get");
    assert_eq!(snake_case("HTTPServer"), "httpserver");
    assert_eq!(snake_case("_leading"), "leading");
    assert_eq!(snake_case("trailing_"), "trailing");
    assert_eq!(snake_case("a--b"), "a_b");
    assert_eq!(snake_case(""), "");
}

#[test]
fn pascal_case_starts_every_word_with_a_capital() {
    assert_eq!(pascal_case("craby_test"), "CrabyTest");
    assert_eq!(pascal_case("craby-test"), "CrabyTest");
    assert_eq!(pascal_case("moveTo"), "MoveTo");
    assert_eq!(pascal_case("CrabyTestSpec"), "CrabyTestSpec");
    assert_eq!(pascal_case("my module 2x"), "MyModule2x");
    assert_eq!(pascal_case("x"), "X");
    assert_eq!(pascal_case(""), "");
}

#[test]
fn compare_orders_texts_as_strings_are_ordered() {
    let samples = ["", "a", "ab", "abc", "b", "B", "a\u{e9}", "a\u{1f600}", "Point", "Shape"];
    for a in samples {
        for b in samples {
            let expected = match a.cmp(b) {
                std::cmp::Ordering::Less => Rank::Before,
                std::cmp::Ordering::Equal => Rank::Same,
                std::cmp::Ordering::Greater => Rank::After,
            };
            assert_eq!(compare(a, b), expected, "{:?} against {:?}", a, b);
        }
    }
}

#[test]
fn contains_text_finds_a_text_anywhere() {
    assert!(contains_text("abcdef", "abc"));
    assert!(contains_text("abcdef", "def"));
    assert!(contains_text("abcdef", "cd"));
    assert!(contains_text("abcdef", ""));
    assert!(contains_text("", ""));
    assert!(!contains_text("abcdef", "ce"));
    assert!(!contains_text("abc", "abcd"));
    assert!(!contains_text("", "a"));
}

#[test]
fn replace_all_goes_from_left_to_right() {
    assert_eq!(replace_all("a-b-c", "-", "+"), "a+b+c");
    assert_eq!(replace_all("aaa", "aa", "b"), "ba");
    assert_eq!(replace_all("abc", "x", "y"), "abc");
    assert_eq!(replace_all("abc", "", "y"), "abc");
    assert_eq!(replace_all("abcabc", "abc", ""), "");
    assert_eq!(replace_all("", "a", "b"), "");
    assert_eq!(replace_all("xay", "a", "aa"), "xaay");
}
