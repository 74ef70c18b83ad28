use fedora_update_feedback::numbers::{i64_to_string, u64_to_string};
use fedora_update_feedback::strings::{is_whitespace_char, split_str, trim};
use fedora_update_feedback::text::{
    contains_text, sort_set, sort_strings, str_eq, str_less, to_chars,
};

#[test]
fn strings_are_compared_by_their_characters() {
    assert!(str_eq("abc", "abc"));
    assert!(!str_eq("abc", "abd"));
    assert!(!str_eq("abc", "ab"));
    assert!(str_eq("", ""));
}

#[test]
fn strings_are_ordered_as_the_standard_library_orders_them() {
    let samples = ["", "a", "ab", "abc", "b", "B", "FEDORA-2020-1", "FEDORA-2020-10", "é", "z", "日本"];
    for a in samples {
        for b in samples {
            assert_eq!(str_less(a, b), a < b);
        }
    }
}

#[test]
fn characters_of_a_string() {
    assert_eq!(to_chars("aé-"), vec!['a', 'é', '-']);
    assert_eq!(to_chars(""), Vec::<char>::new());
}

#[test]
fn sorting_keeps_every_string() {
    let mut list =
        vec![String::from("pear"), String::from("apple"), String::from("fig"), String::from("apple")];
    sort_strings(&mut list);
    assert_eq!(list, vec!["apple", "apple", "fig", "pear"]);
    assert!(contains_text(&list, "fig"));
    assert!(!contains_text(&list, "plum"));
}

#[test]
fn sorting_an_empty_list_gives_an_empty_list() {
    let mut list: Vec<String> = Vec::new();
    sort_strings(&mut list);
    assert!(list.is_empty());
}

#[test]
fn white_space_is_what_the_standard_library_calls_white_space() {
    let mut code: u32 = 0;
    while code < 0x3100 {
        if let Some(c) = char::from_u32(code) {
            assert_eq!(is_whitespace_char(c), c.is_whitespace());
        }
        code += 1;
    }
}

#[test]
fn trim_drops_white_space_at_both_ends_only() {
    assert_eq!(trim("  a b \n"), "a b");
    assert_eq!(trim("\t\n "), "");
    assert_eq!(trim(""), "");
    assert_eq!(trim("\u{a0}x\u{3000}"), "x");
}

#[test]
fn split_gives_the_parts_between_separators() {
    assert_eq!(split_str("a b", ' '), vec!["a", "b"]);
    assert_eq!(split_str("a  b", ' '), vec!["a", "", "b"]);
    assert_eq!(split_str("", ' '), vec![""]);
    assert_eq!(split_str(" a ", ' '), vec!["", "a", ""]);
    assert_eq!(split_str("abc", ' '), vec!["abc"]);
}

#[test]
fn numbers_as_decimal_text() {
    assert_eq!(u64_to_string(0), "0");
    assert_eq!(u64_to_string(7), "7");
    assert_eq!(u64_to_string(1234567890), "1234567890");
    assert_eq!(u64_to_string(u64::MAX), "18446744073709551615");
    assert_eq!(i64_to_string(0), "0");
    assert_eq!(i64_to_string(-1), "-1");
    assert_eq!(i64_to_string(-305), "-305");
    assert_eq!(i64_to_string(i64::MAX), "9223372036854775807");
    assert_eq!(i64_to_string(i64::MIN), "-9223372036854775808");
}

#[test]
fn a_sorted_set_holds_every_string_once() {
    let mut list =
        vec![String::from("pear"), String::from("apple"), String::from("fig"), String::from("apple")];
    sort_set(&mut list);
    assert_eq!(list, vec!["apple", "fig", "pear"]);
    let mut list = vec![String::from("b"), String::from("b"), String::from("b")];
    sort_set(&mut list);
    assert_eq!(list, vec!["b"]);
    let mut list: Vec<String> = Vec::new();
    sort_set(&mut list);
    assert!(list.is_empty());
    let mut list = vec![String::from("a"), String::from("b")];
    sort_set(&mut list);
    assert_eq!(list, vec!["a", "b"]);
}
