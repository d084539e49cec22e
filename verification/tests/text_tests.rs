use registry_publish::text::{decimal, find_char, join, same_text, slice_chars};

#[test]
fn same_text_compares_characters() {
    assert!(same_text("", ""));
    assert!(same_text("success", "success"));
    assert!(!same_text("success", "succesS"));
    assert!(!same_text("success", "succes"));
    assert!(same_text("héllo ✓", "héllo ✓"));
    assert!(!same_text("héllo", "hello"));
}

#[test]
fn find_char_gives_the_first_position_in_characters() {
    assert_eq!(find_char("scope/name", '/'), Some(5));
    assert_eq!(find_char("a/b/c", '/'), Some(1));
    assert_eq!(find_char("/", '/'), Some(0));
    assert_eq!(find_char("name", '/'), None);
    assert_eq!(find_char("", '/'), None);
    assert_eq!(find_char("éé/x", '/'), Some(2));
}

#[test]
fn decimal_writes_numbers() {
    assert_eq!(decimal(0), "0");
    assert_eq!(decimal(7), "7");
    assert_eq!(decimal(10), "10");
    assert_eq!(decimal(404), "404");
    assert_eq!(decimal(1234567890), "1234567890");
    assert_eq!(decimal(u64::MAX), "18446744073709551615");
}

#[test]
fn join_puts_the_separator_between_items() {
    let none: Vec<String> = vec![];
    assert_eq!(join(&none, ", "), "");
    assert_eq!(join(&vec!["a".to_string()], ", "), "a");
    assert_eq!(join(&vec!["a".to_string(), "b".to_string(), "".to_string()], " -> "), "a -> b -> ");
}

#[test]
fn slice_chars_counts_characters() {
    assert_eq!(slice_chars("héllo", 1, 3), "él");
    assert_eq!(slice_chars("abc", 0, 3), "abc");
    assert_eq!(slice_chars("abc", 2, 2), "");
}
