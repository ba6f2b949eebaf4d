use restruct::text::{char_offset, contains_sub, str_eq, ParseContext};
use restruct::Loc;

#[test]
fn char_offset_first_line() {
    assert_eq!(char_offset("abc\ndef", Loc { line: 1, column: 2 }), 2);
}

#[test]
fn char_offset_later_line() {
    assert_eq!(char_offset("ab\ncd\nef", Loc { line: 3, column: 1 }), 7);
}

#[test]
fn char_offset_counts_scalars_not_bytes() {
    // 'é' is one scalar unit wide, whatever its encoding.
    assert_eq!(char_offset("é\nab", Loc { line: 2, column: 1 }), 3);
}

#[test]
fn text_between_slices_forward() {
    let mut ctx = ParseContext::new(String::from("hello world"));
    ctx.update_offset(6);
    assert_eq!(ctx.text_between(11), "world");
}

#[test]
fn text_between_empty_slice() {
    let ctx = ParseContext::new(String::from("abc"));
    assert_eq!(ctx.text_between(0), "");
}

#[test]
fn contains_sub_finds_needle() {
    assert!(contains_sub("fn get_users() { GET }", "GET"));
    assert!(!contains_sub("fn list()", "POST"));
    assert!(contains_sub("anything", ""));
    assert!(!contains_sub("ab", "abc"));
}

#[test]
fn str_eq_compares_chars() {
    assert!(str_eq("main", "main"));
    assert!(!str_eq("main", "mains"));
    assert!(!str_eq("main", "mann"));
}
