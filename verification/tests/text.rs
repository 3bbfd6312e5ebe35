use darkstone::path::join;
use darkstone::path::last_segment;
use darkstone::text::chars_of;
use darkstone::text::push_decimal;
use darkstone::text::splice;
use darkstone::text::string_of;

#[test]
fn chars_and_back() {
    let chars = chars_of("añb");
    assert_eq!(chars, vec!['a', 'ñ', 'b']);
    assert_eq!(string_of(&chars, 0, 3), "añb");
    assert_eq!(string_of(&chars, 1, 2), "ñ");
    assert_eq!(string_of(&chars, 2, 2), "");
}

#[test]
fn splice_replaces_a_range() {
    assert_eq!(splice("hello world", 6, 11, "there"), "hello there");
    assert_eq!(splice("abc", 1, 1, "XY"), "aXYbc");
    assert_eq!(splice("abc", 0, 3, ""), "");
    assert_eq!(splice("añb", 1, 2, "n"), "anb");
}

#[test]
fn decimal_numerals() {
    let mut out = String::from("n=");
    push_decimal(&mut out, 0);
    assert_eq!(out, "n=0");
    let mut out = String::new();
    push_decimal(&mut out, 7);
    assert_eq!(out, "7");
    let mut out = String::new();
    push_decimal(&mut out, 10);
    assert_eq!(out, "10");
    let mut out = String::new();
    push_decimal(&mut out, 1234567890);
    assert_eq!(out, "1234567890");
    let mut out = String::new();
    push_decimal(&mut out, u64::MAX);
    assert_eq!(out, "18446744073709551615");
}

#[test]
fn join_puts_one_separator_between() {
    assert_eq!(join("/notes", "a.md"), "/notes/a.md");
    assert_eq!(join("/notes/", "a.md"), "/notes/a.md");
    assert_eq!(join("", "a.md"), "a.md");
    assert_eq!(join("/", "a.md"), "/a.md");
}

#[test]
fn last_segment_is_what_follows_the_last_separator() {
    assert_eq!(last_segment("/notes/a.md"), "a.md");
    assert_eq!(last_segment("/notes/sub/"), "sub");
    assert_eq!(last_segment("/notes/sub//"), "sub");
    assert_eq!(last_segment("plain"), "plain");
    assert_eq!(last_segment("/"), "");
    assert_eq!(last_segment(""), "");
}

#[test]
fn last_segment_of_a_joined_name_is_the_name() {
    assert_eq!(last_segment(&join("/home/me/notes", "Untitled 3")), "Untitled 3");
}
