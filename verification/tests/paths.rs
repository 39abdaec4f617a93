use knob::paths::{chars_of, extension, flatten, join, last_index, parent, text_eq};

#[test]
fn parent_is_the_text_before_the_last_separator() {
    assert_eq!(parent("/a/b/c.h"), Some("/a/b".to_string()));
    assert_eq!(parent("sources/a/x.h"), Some("sources/a".to_string()));
    assert_eq!(parent("sources/a"), Some("sources".to_string()));
}

#[test]
fn parent_of_a_path_under_the_root_is_the_root() {
    assert_eq!(parent("/a"), Some("/".to_string()));
}

#[test]
fn parent_of_a_bare_name_is_the_empty_path() {
    assert_eq!(parent("a"), Some(String::new()));
}

#[test]
fn root_and_empty_path_have_no_parent() {
    assert_eq!(parent("/"), None);
    assert_eq!(parent(""), None);
}

#[test]
fn parent_keeps_characters_outside_ascii() {
    assert_eq!(parent("/số/đo/é.h"), Some("/số/đo".to_string()));
}

#[test]
fn extension_is_the_text_after_the_last_dot_of_the_file_name() {
    assert_eq!(extension("a/b.c"), Some("c".to_string()));
    assert_eq!(extension("x.tar.gz"), Some("gz".to_string()));
    assert_eq!(extension("/p/q/main.c++"), Some("c++".to_string()));
}

#[test]
fn extension_is_missing_without_a_dot_in_the_file_name() {
    assert_eq!(extension("a.b/c"), None);
    assert_eq!(extension("Makefile"), None);
    assert_eq!(extension(""), None);
}

#[test]
fn extension_is_missing_where_the_only_dot_comes_first() {
    assert_eq!(extension(".c"), None);
    assert_eq!(extension("dir/.hidden"), None);
}

#[test]
fn extension_may_be_empty() {
    assert_eq!(extension("foo."), Some(String::new()));
}

#[test]
fn join_puts_one_separator_between() {
    assert_eq!(join("/r", "a"), "/r/a");
    assert_eq!(join("/r/", "a"), "/r/a");
    assert_eq!(join("/r", "a/b.o"), "/r/a/b.o");
}

#[test]
fn join_lets_a_rooted_path_stand_for_itself() {
    assert_eq!(join("/r", "/abs/lib.a"), "/abs/lib.a");
}

#[test]
fn join_with_an_empty_base_or_rest() {
    assert_eq!(join("", "a"), "a");
    assert_eq!(join("/r", ""), "/r/");
    assert_eq!(join("", ""), "");
}

#[test]
fn flatten_puts_a_dot_for_every_separator() {
    assert_eq!(flatten("/p/src/a.c"), ".p.src.a.c");
    assert_eq!(flatten("plain"), "plain");
    assert_eq!(flatten("a//b/"), "a..b.");
    assert_eq!(flatten(""), "");
}

#[test]
fn flatten_gives_files_of_one_name_different_names() {
    assert_ne!(flatten("/p/a/x.c"), flatten("/p/b/x.c"));
}

#[test]
fn chars_of_keeps_every_character() {
    assert_eq!(chars_of("a/é"), vec!['a', '/', 'é']);
    assert_eq!(chars_of(""), Vec::<char>::new());
}

#[test]
fn last_index_finds_the_last_occurrence() {
    let chars = vec!['a', '/', 'b', '/', 'c'];
    assert_eq!(last_index(&chars, '/'), Some(3));
    assert_eq!(last_index(&chars, 'a'), Some(0));
    assert_eq!(last_index(&chars, 'z'), None);
    assert_eq!(last_index(&Vec::new(), '/'), None);
}

#[test]
fn text_eq_compares_by_characters() {
    assert!(text_eq("macos", "macos"));
    assert!(!text_eq("macos", "macOS"));
    assert!(!text_eq("a", "ab"));
    assert!(text_eq("", ""));
}
