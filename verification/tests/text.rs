use code_ranker::maps::NameMap;
use code_ranker::text::{references, render_message, replace_word};

#[test]
fn references_match_whole_words_only() {
    assert!(references("let x = foo(1);", "foo"));
    assert!(!references("let x = foobar(1);", "foo"));
    assert!(!references("let x = my_foo;", "foo"));
    assert!(references("foo", "foo"));
}

#[test]
fn replace_word_leaves_partial_matches() {
    assert_eq!(replace_word("foo(foo_bar, foo)", "foo", "baz"), "baz(foo_bar, baz)");
    assert_eq!(replace_word("nothing here", "foo", "baz"), "nothing here");
}

#[test]
fn render_message_fills_known_keys() {
    let mut values: NameMap<String> = NameMap::new();
    values.insert("name".into(), "lib.rs".into());
    values.insert("loc".into(), "1318".into());
    assert_eq!(render_message("{name} has {loc} lines", &values), "lib.rs has 1318 lines");
    assert_eq!(render_message("{unknown} stays", &values), "{unknown} stays");
    assert_eq!(render_message("open { brace", &values), "open { brace");
}
