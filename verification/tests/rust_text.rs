use code_ranker::rust_text::{
    find_registry, home_dir, is_test_attr, is_test_item, joined, rust_lib_dir, strip_test_lines, test_item_range,
    tokens_have_test_ident, toolchain_roots, version_token, AttrModel, CfgToken,
};

fn s(items: &[&str]) -> Vec<String> {
    items.iter().map(|x| x.to_string()).collect()
}

#[test]
fn strip_removes_test_ranges_and_counts_their_lines() {
    let src = "fn a() {}\n#[cfg(test)]\nmod tests {\n}\nfn b() {}\n";
    let (out, tloc) = strip_test_lines(src, &vec![(2, 4)]);
    assert_eq!(out, "fn a() {}\nfn b() {}\n");
    assert_eq!(tloc, 3);
}

#[test]
fn strip_counts_overlapping_ranges_once() {
    let (out, tloc) = strip_test_lines("a\nb\nc\nd\ne", &vec![(2, 3), (3, 4)]);
    assert_eq!(out, "a\ne\n");
    assert_eq!(tloc, 3);
}

#[test]
fn strip_without_ranges_leaves_the_text_unchanged() {
    let (out, tloc) = strip_test_lines("x\r\ny", &vec![]);
    assert_eq!(out, "x\r\ny");
    assert_eq!(tloc, 0);
}

#[test]
fn strip_drops_carriage_returns_of_kept_lines() {
    let (out, tloc) = strip_test_lines("a\r\nb\r\nc\r\n", &vec![(2, 2)]);
    assert_eq!(out, "a\nc\n");
    assert_eq!(tloc, 1);
}

#[test]
fn version_token_is_the_second_word() {
    assert_eq!(version_token("rustc 1.80.0 (051478957 2024-07-21)\n"), "1.80.0");
    assert_eq!(version_token("  rustc\t1.2.3"), "1.2.3");
    assert_eq!(version_token("rustc"), "unknown");
    assert_eq!(version_token(""), "unknown");
}

#[test]
fn home_dir_prefers_the_variable() {
    assert_eq!(home_dir("/home/u", None, ".cargo"), "/home/u/.cargo");
    assert_eq!(home_dir("/home/u", Some("/opt/cargo"), ".cargo"), "/opt/cargo");
}

#[test]
fn find_registry_picks_the_first_crates_io_entry() {
    let names = s(&["github.com-1ecc6299db9ec823", "index.crates.io-6f17d22bba15001f", "index.crates.io-zz"]);
    assert_eq!(
        find_registry("/c/registry/src", &names).as_deref(),
        Some("/c/registry/src/index.crates.io-6f17d22bba15001f")
    );
    assert_eq!(find_registry("/c/registry/src", &s(&["other"])), None);
}

#[test]
fn rust_lib_dir_trims_the_sysroot() {
    assert_eq!(rust_lib_dir("  /sys/root\n"), "/sys/root/lib/rustlib/src/rust/library");
}

#[test]
fn toolchain_roots_in_order() {
    let roots = toolchain_roots("/c", "/r", Some("/c/registry/src/index.crates.io-x"), Some("/lib"));
    let got: Vec<(&str, &str)> = roots.iter().map(|(k, v)| (k.as_str(), v.as_str())).collect();
    assert_eq!(
        got,
        vec![("registry", "/c/registry/src/index.crates.io-x"), ("cargo", "/c"), ("rust-src", "/lib"), ("rustup", "/r")]
    );
    let roots = toolchain_roots("", "/r", Some("/reg"), None);
    assert_eq!(roots, vec![("rustup".to_string(), "/r".to_string())]);
    assert!(toolchain_roots("", "", Some("/reg"), Some("/lib")).is_empty());
}

fn ident(x: &str) -> CfgToken {
    CfgToken::Ident(x.to_string())
}

fn attr(name: Option<&str>, tokens: Option<Vec<CfgToken>>) -> AttrModel {
    AttrModel { ident: name.map(|n| n.to_string()), list_tokens: tokens }
}

#[test]
fn test_attribute_detection() {
    assert!(is_test_attr(&attr(Some("test"), None)));
    assert!(is_test_attr(&attr(Some("bench"), None)));
    assert!(is_test_attr(&attr(Some("cfg"), Some(vec![ident("test")]))));
    let all = vec![ident("all"), CfgToken::Group(vec![ident("unix"), CfgToken::Other, ident("test")])];
    assert!(is_test_attr(&attr(Some("cfg"), Some(all))));
    // `cfg(feature = "test")`: the `test` there is a string literal, not an ident.
    let feature = vec![ident("feature"), CfgToken::Other, CfgToken::Other];
    assert!(!is_test_attr(&attr(Some("cfg"), Some(feature))));
    assert!(!is_test_attr(&attr(Some("cfg"), None)));
    assert!(!is_test_attr(&attr(Some("derive"), Some(vec![ident("test")]))));
    assert!(!is_test_attr(&attr(None, Some(vec![ident("test")]))));
}

#[test]
fn tokens_search_nested_groups() {
    let nested = vec![ident("not"), CfgToken::Group(vec![CfgToken::Group(vec![ident("test")])])];
    assert!(tokens_have_test_ident(&nested));
    assert!(!tokens_have_test_ident(&vec![ident("tests"), CfgToken::Group(vec![])]));
}

#[test]
fn test_item_needs_one_test_attribute() {
    assert!(is_test_item(&Some(vec![attr(Some("inline"), None), attr(Some("test"), None)])));
    assert!(!is_test_item(&Some(vec![attr(Some("inline"), None)])));
    assert!(!is_test_item(&None));
}

#[test]
fn joined_sets() {
    assert_eq!(joined(&vec![]), None);
    assert_eq!(joined(&s(&["Clone", "Debug"])).as_deref(), Some("Clone,Debug"));
}

#[test]
fn test_item_range_starts_at_the_first_attribute() {
    assert_eq!(test_item_range(&vec![4, 3], 5, 9), (3, 9));
    assert_eq!(test_item_range(&vec![], 5, 9), (5, 9));
    assert_eq!(test_item_range(&vec![7], 5, 9), (5, 9));
}
