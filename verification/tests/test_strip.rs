use code_ranker::rust_text::{AttrModel, CfgToken};
use code_ranker::test_strip::{collect_test_ranges, strip_test_items, SpanItem, SpanItemKind};

fn cfg_test() -> AttrModel {
    AttrModel { ident: Some("cfg".into()), list_tokens: Some(vec![CfgToken::Ident("test".into())]) }
}

fn plain(name: &str) -> AttrModel {
    AttrModel { ident: Some(name.into()), list_tokens: None }
}

fn item(kind: SpanItemKind, attrs: Vec<(AttrModel, usize)>, start: usize, end: usize, items: Vec<SpanItem>) -> SpanItem {
    SpanItem {
        kind,
        attr_lines: attrs.iter().map(|a| a.1).collect(),
        attrs: attrs.into_iter().map(|a| a.0).collect(),
        start,
        end,
        items,
    }
}

#[test]
fn test_items_are_found_in_ordinary_modules_only() {
    // fn a() {}              line 1
    // mod inner {            lines 2-5
    //     #[test]            line 3
    //     fn t() {}          line 4
    // }
    // #[cfg(test)]           line 6
    // mod tests { ... }      lines 7-9
    // #[inline] fn b() {}    lines 10-11
    let items = vec![
        item(SpanItemKind::Fn, vec![], 1, 1, vec![]),
        item(SpanItemKind::Mod, vec![], 2, 5, vec![item(SpanItemKind::Fn, vec![(plain("test"), 3)], 4, 4, vec![])]),
        item(
            SpanItemKind::Mod,
            vec![(cfg_test(), 6)],
            7,
            9,
            vec![item(SpanItemKind::Fn, vec![(plain("test"), 8)], 8, 8, vec![])],
        ),
        item(SpanItemKind::Fn, vec![(plain("inline"), 10)], 11, 11, vec![]),
    ];
    assert_eq!(collect_test_ranges(&items), vec![(3, 4), (6, 9)]);
    let text = "fn a() {}\nmod inner {\n#[test]\nfn t() {}\n}\n#[cfg(test)]\nmod tests {\nfn x() {}\n}\n#[inline]\nfn b() {}\n";
    let (prod, tloc) = strip_test_items(text, &items);
    assert_eq!(tloc, 6);
    assert_eq!(prod, "fn a() {}\nmod inner {\n}\n#[inline]\nfn b() {}\n");
}

#[test]
fn file_without_test_items_is_unchanged() {
    let items = vec![item(SpanItemKind::Fn, vec![(plain("bench"), 1)], 2, 3, vec![]), item(SpanItemKind::Fn, vec![], 4, 4, vec![])];
    assert_eq!(collect_test_ranges(&items), vec![(1, 3)]);
    let none = vec![item(SpanItemKind::Fn, vec![], 1, 1, vec![])];
    let (prod, tloc) = strip_test_items("fn a() {}", &none);
    assert_eq!(prod, "fn a() {}");
    assert_eq!(tloc, 0);
}
