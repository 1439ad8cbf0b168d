use code_ranker::config::{
    apply_spec_overrides, doc_overrides, merge_principles, principle_id, resolved_principles, string_field,
    DocOverrides, PrincipleCfg, SpecOverride, TomlTable, TomlValue,
};
use code_ranker::docs::AttributeSpec;

fn s(x: &str) -> TomlValue {
    TomlValue::String(x.into())
}

fn principle(id: &str, title: &str) -> TomlValue {
    TomlValue::Table(TomlTable { entries: vec![("id".into(), s(id)), ("title".into(), s(title))] })
}

fn title_of(v: &TomlValue) -> String {
    match v {
        TomlValue::Table(t) => match t.get("title") {
            Some(TomlValue::String(x)) => x.clone(),
            _ => String::new(),
        },
        _ => String::new(),
    }
}

#[test]
fn merge_principles_replaces_by_id_and_appends_new() {
    let base = vec![principle("SRP", "base srp"), principle("ADP", "base adp")];
    let overlay = vec![principle("ADP", "lang adp"), principle("RUST", "lang only"), TomlValue::Integer(7)];
    let out = merge_principles(base, overlay);
    assert_eq!(out.len(), 4);
    assert_eq!(principle_id(&out[0]), Some("SRP"));
    assert_eq!(title_of(&out[1]), "lang adp");
    assert_eq!(principle_id(&out[2]), Some("RUST"));
    assert!(matches!(out[3], TomlValue::Integer(7)));
    assert_eq!(principle_id(&TomlValue::Boolean(true)), None);
}

#[test]
fn doc_overrides_cover_ids() {
    let all = TomlTable { entries: vec![("doc_overrides".into(), s("*"))] };
    assert!(doc_overrides(&all).covers("ANY"));
    let some = TomlTable {
        entries: vec![("doc_overrides".into(), TomlValue::Array(vec![s("SRP"), TomlValue::Integer(1), s("ADP")]))],
    };
    let o = doc_overrides(&some);
    assert!(o.covers("SRP") && o.covers("ADP") && !o.covers("KISS"));
    let other = TomlTable { entries: vec![("doc_overrides".into(), s("some"))] };
    assert!(matches!(doc_overrides(&other), DocOverrides::Absent));
    assert!(matches!(doc_overrides(&TomlTable { entries: vec![] }), DocOverrides::Absent));
}

fn cfg(id: &str) -> PrincipleCfg {
    PrincipleCfg { id: id.into(), title: "T".into(), sort_metric: "hk".into(), connections: vec!["in".into()], prompt: "P".into() }
}

#[test]
fn resolved_principles_link_docs_by_override() {
    let table = TomlTable {
        entries: vec![
            ("doc_base".into(), s("https://x/languages")),
            ("doc_lang".into(), s("rust")),
            ("doc_overrides".into(), TomlValue::Array(vec![s("SRP")])),
        ],
    };
    assert_eq!(string_field(&table, "doc_lang"), Some("rust"));
    assert_eq!(string_field(&table, "missing"), None);
    let out = resolved_principles(&table, vec![cfg("SRP"), cfg("ADP")]);
    assert_eq!(out[0].doc_url.as_deref(), Some("https://x/languages/rust/SRP.md"));
    assert_eq!(out[1].doc_url.as_deref(), Some("https://x/languages/base/ADP.md"));
    assert_eq!(out[1].label, "ADP");
    assert_eq!(out[1].connections, vec!["in".to_string()]);
    let no_base = resolved_principles(&TomlTable { entries: vec![] }, vec![cfg("SRP")]);
    assert_eq!(no_base[0].doc_url, None);
}

fn attr(label: &str, description: Option<&str>) -> AttributeSpec {
    AttributeSpec {
        name: Some(label.to_string()),
        label: Some(label.to_string()),
        short: None,
        group: Some("complexity".to_string()),
        description: description.map(|d| d.to_string()),
        formula: Some("n1 + n2".to_string()),
    }
}

#[test]
fn spec_overrides_replace_only_known_descriptions() {
    let defaults = vec![
        ("halstead_volume".to_string(), attr("Volume", Some("generic"))),
        ("loc".to_string(), attr("Lines", Some("all lines"))),
        ("hk".to_string(), attr("HK", None)),
    ];
    let overrides = vec![
        ("halstead_volume".to_string(), SpecOverride { description: Some("Rust operators".into()) }),
        ("hk".to_string(), SpecOverride { description: Some("coupling".into()) }),
        ("loc".to_string(), SpecOverride { description: None }),
        ("unknown".to_string(), SpecOverride { description: Some("ignored".into()) }),
    ];
    let out = apply_spec_overrides(&defaults, &overrides);
    assert_eq!(out.len(), 3);
    assert_eq!(out[0].0, "halstead_volume");
    assert_eq!(out[0].1.description.as_deref(), Some("Rust operators"));
    assert_eq!(out[0].1.formula.as_deref(), Some("n1 + n2"));
    assert_eq!(out[1].1.description.as_deref(), Some("all lines"));
    assert_eq!(out[2].1.description.as_deref(), Some("coupling"));
    assert_eq!(out[2].1.label.as_deref(), Some("HK"));
}

#[test]
fn later_spec_override_wins() {
    let defaults = vec![("loc".to_string(), attr("Lines", None))];
    let overrides = vec![
        ("loc".to_string(), SpecOverride { description: Some("first".into()) }),
        ("loc".to_string(), SpecOverride { description: Some("second".into()) }),
    ];
    assert_eq!(apply_spec_overrides(&defaults, &overrides)[0].1.description.as_deref(), Some("second"));
}
