use code_ranker::config::Preset;
use code_ranker::docs::{AttributeGroup, AttributeSpec, DocSpecs};
use code_ranker::docs_route::{docs_route, subject_eq, DocsRoute};

fn attr(group: Option<&str>) -> AttributeSpec {
    AttributeSpec { name: None, label: None, short: None, group: group.map(String::from), description: None, formula: None }
}

fn preset(id: &str) -> Preset {
    Preset {
        id: id.into(),
        label: id.into(),
        title: id.into(),
        prompt: String::new(),
        doc_url: None,
        sort_metric: "hk".into(),
        connections: vec![],
    }
}

fn specs() -> DocSpecs {
    DocSpecs {
        principles: vec![preset("ADP"), preset("Big-Ball")],
        node_attributes: vec![("fan_in".into(), attr(Some("coupling"))), ("sloc".into(), attr(Some("loc")))],
        groups: vec![("loc".into(), AttributeGroup { label: Some("Lines".into()), description: None })],
    }
}

#[test]
fn subjects_fold_case_and_separators() {
    assert!(subject_eq("fan_in", "Fan-in"));
    assert!(subject_eq("FAN in", "fan_in"));
    assert!(!subject_eq("fanin", "fan_in"));
    assert!(!subject_eq("fan_in", "fan_out"));
}

#[test]
fn docs_subjects_route_in_order() {
    let s = specs();
    assert!(matches!(docs_route(&s, "AI"), DocsRoute::Ai));
    assert!(matches!(docs_route(&s, "Metrics"), DocsRoute::MetricsIndex));
    assert!(matches!(docs_route(&s, "principles"), DocsRoute::PrinciplesIndex));
    match docs_route(&s, "LOC") {
        DocsRoute::Category(k) => assert_eq!(k, "loc"),
        _ => panic!("expected a category"),
    }
    match docs_route(&s, "Coupling") {
        DocsRoute::Category(k) => assert_eq!(k, "coupling"),
        _ => panic!("expected a category"),
    }
    assert!(matches!(docs_route(&s, "adp"), DocsRoute::Principle(0)));
    assert!(matches!(docs_route(&s, "big ball"), DocsRoute::Principle(1)));
    assert!(matches!(docs_route(&s, "Fan-in"), DocsRoute::Metric(0)));
    assert!(matches!(docs_route(&s, "nothing"), DocsRoute::Catalog));
}
