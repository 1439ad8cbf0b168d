use code_ranker::config::Preset;
use code_ranker::doc_specs::{build_specs, ProjectMetric};
use code_ranker::docs::{AttributeGroup, AttributeSpec};

fn named(name: &str) -> AttributeSpec {
    AttributeSpec { name: Some(name.into()), label: None, short: None, group: None, description: None, formula: None }
}

fn group(label: &str) -> AttributeGroup {
    AttributeGroup { label: Some(label.into()), description: None }
}

fn project(key: &str, node: bool, name: &str) -> ProjectMetric {
    ProjectMetric { key: key.into(), node_scope: node, spec: named(name) }
}

#[test]
fn built_in_layers_override_in_order_and_win_over_the_project() {
    let level = vec![("unsafe".to_string(), named("Unsafe blocks")), ("sloc".to_string(), named("level sloc"))];
    let metrics = vec![("sloc".to_string(), named("Source lines")), ("cloc".to_string(), named("Comment lines"))];
    let coupling = vec![("fan_in".to_string(), named("Fan-in"))];
    let proj = vec![
        project("sloc", true, "project sloc"),
        project("todo", true, "TODO count"),
        project("todo", true, "second todo"),
        project("repo_age", false, "Repository age"),
    ];
    let groups = vec![("loc".to_string(), group("Lines"))];
    let central_groups = vec![("loc".to_string(), group("Line counts")), ("coupling".to_string(), group("Coupling"))];
    let specs = build_specs(level, metrics, coupling, proj, groups, central_groups, vec![], Vec::<Preset>::new());
    let keys: Vec<&str> = specs.node_attributes.iter().map(|e| e.0.as_str()).collect();
    assert_eq!(keys, vec!["cloc", "fan_in", "sloc", "todo", "unsafe"]);
    let name_of = |k: &str| specs.node_attributes.iter().find(|e| e.0 == k).unwrap().1.name.clone().unwrap();
    assert_eq!(name_of("sloc"), "Source lines");
    assert_eq!(name_of("todo"), "TODO count");
    assert_eq!(name_of("unsafe"), "Unsafe blocks");
    let gkeys: Vec<&str> = specs.groups.iter().map(|e| e.0.as_str()).collect();
    assert_eq!(gkeys, vec!["coupling", "loc"]);
    assert_eq!(specs.groups[1].1.label.as_deref(), Some("Line counts"));
    assert!(specs.principles.is_empty());
}
