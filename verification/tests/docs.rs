use code_ranker::config::Preset;
use code_ranker::docs::{
    categories_block, category_keys, category_label, default_plugin_input, fill_select, metric_name, metrics_in_category,
    one_line, principle_title, principles_block, render_catalog, render_category, render_metric, render_metrics_index,
    render_principle, render_principles_index, AttributeGroup, AttributeSpec, DocSpecs,
};

fn spec(name: Option<&str>, group: Option<&str>, desc: Option<&str>) -> AttributeSpec {
    AttributeSpec {
        name: name.map(String::from),
        label: None,
        short: None,
        group: group.map(String::from),
        description: desc.map(String::from),
        formula: None,
    }
}

fn preset(id: &str, title: &str) -> Preset {
    Preset {
        id: id.into(),
        label: id.into(),
        title: title.into(),
        prompt: String::new(),
        doc_url: None,
        sort_metric: "hk".into(),
        connections: vec![],
    }
}

fn specs() -> DocSpecs {
    DocSpecs {
        principles: vec![preset("ADP", "ADP — Acyclic Dependencies"), preset("KISS", "Keep it simple")],
        node_attributes: vec![
            ("cloc".into(), spec(Some("Comment lines"), Some("loc"), Some("Comment lines.<br>More detail"))),
            ("cycle".into(), spec(None, None, Some("In a cycle"))),
            ("hk".into(), spec(Some("Henry–Kafura"), Some("coupling"), None)),
            ("version".into(), spec(None, None, None)),
        ],
        groups: vec![(
            "loc".into(),
            AttributeGroup { label: Some("Lines".into()), description: Some("Line counts".into()) },
        )],
    }
}

#[test]
fn category_keys_are_sorted_and_unique() {
    assert_eq!(category_keys(&specs()), vec!["coupling".to_string(), "loc".to_string()]);
}

#[test]
fn labels_names_and_lines() {
    let s = specs();
    assert_eq!(category_label(&s, "loc"), "Lines");
    assert_eq!(category_label(&s, "coupling"), "coupling");
    assert_eq!(metric_name(&s.node_attributes[0].1, "cloc"), "Comment lines");
    assert_eq!(metric_name(&s.node_attributes[1].1, "cycle"), "cycle");
    assert_eq!(metrics_in_category(&s, "loc"), vec![0]);
    assert_eq!(one_line("  first part <br> second"), "first part");
    assert_eq!(one_line("\u{a0}plain\t"), "plain");
    assert_eq!(principle_title(&s.principles[0]), "Acyclic Dependencies");
    assert_eq!(principle_title(&s.principles[1]), "Keep it simple");
}

#[test]
fn categories_and_principles_blocks() {
    let s = specs();
    assert_eq!(
        categories_block(&s),
        "\n  coupling — coupling\n    - hk: Henry–Kafura\n\n  loc — Line counts\n    - cloc: Comment lines\n\n  (uncategorized)\n    - cycle: cycle\n"
    );
    assert_eq!(principles_block(&s), "  - ADP: Acyclic Dependencies\n  - KISS: Keep it simple\n");
    let empty = DocSpecs { principles: vec![], node_attributes: vec![], groups: vec![] };
    assert_eq!(principles_block(&empty), "  (none — this plugin defines no principles)\n");
    assert_eq!(categories_block(&empty), "");
    assert!(render_metrics_index(&s).starts_with("Metrics — print one with `code-ranker docs <metric>`:\n\n  coupling"));
    assert!(render_principles_index(&s).starts_with("Principles — print one with `code-ranker docs <ID>`:\n\n  - ADP"));
}

#[test]
fn category_card() {
    assert_eq!(
        render_category(&specs(), "loc"),
        "Lines\nLine counts\n\nMetrics — print one with `code-ranker docs <metric>`:\n  - cloc: Comment lines — Comment lines.\n"
    );
}

#[test]
fn metric_card_and_principle_card() {
    let s = specs();
    assert_eq!(
        render_metric(&s, "CLOC", Some("Prose body\n\n")),
        "# cloc: Comment lines\n\nCategory: loc — Lines\n\nComment lines.\nMore detail\n\n---\n\nProse body\n"
    );
    assert_eq!(render_principle(&s, "kiss", None), "# KISS: Keep it simple\n\nSort metric: `hk`\n");
    assert_eq!(render_principle(&s, "kiss", Some("# doc".into())), "# doc");
}

#[test]
fn catalog_lists_every_subject() {
    let out = render_catalog(&specs(), Some("nope"));
    assert!(out.starts_with("Unknown docs subject `nope`.\n\ncode-ranker docs <subject> — print a reference doc to stdout (no analysis).\n"));
    assert!(out.contains("\n  principles — SOLID & related design principles\n    - ADP: Acyclic Dependencies\n    - KISS: Keep it simple\n"));
    assert!(out.ends_with("`docs metrics` (the full metric index).\n"));
}

#[test]
fn fill_select_injects_live_values_into_the_doc_template() {
    let out = fill_select("why: {reason}; try {plugins} (v{config_version}) {reason}", "none found", "rust, python", "3");
    assert_eq!(out, "why: none found; try rust, python (v3) none found");
}

#[test]
fn default_plugin_input_is_neutral() {
    let p = default_plugin_input();
    assert!(p.ignore.is_empty() && p.ignore_tests && p.gitignore && p.ignore_files && !p.hidden);
}
