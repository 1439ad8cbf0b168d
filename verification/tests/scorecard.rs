use code_ranker::focus::FocusPaths;
use code_ranker::scorecard::{
    attr_short, empty_modules_note, metric_focus_label, principle_rows, principle_top_module, render_mod_rows, metric_mod_rows, RankedModule,
    render_principle_table, render_scorecard, scorecard_lens, sort_rows, strip_principle_id, AttrNames, Focus, ModRow,
    PrincipleStat, Row, Severity, Tier, TopModule,
};

fn row(id: &str, name: &str, warn: usize, info: usize, top: &str) -> Row {
    Row { id: id.into(), name: name.into(), warn, info, top: top.into() }
}

fn stat(id: &str, title: &str, metric: &str, w: usize, i: usize, top: Option<TopModule>) -> PrincipleStat {
    PrincipleStat {
        id: id.into(),
        title: title.into(),
        sort_metric: metric.into(),
        metric_short: "HK".into(),
        warning_count: w,
        info_count: i,
        top,
    }
}

fn modrow(tier: Tier, path: &str, head: &str, rest: &[&str]) -> ModRow {
    ModRow { tier, path: path.into(), head: head.into(), rest: rest.iter().map(|s| s.to_string()).collect() }
}

#[test]
fn rows_rank_by_warnings_then_infos_stably() {
    let rows = vec![row("A", "a", 1, 0, "-"), row("B", "b", 3, 1, "-"), row("C", "c", 1, 0, "-"), row("D", "d", 3, 2, "-")];
    let ids: Vec<String> = sort_rows(rows).into_iter().map(|r| r.id).collect();
    assert_eq!(ids, vec!["D", "B", "A", "C"]);
}

#[test]
fn principle_table_layout() {
    let mut out = String::new();
    render_principle_table(&mut out, &vec![row("ADP", "Acyclic Dependencies", 2, 0, "src/a.rs (cycle)")], true, false);
    assert_eq!(
        out,
        "PRESET  PRINCIPLE             WARN  TOP MODULE\nADP     Acyclic Dependencies     2  src/a.rs (cycle)\n"
    );
}

#[test]
fn principle_table_clips_long_names() {
    let long = "A principle name that is far too long for the column";
    let mut out = String::new();
    render_principle_table(&mut out, &vec![row("X", long, 0, 7, "t")], false, true);
    let line = out.lines().nth(1).unwrap();
    assert_eq!(line, "X       A principle name that is far too …     7  t");
}

#[test]
fn mod_rows_are_numbered_and_aligned() {
    let mut out = String::new();
    render_mod_rows(
        &mut out,
        &vec![modrow(Tier::Warn, "src/long/path.rs", "HK 120", &["cloc", "cycle"]), modrow(Tier::Below, "a.rs", "HK", &[])],
    );
    assert_eq!(out, " 1 warn src/long/path.rs  HK 120  +cloc, cycle\n 2 —    a.rs              HK\n");
}

#[test]
fn empty_modules_note_variants() {
    let none = FocusPaths::new(&[], "/ws", None);
    assert_eq!(empty_modules_note(&none, None, &vec![]), "  (none)\n");
    let focused = FocusPaths::new(&["lib".to_string()], "/ws", None);
    assert_eq!(empty_modules_note(&focused, Some("cycle"), &vec![modrow(Tier::Warn, "src/a.rs", "x", &[])]), "  (none)\n");
    assert_eq!(empty_modules_note(&focused, None, &vec![]), "  (none)\n");
    assert_eq!(
        empty_modules_note(&focused, Some("hk"), &vec![modrow(Tier::Info, "src/a.rs", "x", &[]), modrow(Tier::Info, "b.rs", "x", &[])]),
        "  (no module matched --focus-path — 0 of 2 ranked modules.\n   Reported locations look like 'src/…'; did you mean --focus-path 'src'?  Run once without --focus-path to see the exact form.)\n"
    );
    assert!(empty_modules_note(&focused, None, &vec![modrow(Tier::Info, "/abs.rs", "x", &[])]).contains("'src/…'"));
}

#[test]
fn metric_focus_labels() {
    assert_eq!(metric_focus_label(None, "cycle"), "cycle — dependency cycles");
    assert_eq!(metric_focus_label(None, "hk"), "hk");
    let names = AttrNames { short: Some("HK".into()), label: Some("Coupling".into()), name: Some("Henry–Kafura".into()) };
    assert_eq!(metric_focus_label(Some(&names), "hk"), "HK — Henry–Kafura");
    let same = AttrNames { short: None, label: Some("LOC".into()), name: Some("LOC".into()) };
    assert_eq!(metric_focus_label(Some(&same), "loc"), "LOC");
}

#[test]
fn top_module_cells_and_short_titles() {
    assert_eq!(strip_principle_id("ADP — Acyclic Dependencies"), "Acyclic Dependencies");
    assert_eq!(strip_principle_id("Plain title"), "Plain title");
    let cyc = stat("ADP", "t", "cycle", 1, 0, Some(TopModule { id: "{target}/src/a.rs".into(), value: None }));
    assert_eq!(principle_top_module(&cyc), "src/a.rs (cycle)");
    let hk = stat("SRP", "t", "hk", 1, 0, Some(TopModule { id: "{target}/src/b.rs".into(), value: Some("42".into()) }));
    assert_eq!(principle_top_module(&hk), "src/b.rs (HK 42)");
    let zero = stat("SRP", "t", "hk", 1, 0, Some(TopModule { id: "ext:x".into(), value: None }));
    assert_eq!(principle_top_module(&zero), "ext:x");
    assert_eq!(principle_top_module(&stat("SRP", "t", "hk", 0, 0, None)), "—");
}

#[test]
fn principle_rows_filter_by_tier_and_lens() {
    let ps = vec![stat("A", "A — Alpha", "hk", 0, 2, None), stat("B", "B — Beta", "loc", 1, 0, None), stat("C", "Gamma", "x", 0, 0, None)];
    let warn_only = principle_rows(&ps, &None, false, true, false);
    assert_eq!(warn_only.iter().map(|r| r.id.as_str()).collect::<Vec<_>>(), vec!["B"]);
    let both = principle_rows(&ps, &None, false, true, true);
    assert_eq!(both.iter().map(|r| r.name.as_str()).collect::<Vec<_>>(), vec!["Alpha", "Beta"]);
    let lens = Some(Focus::Principle("C".into()));
    let one = principle_rows(&ps, &lens, true, true, false);
    assert_eq!(one.len(), 1);
    assert_eq!(scorecard_lens(&lens, &ps).as_deref(), Some("x"));
    assert_eq!(scorecard_lens(&Some(Focus::Metric("cloc".into())), &ps).as_deref(), Some("cloc"));
    assert_eq!(scorecard_lens(&None, &ps), None);
}

#[test]
fn scorecard_all_clear_without_breaches() {
    let none = FocusPaths::new(&[], "/ws", None);
    let out = render_scorecard("rust", 3, &vec![stat("A", "A — Alpha", "hk", 0, 0, None)], &vec![Severity::Warning], &None, None, &none, "", &vec![], &vec![]);
    assert_eq!(out, "scorecard  (rust, 3 files)\n\nNo threshold breaches for the selected severity.\n");
}

#[test]
fn scorecard_full_layout() {
    let none = FocusPaths::new(&[], "/ws", None);
    let ps = vec![stat("SRP", "SRP — Single Responsibility", "hk", 2, 1, Some(TopModule { id: "{target}/src/a.rs".into(), value: Some("9".into()) }))];
    let out = render_scorecard(
        "rust",
        12,
        &ps,
        &vec![Severity::Auto],
        &None,
        None,
        &none,
        "",
        &vec![modrow(Tier::Warn, "src/a.rs", "HK 9", &[])],
        &vec![],
    );
    let expected = "scorecard  (rust, 12 files)\n\n\
PRESET  PRINCIPLE              WARN  INFO  TOP MODULE\n\
SRP     Single Responsibility     2     1  src/a.rs (HK 9)\n\
\nWORST MODULES\n 1 warn src/a.rs  HK 9\n\
\n→ code-ranker report . --plugins rust --prompt <PRINCIPLE|METRIC>   (AI fix-prompt to stdout)\n";
    assert_eq!(out, expected);
}

#[test]
fn scorecard_metric_lens_has_focus_line_and_no_table() {
    let fp = FocusPaths::new(&["lib".to_string()], "/ws", None);
    let out = render_scorecard(
        "python",
        1,
        &vec![stat("A", "A — Alpha", "hk", 5, 0, None)],
        &vec![Severity::Warning],
        &Some(Focus::Metric("cycle".into())),
        None,
        &fp,
        "  one cycle\n",
        &vec![],
        &vec![],
    );
    assert_eq!(
        out,
        "scorecard  (python, 1 files)\n\nfocus: cycle — dependency cycles\n\nWORST MODULES\n  one cycle\n  (none)\n\n→ code-ranker report . --plugins python --prompt <PRINCIPLE|METRIC>   (AI fix-prompt to stdout)\n"
    );
}

#[test]
fn attr_short_prefers_short_then_label_then_key() {
    let both = AttrNames { short: Some("HK".into()), label: Some("Henry-Kafura".into()), name: None };
    assert_eq!(attr_short(Some(&both), "hk"), "HK");
    let label_only = AttrNames { short: None, label: Some("Fan-in".into()), name: Some("Fan-in".into()) };
    assert_eq!(attr_short(Some(&label_only), "fan_in"), "Fan-in");
    let bare = AttrNames { short: None, label: None, name: Some("Lines".into()) };
    assert_eq!(attr_short(Some(&bare), "loc"), "loc");
    assert_eq!(attr_short(None, "sloc"), "sloc");
}

fn ranked(id: &str, shown: Option<usize>, tier: Tier) -> RankedModule {
    RankedModule { id: id.into(), shown, tier }
}

#[test]
fn metric_rows_are_capped_at_fifteen_by_default() {
    let all: Vec<RankedModule> = (0..20).map(|i| ranked(&format!("{{target}}/src/m{i}.rs"), Some(20 - i), Tier::Below)).collect();
    let none = FocusPaths::new(&[], "/ws", None);
    let rows = metric_mod_rows(&all, "HK", &none, None);
    assert_eq!(rows.len(), 15);
    assert_eq!(rows[0].path, "src/m0.rs");
    assert_eq!(rows[0].head, "HK 20");
    assert_eq!(rows[14].path, "src/m14.rs");
    let two = metric_mod_rows(&all, "HK", &none, Some(2));
    assert_eq!(two.len(), 2);
    assert_eq!(two[1].path, "src/m1.rs");
    assert!(two[1].rest.is_empty());
}

#[test]
fn metric_rows_keep_rank_order_under_the_focus_set() {
    let all = vec![
        ranked("{target}/lib/x.rs", Some(9), Tier::Warn),
        ranked("{target}/src/a.rs", Some(7), Tier::Warn),
        ranked("{target}/src/b.rs", None, Tier::Info),
        ranked("{target}/src/c.rs", Some(1), Tier::Below),
    ];
    let src = FocusPaths::new(&["src".to_string()], "/ws", None);
    let rows = metric_mod_rows(&all, "Fan-in", &src, Some(2));
    assert_eq!(rows.len(), 2);
    assert_eq!(rows[0].path, "src/a.rs");
    assert_eq!(rows[0].head, "Fan-in 7");
    assert!(rows[0].tier == Tier::Warn);
    assert_eq!(rows[1].path, "src/b.rs");
    assert_eq!(rows[1].head, "Fan-in");
    assert!(rows[1].tier == Tier::Info);
    assert!(metric_mod_rows(&all, "Fan-in", &src, Some(0)).is_empty());
}

#[test]
fn principle_table_has_one_line_per_row_after_the_header() {
    let rows = vec![
        row("SRP", "Single Responsibility", 3, 1, "src/a.rs"),
        row("ADP", "Acyclic Dependencies", 0, 2, "src/b.rs"),
        row("X", "A principle name that is far too long for the column", 1, 1, "-"),
    ];
    let mut out = String::new();
    render_principle_table(&mut out, &rows, true, true);
    assert_eq!(out.matches('\n').count(), rows.len() + 1);
    assert!(out.ends_with('\n'));
    let lines: Vec<&str> = out.lines().collect();
    assert!(lines[0].starts_with("PRESET"));
    assert!(lines[1].starts_with("SRP"));
    assert!(lines[2].starts_with("ADP"));
    assert!(lines[3].starts_with("X"));
}
