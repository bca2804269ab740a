use urd_compiler::analyze::analyze;
use urd_compiler::diagnostics::{DiagnosticCollector, Severity};
use urd_compiler::facts::{
    make_exit_id, split_exit_id, ChoiceFact, CompareOp, ExitEdge, FactSetBuilder, FactSite, LiteralKind,
    PropertyDependencyIndex, PropertyKey, PropertyRead, PropertyWrite, WriteOp,
};
use urd_compiler::span::Span;

fn span(line: u32) -> Span {
    Span::new("tavern.urd.md".to_string(), line, 1, line, 10)
}

fn read(ty: &str, prop: &str, op: CompareOp, value: &str, kind: LiteralKind, line: u32) -> PropertyRead {
    PropertyRead {
        site: FactSite::Choice("tavern/ask".to_string()),
        entity_type: ty.to_string(),
        property: prop.to_string(),
        operator: op,
        value_literal: value.to_string(),
        value_kind: kind,
        span: span(line),
    }
}

fn write(ty: &str, prop: &str, op: WriteOp, value: &str, kind: Option<LiteralKind>, line: u32) -> PropertyWrite {
    PropertyWrite {
        site: FactSite::Choice("tavern/ask".to_string()),
        entity_type: ty.to_string(),
        property: prop.to_string(),
        operator: op,
        value_expr: value.to_string(),
        value_kind: kind,
        span: span(line),
    }
}

#[test]
fn exit_ids_round_trip() {
    let id = make_exit_id("village-square", "north");
    assert_eq!(id, "village-square/north");
    assert_eq!(split_exit_id(&id), Some(("village-square", "north")));
    assert_eq!(split_exit_id("noslash"), None);
    assert_eq!(split_exit_id("a/b/c"), Some(("a", "b/c")));
}

#[test]
fn operator_tokens() {
    assert_eq!(CompareOp::from_token("<="), Some(CompareOp::Le));
    assert_eq!(CompareOp::from_token("=>"), None);
    assert_eq!(WriteOp::from_token("-"), Some(WriteOp::Sub));
    assert_eq!(WriteOp::from_token("*"), None);
}

#[test]
fn fact_set_lookups() {
    let mut b = FactSetBuilder::new();
    let r0 = b.push_read(read("Door", "locked", CompareOp::Eq, "true", LiteralKind::Bool, 4));
    let w0 = b.push_write(write("Door", "locked", WriteOp::Assign, "false", Some(LiteralKind::Bool), 5));
    assert_eq!((r0, w0), (0, 0));
    b.push_exit(ExitEdge {
        from_location: "hall".to_string(),
        to_location: "yard".to_string(),
        exit_name: "south".to_string(),
        is_conditional: false,
        guard_reads: Vec::new(),
        span: span(7),
    });
    b.set_exit_guard_reads("hall", "south", vec![0]);
    b.push_choice(ChoiceFact {
        section: "tavern/topics".to_string(),
        choice_id: "tavern/ask".to_string(),
        label: "Ask".to_string(),
        sticky: false,
        condition_reads: vec![0],
        effect_writes: vec![0],
        span: span(3),
    });
    let fs = b.finish();
    assert_eq!(fs.reads().len(), 1);
    let exit = fs.exit_by_id("hall/south").unwrap();
    assert_eq!(exit.guard_reads, vec![0]);
    assert!(fs.exit_by_id("hall/north").is_none());
    assert_eq!(fs.exit_by_location_and_name("hall", "south").unwrap().to_location, "yard");
    assert_eq!(fs.choice_by_id("tavern/ask").unwrap().label, "Ask");
    let key = PropertyKey { entity_type: "Door".to_string(), property: "locked".to_string() };
    assert_eq!(fs.reads_by_key(&key).len(), 1);
    assert_eq!(fs.writes_by_key(&key).len(), 1);
    assert_eq!(fs.read_indices_for_site(&FactSite::Choice("tavern/ask".to_string())), &[0usize][..]);
    assert_eq!(fs.read_indices_for_site(&FactSite::Exit("hall/south".to_string())), &[0usize][..]);
    assert!(fs.read_indices_for_site(&FactSite::Rule("none".to_string())).is_empty());
}

#[test]
fn dependency_index_groups_by_key() {
    let mut b = FactSetBuilder::new();
    b.push_read(read("Door", "locked", CompareOp::Eq, "true", LiteralKind::Bool, 1));
    b.push_read(read("Guard", "trust", CompareOp::Gt, "5", LiteralKind::Int, 2));
    b.push_read(read("Door", "locked", CompareOp::Ne, "false", LiteralKind::Bool, 3));
    b.push_write(write("Guard", "trust", WriteOp::Add, "1", Some(LiteralKind::Int), 4));
    let fs = b.finish();
    let idx = PropertyDependencyIndex::build(&fs);
    let door = PropertyKey { entity_type: "Door".to_string(), property: "locked".to_string() };
    let guard = PropertyKey { entity_type: "Guard".to_string(), property: "trust".to_string() };
    assert_eq!(idx.reads_of(&door), &[0usize, 2][..]);
    assert_eq!(idx.writes_of(&door), &[] as &[usize]);
    assert_eq!(idx.writes_of(&guard), &[0usize][..]);
    let read_props: Vec<String> = idx.read_properties().iter().map(|k| format!("{}.{}", k.entity_type, k.property)).collect();
    assert_eq!(read_props, vec!["Door.locked", "Guard.trust"]);
    assert_eq!(idx.written_properties().len(), 1);
}

#[test]
fn analysis_reports_orphaned_properties() {
    let mut b = FactSetBuilder::new();
    b.push_read(read("Door", "locked", CompareOp::Eq, "true", LiteralKind::Bool, 4));
    b.push_write(write("Door", "open", WriteOp::Assign, "true", Some(LiteralKind::Bool), 9));
    let fs = b.finish();
    let out = analyze(&fs);
    assert_eq!(out.len(), 2);
    assert_eq!(out[0].code, "URD601");
    assert_eq!(out[0].severity, Severity::Warning);
    assert_eq!(
        out[0].message,
        "Property 'Door.locked' is read in conditions but never written by any effect. It will always reflect its default or initial value."
    );
    assert_eq!(out[0].span.start_line, 4);
    assert_eq!(out[1].code, "URD602");
    assert_eq!(
        out[1].message,
        "Property 'Door.open' is written by effects but never read in any condition. The writes have no observable effect on game logic."
    );
}

#[test]
fn analysis_reports_untested_variant_and_unreachable_threshold() {
    let mut b = FactSetBuilder::new();
    b.push_read(read("Guard", "mood", CompareOp::Eq, "calm", LiteralKind::Ident, 1));
    b.push_write(write("Guard", "mood", WriteOp::Assign, "angry", Some(LiteralKind::Ident), 2));
    b.push_read(read("Guard", "trust", CompareOp::Gt, "50", LiteralKind::Int, 3));
    b.push_write(write("Guard", "trust", WriteOp::Assign, "10", Some(LiteralKind::Int), 4));
    let fs = b.finish();
    let out = analyze(&fs);
    let codes: Vec<&str> = out.iter().map(|d| d.code.as_str()).collect();
    assert_eq!(codes, vec!["URD603", "URD604"]);
    assert_eq!(
        out[0].message,
        "Effect sets 'Guard.mood' to 'angry' but no condition anywhere tests for this variant. The write may have no observable effect."
    );
    assert_eq!(
        out[1].message,
        "Condition compares 'Guard.trust' against 50 but no effect can produce a value that satisfies '> 50'. The condition may never be true."
    );
}

#[test]
fn sorted_diagnostics_follow_file_line_column_severity() {
    let mut d = DiagnosticCollector::new();
    d.warning("URD001", "w b".to_string(), Span::new("b.urd.md".to_string(), 1, 1, 1, 2));
    d.error("URD002", "e a5".to_string(), Span::new("a.urd.md".to_string(), 5, 1, 5, 2));
    d.warning("URD003", "w a2".to_string(), Span::new("a.urd.md".to_string(), 2, 3, 2, 4));
    d.error("URD004", "e a2".to_string(), Span::new("a.urd.md".to_string(), 2, 3, 2, 4));
    d.info("URD005", "i a2".to_string(), Span::new("a.urd.md".to_string(), 2, 3, 2, 4));
    d.error("URD006", "e2 a2".to_string(), Span::new("a.urd.md".to_string(), 2, 3, 2, 4));
    let order: Vec<&str> = d.sorted().iter().map(|x| x.code.as_str()).collect();
    assert_eq!(order, vec!["URD004", "URD006", "URD003", "URD005", "URD002", "URD001"]);
    assert_eq!(d.len(), 6);
    assert!(d.has_errors());
    let mut w = DiagnosticCollector::new();
    w.warning("URD001", "x".to_string(), Span::synthetic());
    assert!(!w.has_errors());
}
