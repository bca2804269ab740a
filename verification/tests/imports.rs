use urd_compiler::compile::split_entry_path;
use urd_compiler::ast::FrontmatterValue;
use urd_compiler::parse::parse;
use urd_compiler::diagnostics::{DiagnosticCollector, Severity};
use urd_compiler::import::{
    apply_canonical_casing, check_file_count, check_file_stems, check_source_size, plan_import, report_read_failure, FileReadError,
    ImportStep,
};
use urd_compiler::span::Span;

fn span() -> Span {
    Span::new("content/tavern.urd.md".to_string(), 2, 1, 2, 30)
}

fn strings(v: &[&str]) -> Vec<String> {
    v.iter().map(|s| s.to_string()).collect()
}

#[test]
fn plan_reads_new_files_from_entry_dir() {
    let mut d = DiagnosticCollector::new();
    let step = plan_import("content/tavern.urd.md", "  .\\hall.urd.md ", &span(), "game/", &strings(&["content/tavern.urd.md"]), &[], &mut d);
    match step {
        ImportStep::Read { normalised, fs_path } => {
            assert_eq!(normalised, "content/hall.urd.md");
            assert_eq!(fs_path, "game/content/hall.urd.md");
        }
        _ => panic!("expected a read"),
    }
    assert!(d.is_empty());
}

#[test]
fn plan_links_loaded_files() {
    let mut d = DiagnosticCollector::new();
    let step = plan_import("a.urd.md", "b.urd.md", &span(), "", &strings(&["a.urd.md"]), &strings(&["a.urd.md", "b.urd.md"]), &mut d);
    assert!(matches!(step, ImportStep::Link(ref p) if p == "b.urd.md"));
    assert!(d.is_empty());
}

#[test]
fn plan_refuses_self_cycles_and_depth() {
    let mut d = DiagnosticCollector::new();
    assert!(matches!(plan_import("a.urd.md", "a.urd.md", &span(), "", &[], &[], &mut d), ImportStep::Stop));
    assert_eq!(d.all()[0].code, "URD207");
    assert_eq!(d.all()[0].message, "File imports itself: 'a.urd.md'.");

    let stack = strings(&["a.urd.md", "b.urd.md", "c.urd.md"]);
    assert!(matches!(plan_import("c.urd.md", "b.urd.md", &span(), "", &stack, &[], &mut d), ImportStep::Stop));
    assert_eq!(d.all()[1].code, "URD202");
    assert_eq!(d.all()[1].message, "Circular import detected: b.urd.md \u{2192} c.urd.md \u{2192} b.urd.md.");

    let deep: Vec<String> = (0..64).map(|i| format!("f{}.urd.md", i)).collect();
    assert!(matches!(plan_import("f63.urd.md", "new.urd.md", &span(), "", &deep, &[], &mut d), ImportStep::Stop));
    assert_eq!(d.all()[2].code, "URD204");

    assert!(matches!(plan_import("a.urd.md", "../x.urd.md", &span(), "", &[], &[], &mut d), ImportStep::Stop));
    assert_eq!(d.all()[3].code, "URD208");
    assert!(matches!(plan_import("a.urd.md", "x.txt", &span(), "", &[], &[], &mut d), ImportStep::Stop));
    assert_eq!(d.all()[4].code, "URD210");
    assert_eq!(d.len(), 5);
}

#[test]
fn read_failures_are_reported() {
    let mut d = DiagnosticCollector::new();
    report_read_failure("./x.urd.md", "content/x.urd.md", "content/tavern.urd.md", &span(), &FileReadError::NotFound, &mut d);
    assert_eq!(d.all()[0].code, "URD201");
    assert_eq!(d.all()[0].message, "Imported file not found: './x.urd.md' (imported from content/tavern.urd.md:2).");
    report_read_failure("w", "n.urd.md", "i", &span(), &FileReadError::PermissionDenied, &mut d);
    assert_eq!(d.all()[1].message, "Cannot read file 'n.urd.md': permission denied.");
    report_read_failure("w", "n.urd.md", "i", &span(), &FileReadError::InvalidUtf8, &mut d);
    assert_eq!(d.all()[2].code, "URD212");
    report_read_failure("w", "n.urd.md", "i", &span(), &FileReadError::IoError("disk gone".to_string()), &mut d);
    assert_eq!(d.all()[3].message, "I/O error reading 'n.urd.md': disk gone.");
    report_read_failure("w", "n.urd.md", "i", &span(), &FileReadError::TooLarge(2000000), &mut d);
    assert_eq!(d.all()[4].message, "File exceeds 1 MB size limit: n.urd.md is 2000000 bytes.");
}

#[test]
fn canonical_casing_replaces_the_file_name() {
    let mut d = DiagnosticCollector::new();
    let (p, loaded) = apply_canonical_casing("./Hall.urd.md", "rooms/Hall.urd.md", Some("hall.urd.md"), &span(), &strings(&["rooms/hall.urd.md"]), &mut d);
    assert_eq!(p, "rooms/hall.urd.md");
    assert!(loaded);
    assert_eq!(d.all()[0].severity, Severity::Warning);
    assert_eq!(d.all()[0].code, "URD206");
    let (q, loaded2) = apply_canonical_casing("x", "rooms/x.urd.md", None, &span(), &[], &mut d);
    assert_eq!(q, "rooms/x.urd.md");
    assert!(!loaded2);
    assert_eq!(d.len(), 1);
}

#[test]
fn size_and_count_limits() {
    let mut d = DiagnosticCollector::new();
    assert!(check_source_size("a.urd.md", "small", &span(), &mut d));
    let big = "x".repeat(1_048_577);
    assert!(!check_source_size("a.urd.md", &big, &span(), &mut d));
    assert_eq!(d.all()[0].message, "File exceeds 1 MB size limit: a.urd.md is 1048577 bytes.");
    check_file_count(256, &mut d);
    assert_eq!(d.len(), 1);
    check_file_count(300, &mut d);
    assert_eq!(d.all()[1].message, "Compilation unit exceeds 256 files (300 discovered).");
}

#[test]
fn whole_file_with_frontmatter() {
    let src = "\u{FEFF}---\nimport: ./world.urd.md\n---\n# Hall\nQuiet.\n";
    let mut d = DiagnosticCollector::new();
    let p = parse("hall.urd.md", src, &mut d).unwrap();
    let fm = p.frontmatter.as_ref().expect("frontmatter");
    assert_eq!(fm.entries.len(), 1);
    assert_eq!(fm.entries[0].key, "import");
    match &fm.entries[0].value {
        FrontmatterValue::ImportDecl(d) => assert_eq!(d.path, "./world.urd.md"),
        other => panic!("unexpected {:?}", other),
    }
    assert_eq!((fm.span.start_line, fm.span.end_line), (2, 2));
    assert_eq!(p.content.len(), 2);
    assert!(!p.slice_fault);
    assert_eq!((p.span.start_line, p.span.end_line), (1, 6));
    assert!(d.is_empty());
}

#[test]
fn unclosed_frontmatter_and_oversized_files() {
    let mut d = DiagnosticCollector::new();
    assert!(parse("a.urd.md", "---\nkey: v\n", &mut d).is_none());
    assert_eq!(d.all()[0].code, "URD101");
    assert_eq!(d.all()[0].message, "Unclosed frontmatter block. Expected closing '---'.");
    let big = "y".repeat(1_048_577);
    assert!(parse("b.urd.md", &big, &mut d).is_none());
    assert_eq!(d.all()[1].code, "URD103");
    assert_eq!((d.all()[1].span.start_line, d.all()[1].span.end_col), (1, 1));
}

#[test]
fn file_without_frontmatter() {
    let mut d = DiagnosticCollector::new();
    let p = parse("c.urd.md", "Just prose.", &mut d).unwrap();
    assert!(p.frontmatter.is_none());
    assert_eq!(p.content.len(), 1);
}

#[test]
fn entry_paths_split_into_directory_and_name() {
    assert_eq!(split_entry_path("game\\content\\tavern.urd.md"), ("game/content/".to_string(), "tavern.urd.md".to_string()));
    assert_eq!(split_entry_path("tavern.urd.md"), (String::new(), "tavern.urd.md".to_string()));
}

#[test]
fn stem_collisions_are_reported_in_order() {
    let paths = strings(&["b/tavern.urd.md", "hall.urd.md", "a/tavern.urd.md", "c/hall.urd.md", "tavern.urd.md", "solo.urd.md"]);
    let mut d = DiagnosticCollector::new();
    check_file_stems(&paths, &mut d);
    let msgs: Vec<&str> = d.all().iter().map(|x| x.message.as_str()).collect();
    assert_eq!(
        msgs,
        vec![
            "File stem collision: 'hall' is produced by both c/hall.urd.md and hall.urd.md. Rename one file to avoid section ID conflicts.",
            "File stem collision: 'tavern' is produced by both a/tavern.urd.md and b/tavern.urd.md. Rename one file to avoid section ID conflicts.",
            "File stem collision: 'tavern' is produced by both a/tavern.urd.md and tavern.urd.md. Rename one file to avoid section ID conflicts.",
            "File stem collision: 'tavern' is produced by both b/tavern.urd.md and tavern.urd.md. Rename one file to avoid section ID conflicts.",
        ]
    );
    assert!(d.all().iter().all(|x| x.code == "URD203" && x.span.start_line == 0));
}
