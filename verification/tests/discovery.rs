use urd_compiler::ast::FileAst;
use urd_compiler::diagnostics::DiagnosticCollector;
use urd_compiler::graph::{topological_order, DependencyGraph, FileNode};
use urd_compiler::import::{load_file, resolve_imports_with_reader, FileReadError, FileReader, LoadOutcome};
use urd_compiler::parse::parse;

struct MemReader {
    files: Vec<(String, String)>,
}

impl FileReader for MemReader {
    fn read_file(&self, fs_path: &str) -> Result<String, FileReadError> {
        for (p, src) in &self.files {
            if p == fs_path {
                return Ok(src.clone());
            }
        }
        Err(FileReadError::NotFound)
    }

    fn canonical_filename(&self, _dir: &str, _filename: &str) -> Option<String> {
        None
    }
}

fn parsed(path: &str, src: &str) -> FileAst {
    let mut d = DiagnosticCollector::new();
    parse(path, src, &mut d).expect("parses")
}

fn node(path: &str, imports: &[&str]) -> FileNode {
    FileNode {
        path: path.to_string(),
        ast: parsed(path, "# Hall\n"),
        imports: imports.iter().map(|s| s.to_string()).collect(),
    }
}

fn codes(d: &DiagnosticCollector) -> Vec<String> {
    d.all().iter().map(|x| x.code.clone()).collect()
}

#[test]
fn order_puts_dependencies_first_and_entry_last() {
    let g = DependencyGraph {
        nodes: vec![
            node("main.urd.md", &["b.urd.md", "a.urd.md"]),
            node("b.urd.md", &["c.urd.md"]),
            node("a.urd.md", &[]),
            node("c.urd.md", &[]),
        ],
        edges: vec![],
        entry_path: Some("main.urd.md".to_string()),
    };
    assert_eq!(topological_order(&g), vec!["a.urd.md", "c.urd.md", "b.urd.md", "main.urd.md"]);
}

#[test]
fn order_without_entry_is_sorted() {
    let g = DependencyGraph {
        nodes: vec![node("z.urd.md", &[]), node("m.urd.md", &["z.urd.md"]), node("a.urd.md", &[])],
        edges: vec![],
        entry_path: None,
    };
    assert_eq!(topological_order(&g), vec!["a.urd.md", "m.urd.md", "z.urd.md"]);
}

#[test]
fn order_of_single_file_is_that_file() {
    let g = DependencyGraph {
        nodes: vec![node("main.urd.md", &[])],
        edges: vec![],
        entry_path: Some("main.urd.md".to_string()),
    };
    assert_eq!(topological_order(&g), vec!["main.urd.md"]);
}

#[test]
fn order_leaves_out_files_on_a_cycle() {
    let g = DependencyGraph {
        nodes: vec![
            node("main.urd.md", &["x.urd.md"]),
            node("x.urd.md", &["y.urd.md"]),
            node("y.urd.md", &["x.urd.md"]),
            node("a.urd.md", &[]),
        ],
        edges: vec![],
        entry_path: Some("main.urd.md".to_string()),
    };
    assert_eq!(topological_order(&g), vec!["a.urd.md", "main.urd.md"]);
}

#[test]
fn resolve_discovers_imported_files() {
    let reader = MemReader {
        files: vec![
            ("game/hall.urd.md".to_string(), "---\nimport: ./cellar.urd.md\n---\n# Hall\n".to_string()),
            ("game/cellar.urd.md".to_string(), "# Cellar\n".to_string()),
        ],
    };
    let entry = parsed("tavern.urd.md", "---\nimport: ./hall.urd.md\n---\n# Tavern\n");
    let mut d = DiagnosticCollector::new();
    let cu = resolve_imports_with_reader(entry, "game/", &mut d, &reader);
    assert!(d.is_empty(), "{:?}", codes(&d));
    let paths: Vec<String> = cu.graph.nodes.iter().map(|n| n.path.clone()).collect();
    assert_eq!(paths, vec!["tavern.urd.md", "hall.urd.md", "cellar.urd.md"]);
    assert_eq!(cu.graph.entry_path, Some("tavern.urd.md".to_string()));
    assert_eq!(cu.ordered_asts, vec!["cellar.urd.md", "hall.urd.md", "tavern.urd.md"]);
}

#[test]
fn resolve_reports_a_missing_file() {
    let reader = MemReader { files: vec![] };
    let entry = parsed("tavern.urd.md", "---\nimport: ./gone.urd.md\n---\n# Tavern\n");
    let mut d = DiagnosticCollector::new();
    let cu = resolve_imports_with_reader(entry, "", &mut d, &reader);
    assert_eq!(codes(&d), vec!["URD201"]);
    assert_eq!(cu.graph.nodes.len(), 1);
    assert_eq!(cu.ordered_asts, vec!["tavern.urd.md"]);
}

#[test]
fn resolve_reports_a_cycle() {
    let reader = MemReader {
        files: vec![
            ("a.urd.md".to_string(), "---\nimport: ./b.urd.md\n---\n# A\n".to_string()),
            ("b.urd.md".to_string(), "---\nimport: ./a.urd.md\n---\n# B\n".to_string()),
        ],
    };
    let entry = parsed("main.urd.md", "---\nimport: ./a.urd.md\n---\n# Main\n");
    let mut d = DiagnosticCollector::new();
    let cu = resolve_imports_with_reader(entry, "", &mut d, &reader);
    assert_eq!(codes(&d), vec!["URD202"]);
    assert_eq!(cu.graph.nodes.len(), 3);
}

#[test]
fn dependencies_come_first_on_a_diamond() {
    let g = DependencyGraph {
        nodes: vec![
            node("main.urd.md", &["left.urd.md", "right.urd.md"]),
            node("left.urd.md", &["base.urd.md"]),
            node("right.urd.md", &["base.urd.md"]),
            node("base.urd.md", &[]),
        ],
        edges: vec![],
        entry_path: Some("main.urd.md".to_string()),
    };
    let order = topological_order(&g);
    assert_eq!(order, vec!["base.urd.md", "left.urd.md", "right.urd.md", "main.urd.md"]);
    for (k, p) in order.iter().enumerate() {
        assert!(!order[..k].contains(p));
    }
}

#[test]
fn phases_run_up_to_emit() {
    let reader = MemReader {
        files: vec![("game/hall.urd.md".to_string(), "# Hall\n".to_string())],
    };
    let (result, linked) = urd_compiler::compile::compile_phases(
        "game\\tavern.urd.md",
        "---\nimport: ./hall.urd.md\n---\n# Tavern\n-> west: Hall\n",
        &reader,
    );
    assert!(!result.success);
    assert!(result.world.is_none());
    assert!(!result.diagnostics.has_errors(), "{:?}", codes(&result.diagnostics));
    let linked = linked.expect("linked");
    let paths: Vec<String> = linked.files.iter().map(|f| f.path.clone()).collect();
    assert_eq!(paths, vec!["hall.urd.md", "tavern.urd.md"]);
    let fs = result.fact_set.expect("facts");
    assert_eq!(fs.exits().len(), 1);
    assert_eq!(fs.exits()[0].to_location, "hall");
    assert!(result.property_index.is_some());
}

#[test]
fn phases_stop_when_parse_fails() {
    let reader = MemReader { files: vec![] };
    let (result, linked) = urd_compiler::compile::compile_phases("tavern.urd.md", "---\ntypes:\n", &reader);
    assert!(linked.is_none());
    assert!(result.fact_set.is_none());
    assert_eq!(codes(&result.diagnostics), vec!["URD101"]);
}

#[test]
fn phases_stop_when_an_import_is_missing() {
    let reader = MemReader { files: vec![] };
    let (result, linked) =
        urd_compiler::compile::compile_phases("tavern.urd.md", "---\nimport: ./gone.urd.md\n---\n# Tavern\n", &reader);
    assert!(linked.is_none());
    assert!(result.property_index.is_none());
    assert_eq!(codes(&result.diagnostics), vec!["URD201"]);
}

#[test]
fn load_file_parses_new_text() {
    let span = urd_compiler::span::Span::new("main.urd.md".to_string(), 2, 1, 2, 20);
    let mut d = DiagnosticCollector::new();
    match load_file("./hall.urd.md", "hall.urd.md", None, "# Hall\n", &span, &[], &mut d) {
        LoadOutcome::Loaded(path, ast) => {
            assert_eq!(path, "hall.urd.md");
            assert_eq!(ast.path, "hall.urd.md");
        }
        _ => panic!("expected a loaded file"),
    }
    assert!(d.is_empty());
}

#[test]
fn load_file_links_under_discovered_casing() {
    let span = urd_compiler::span::Span::new("main.urd.md".to_string(), 2, 1, 2, 20);
    let mut d = DiagnosticCollector::new();
    let visited = vec!["rooms/hall.urd.md".to_string()];
    match load_file("./rooms/HALL.urd.md", "rooms/HALL.urd.md", Some("hall.urd.md"), "# Hall\n", &span, &visited, &mut d) {
        LoadOutcome::Linked(path) => assert_eq!(path, "rooms/hall.urd.md"),
        _ => panic!("expected a link"),
    }
    assert_eq!(codes(&d), vec!["URD206"]);
}

#[test]
fn load_file_rejects_unclosed_frontmatter() {
    let span = urd_compiler::span::Span::new("main.urd.md".to_string(), 2, 1, 2, 20);
    let mut d = DiagnosticCollector::new();
    assert!(matches!(load_file("./a.urd.md", "a.urd.md", None, "---\ntypes:\n", &span, &[], &mut d), LoadOutcome::Rejected));
    assert_eq!(codes(&d), vec!["URD101"]);
}

#[test]
fn phases_run_for_a_clean_entry_without_imports() {
    let reader = MemReader { files: vec![] };
    let (result, linked) = urd_compiler::compile::compile_phases("tavern.urd.md", "# Tavern\n\nA quiet room.\n", &reader);
    assert!(linked.is_some());
    assert!(result.fact_set.is_some());
    assert!(!result.diagnostics.has_errors(), "{:?}", codes(&result.diagnostics));
}
