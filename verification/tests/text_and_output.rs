use urd_compiler::ast::{Choice, ContentNode, ExitDeclaration, Prose};
use urd_compiler::diagnostics::{DiagnosticCollector, Severity};
use urd_compiler::diff::{category_order, extract_urd430_target, extract_urd432_target, jump_target_string, kind_order, DiffError};
use urd_compiler::emit::{format_advance, strip_at};
use urd_compiler::facts::JumpTarget;
use urd_compiler::frontmatter::{check_yaml_rejections, parse_flow_list, split_top_level};
use urd_compiler::parse::Parser;
use urd_compiler::span::Span;
use urd_compiler::text::{is_alphanumeric, is_float_literal, parse_i64};
use urd_compiler::validate::check_nesting;

fn chars(s: &str) -> Vec<char> {
    s.chars().collect()
}

fn strings(v: Vec<Vec<char>>) -> Vec<String> {
    v.into_iter().map(|c| c.into_iter().collect()).collect()
}

#[test]
fn integers_parse_like_i64_from_str() {
    assert_eq!(parse_i64("42"), Some(42));
    assert_eq!(parse_i64("-7"), Some(-7));
    assert_eq!(parse_i64("+3"), Some(3));
    assert_eq!(parse_i64("9223372036854775807"), Some(i64::MAX));
    assert_eq!(parse_i64("-9223372036854775808"), Some(i64::MIN));
    assert_eq!(parse_i64("9223372036854775808"), None);
    assert_eq!(parse_i64(""), None);
    assert_eq!(parse_i64("-"), None);
    assert_eq!(parse_i64("1.5"), None);
}

#[test]
fn float_literals() {
    assert!(is_float_literal("1.5"));
    assert!(is_float_literal("-2e10"));
    assert!(is_float_literal("inf"));
    assert!(is_float_literal("NaN"));
    assert!(!is_float_literal("abc"));
    assert!(!is_float_literal(""));
}

#[test]
fn unicode_alphanumeric_wrapper() {
    assert!(is_alphanumeric('a'));
    assert!(is_alphanumeric('7'));
    assert!(is_alphanumeric('é'));
    assert!(!is_alphanumeric('_'));
    assert!(!is_alphanumeric(' '));
}

#[test]
fn jump_targets_and_report_orders() {
    assert_eq!(jump_target_string(&JumpTarget::Section("tavern/topics".to_string())), "tavern/topics");
    assert_eq!(jump_target_string(&JumpTarget::Exit("hall/north".to_string())), "exit:hall/north");
    assert_eq!(jump_target_string(&JumpTarget::End), "__end__");
    assert_eq!(category_order("entity"), 0);
    assert_eq!(category_order("reachability"), 7);
    assert_eq!(category_order("unknown"), 8);
    assert_eq!(kind_order("added"), 0);
    assert_eq!(kind_order("removed"), 1);
    assert_eq!(kind_order("exit_target_changed"), 2);
}

#[test]
fn diagnostic_targets_are_extracted() {
    assert_eq!(
        extract_urd430_target("Location 'cellar' is unreachable from the start location."),
        Some("cellar".to_string())
    );
    assert_eq!(extract_urd430_target("Nothing here"), None);
    assert_eq!(extract_urd430_target("Location 'unterminated"), None);
    assert_eq!(
        extract_urd432_target("Choice in section 'tavern/topics' can never be offered."),
        Some("tavern/topics".to_string())
    );
}

#[test]
fn diff_error_messages() {
    assert_eq!(DiffError::UnsupportedSnapshotVersion.message(), "Unsupported snapshot version (expected \"1\")");
    assert_eq!(DiffError::ParseError("bad json".to_string()).message(), "Snapshot parse error: bad json");
}

#[test]
fn advance_modes_are_normalised() {
    assert_eq!(format_advance("on_condition @door.state == open"), "on_condition @door.state==open");
    assert_eq!(format_advance("on_condition a >= 3 and b < 2"), "on_condition a>=3 and b<2");
    assert_eq!(format_advance("on_action"), "on_action");
    assert_eq!(strip_at("@guard"), "guard");
    assert_eq!(strip_at("guard"), "guard");
    assert_eq!(strip_at("@@x"), "@x");
}

#[test]
fn top_level_splitting_respects_brackets_and_quotes() {
    assert_eq!(strings(split_top_level(&chars("a, [b, c], 'd, e', f"), ',')), vec!["a", " [b, c]", " 'd, e'", " f"]);
    assert_eq!(strings(split_top_level(&chars("a,,b,"), ',')), vec!["a", "", "b"]);
    assert_eq!(strings(split_top_level(&chars(""), ',')), Vec::<String>::new());
    assert_eq!(parse_flow_list(&chars("  [a, b , , c]  ")), vec!["a", "b", "c"]);
    assert_eq!(parse_flow_list(&chars("x")), vec!["x"]);
}

#[test]
fn yaml_constructs_are_rejected() {
    let parser = Parser::new("world.urd.md", "line one\nline two");
    let cases = [
        ("key: &anchor value", Some("URD105")),
        ("a && b", None),
        ("*alias", Some("URD106")),
        ("* choice", None),
        ("<<: *base", Some("URD107")),
        ("tag: !!str x", Some("URD108")),
        ("- item", Some("URD109")),
        ("-", Some("URD109")),
        ("name: Guard", None),
    ];
    for (text, expected) in cases {
        let mut d = DiagnosticCollector::new();
        let rejected = check_yaml_rejections(&parser, 1, &chars(text), &mut d);
        assert_eq!(rejected, expected.is_some(), "{}", text);
        match expected {
            Some(code) => {
                assert_eq!(d.len(), 1);
                assert_eq!(d.all()[0].code, code);
                assert_eq!(d.all()[0].span.start_line, 2);
                assert_eq!(d.all()[0].severity, Severity::Error);
            }
            None => assert!(d.is_empty()),
        }
    }
}

fn choice(indent: usize, content: Vec<ContentNode>) -> ContentNode {
    ContentNode::Choice(Choice {
        sticky: false,
        label: "c".to_string(),
        target: None,
        target_type: None,
        content,
        indent_level: indent,
        annotation: None,
        span: Span::new("f.urd.md".to_string(), indent as u32 + 1, 1, indent as u32 + 1, 5),
    })
}

#[test]
fn nesting_depth_is_reported() {
    let tree = choice(2, vec![choice(3, vec![choice(4, vec![])])]);
    let mut d = DiagnosticCollector::new();
    check_nesting(&tree, &mut d);
    assert_eq!(d.len(), 2);
    assert_eq!(d.all()[0].severity, Severity::Warning);
    assert_eq!(d.all()[0].message, "Nesting depth 3 at line 4.");
    assert_eq!(d.all()[1].severity, Severity::Error);
    assert_eq!(d.all()[1].message, "Nesting depth 4 at line 5.");
    let exit = ContentNode::ExitDeclaration(ExitDeclaration {
        direction: "north".to_string(),
        destination: "Hall".to_string(),
        children: vec![choice(5, vec![])],
        annotation: None,
        span: Span::synthetic(),
    });
    let mut d2 = DiagnosticCollector::new();
    check_nesting(&exit, &mut d2);
    assert_eq!(d2.len(), 1);
    let prose = ContentNode::Prose(Prose { text: "x".to_string(), span: Span::synthetic() });
    let mut d3 = DiagnosticCollector::new();
    check_nesting(&prose, &mut d3);
    assert!(d3.is_empty());
}
