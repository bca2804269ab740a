use urd_compiler::ast::{Frontmatter, FrontmatterValue, Scalar};
use urd_compiler::diagnostics::DiagnosticCollector;
use urd_compiler::parse::parse;

fn frontmatter(body: &str) -> (Frontmatter, DiagnosticCollector) {
    let src = format!("---\n{}\n---\n# Start\n", body);
    let mut d = DiagnosticCollector::new();
    let ast = parse("world.urd.md", &src, &mut d).expect("parses");
    assert!(!ast.slice_fault);
    (ast.frontmatter.expect("has frontmatter"), d)
}

fn codes(d: &DiagnosticCollector) -> Vec<String> {
    d.all().iter().map(|x| x.code.clone()).collect()
}

#[test]
fn world_block_fields_are_typed_scalars() {
    let (fm, d) = frontmatter("world:\n  name: Test\n  start: Tavern\n  version: 2\n  ratio: 1.5\n  open: true");
    assert!(d.is_empty(), "{:?}", d.all());
    assert_eq!(fm.entries.len(), 1);
    match &fm.entries[0].value {
        FrontmatterValue::WorldBlock(w) => {
            assert_eq!(w.fields.len(), 5);
            assert!(matches!(&w.fields[0], (k, Scalar::String(v)) if k == "name" && v == "Test"));
            assert!(matches!(&w.fields[1], (k, Scalar::String(v)) if k == "start" && v == "Tavern"));
            assert!(matches!(&w.fields[2], (k, Scalar::Integer(2)) if k == "version"));
            assert!(matches!(&w.fields[3], (k, Scalar::Number(t)) if k == "ratio" && t == "1.5"));
            assert!(matches!(&w.fields[4], (k, Scalar::Boolean(true)) if k == "open"));
            assert_eq!((w.span.start_line, w.span.end_line), (2, 7));
        }
        other => panic!("unexpected {:?}", other),
    }
}

#[test]
fn types_block_with_traits_properties_and_signatures() {
    let body = "types:\n  Barkeep [interactable, portable]:\n    mood: enum(happy, sad) = happy\n    ~secret: string\n    trust: integer = 0\n    items: list(ref(Item))\n    owner: ref( Person )";
    let (fm, d) = frontmatter(body);
    assert!(d.is_empty(), "{:?}", d.all());
    let entries = match &fm.entries[0].value {
        FrontmatterValue::Mapping(es) => es,
        other => panic!("unexpected {:?}", other),
    };
    assert_eq!(entries.len(), 1);
    assert_eq!(entries[0].key, "Barkeep");
    let td = match &entries[0].value {
        FrontmatterValue::TypeDef(t) => t,
        other => panic!("unexpected {:?}", other),
    };
    assert_eq!(td.traits, vec!["interactable".to_string(), "portable".to_string()]);
    assert_eq!(td.properties.len(), 5);
    let mood = &td.properties[0];
    assert_eq!(mood.property_type, "enum");
    assert_eq!(mood.values, Some(vec!["happy".to_string(), "sad".to_string()]));
    assert!(matches!(&mood.default, Some(Scalar::String(s)) if s == "happy"));
    assert_eq!(td.properties[1].name, "secret");
    assert_eq!(td.properties[1].visibility.as_deref(), Some("hidden"));
    assert!(matches!(&td.properties[2].default, Some(Scalar::Integer(0))));
    assert_eq!(td.properties[3].property_type, "list");
    assert_eq!(td.properties[3].element_type.as_deref(), Some("ref"));
    assert_eq!(td.properties[3].element_ref_type.as_deref(), Some("Item"));
    assert_eq!(td.properties[4].ref_type.as_deref(), Some("Person"));
    assert_eq!((td.span.start_line, td.span.end_line), (3, 8));
}

#[test]
fn lower_case_names_are_not_type_definitions() {
    let (fm, _) = frontmatter("types:\n  barkeep:\n    mood: string");
    match &fm.entries[0].value {
        FrontmatterValue::Mapping(es) => assert!(es.is_empty()),
        other => panic!("unexpected {:?}", other),
    }
}

#[test]
fn entities_block_with_overrides() {
    let (fm, d) = frontmatter("entities:\n  @arina: Barkeep { mood: sad, trust: 3 }\n  @chest: Box");
    assert!(d.is_empty(), "{:?}", d.all());
    let entries = match &fm.entries[0].value {
        FrontmatterValue::Mapping(es) => es,
        other => panic!("unexpected {:?}", other),
    };
    assert_eq!(entries.len(), 2);
    match &entries[0].value {
        FrontmatterValue::EntityDecl(e) => {
            assert_eq!(e.id, "arina");
            assert_eq!(e.entity_type, "Barkeep");
            assert_eq!(e.property_overrides.len(), 2);
            assert!(matches!(&e.property_overrides[1], (k, Scalar::Integer(3)) if k == "trust"));
        }
        other => panic!("unexpected {:?}", other),
    }
    match &entries[1].value {
        FrontmatterValue::EntityDecl(e) => {
            assert_eq!(e.entity_type, "Box");
            assert!(e.property_overrides.is_empty());
        }
        other => panic!("unexpected {:?}", other),
    }
}

#[test]
fn inline_objects_lists_and_quoted_strings() {
    let (fm, d) = frontmatter("meta: { a: 1, b: \"x, y\" }\ntags: [a, 'b', 3]\nname: \"Quoted\"\nowner: @arina");
    assert!(d.is_empty(), "{:?}", d.all());
    match &fm.entries[0].value {
        FrontmatterValue::InlineObject(es) => {
            assert_eq!(es.len(), 2);
            assert!(matches!(&es[1].value, FrontmatterValue::Scalar(Scalar::String(s)) if s == "x, y"));
        }
        other => panic!("unexpected {:?}", other),
    }
    match &fm.entries[1].value {
        FrontmatterValue::List(items) => {
            assert_eq!(items.len(), 3);
            assert!(matches!(&items[1], FrontmatterValue::Scalar(Scalar::String(s)) if s == "b"));
            assert!(matches!(&items[2], FrontmatterValue::Scalar(Scalar::Integer(3))));
        }
        other => panic!("unexpected {:?}", other),
    }
    assert!(matches!(&fm.entries[2].value, FrontmatterValue::Scalar(Scalar::String(s)) if s == "Quoted"));
    assert!(matches!(&fm.entries[3].value, FrontmatterValue::Scalar(Scalar::String(s)) if s == "@arina"));
}

#[test]
fn nested_blocks_and_comments() {
    let (fm, d) = frontmatter("# a comment\nconfig:\n  depth: 3\n  inner:\n    x: y\nafter: 1");
    assert!(d.is_empty(), "{:?}", d.all());
    assert_eq!(fm.entries.len(), 2);
    assert_eq!(fm.entries[0].key, "config");
    match &fm.entries[0].value {
        FrontmatterValue::Mapping(es) => {
            assert_eq!(es.len(), 2);
            match &es[1].value {
                FrontmatterValue::Mapping(inner) => assert_eq!(inner[0].key, "x"),
                other => panic!("unexpected {:?}", other),
            }
        }
        other => panic!("unexpected {:?}", other),
    }
    assert_eq!(fm.entries[1].key, "after");
}

#[test]
fn rejected_yaml_constructs_and_unrecognised_lines() {
    let (fm, d) = frontmatter("anchor: &base\n- item\njust words\nok: 1");
    assert_eq!(codes(&d), vec!["URD105", "URD109", "URD111"]);
    assert_eq!(d.all()[2].message, "Unrecognised frontmatter syntax at line 4: 'just words'.");
    assert_eq!(fm.entries.len(), 1);
    assert_eq!(fm.entries[0].key, "ok");
}

#[test]
fn deep_nesting_is_reported() {
    let deep = format!("{}key: v", " ".repeat(18));
    let (_, d) = frontmatter(&deep);
    assert_eq!(codes(&d), vec!["URD104"]);
    assert_eq!(d.all()[0].message, "Frontmatter nesting exceeds 8 levels at line 2.");
}

#[test]
fn tabs_are_reported_each_time_a_line_is_checked() {
    let (fm, d) = frontmatter("key:\tvalue");
    assert_eq!(codes(&d), vec!["URD102", "URD102"]);
    assert!(matches!(&fm.entries[0].value, FrontmatterValue::Scalar(Scalar::String(s)) if s == "value"));
}

#[test]
fn a_lone_quote_value_marks_the_parse() {
    let mut d = DiagnosticCollector::new();
    let ast = parse("q.urd.md", "---\nname: \"\n---\n", &mut d).expect("parses");
    assert!(ast.slice_fault);
}
