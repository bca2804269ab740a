use indexmap::IndexMap;
use urd_compiler::collect::{collect, WorldConfig};
use urd_compiler::diagnostics::{DiagnosticCollector, Severity};
use urd_compiler::graph::FileNode;
use urd_compiler::parse::parse;
use urd_compiler::resolve::resolve;
use urd_compiler::span::Span;
use urd_compiler::symbol_table::{EntitySymbol, PropertySymbol, PropertyType, SymbolTable, Value, Visibility};
use urd_compiler::validate::CheckContext;
use urd_compiler::value_check::{
    check_value, format_value, parse_string_to_value, validate_conditions, validate_effects, validate_entities,
    validate_types,
};

fn at(line: u32) -> Span {
    Span::new("world.urd.md".to_string(), line, 1, line, 5)
}

fn empty_table() -> SymbolTable {
    SymbolTable {
        types: IndexMap::new(),
        entities: IndexMap::new(),
        sections: IndexMap::new(),
        locations: IndexMap::new(),
        actions: IndexMap::new(),
        rules: IndexMap::new(),
        sequences: IndexMap::new(),
        duplicates: vec![],
        world_start: None,
        world_entry: None,
    }
}

fn prop(name: &str, pt: PropertyType) -> PropertySymbol {
    PropertySymbol {
        name: name.to_string(),
        property_type: pt,
        raw_type_string: "x".to_string(),
        default: None,
        visibility: Visibility::Visible,
        values: None,
        ref_type: None,
        element_type: None,
        element_values: None,
        element_ref_type: None,
        description: None,
        declared_in: at(1),
    }
}

fn messages(d: &DiagnosticCollector) -> Vec<(String, String)> {
    d.all().iter().map(|x| (x.code.clone(), x.message.clone())).collect()
}

#[test]
fn values_of_the_wrong_kind_are_reported_by_context() {
    let t = empty_table();
    let mut d = DiagnosticCollector::new();
    assert!(!check_value(&Value::Integer(3), &prop("lit", PropertyType::Boolean), "lamp", "Lamp", CheckContext::Override, &t, &at(2), &mut d));
    assert!(!check_value(&Value::String("x".to_string()), &prop("count", PropertyType::Integer), "Box", "Box", CheckContext::Default, &t, &at(3), &mut d));
    assert!(check_value(&Value::Integer(4), &prop("weight", PropertyType::Number), "rock", "Rock", CheckContext::Override, &t, &at(4), &mut d));
    assert!(check_value(&Value::Number("1.5".to_string()), &prop("weight", PropertyType::Number), "rock", "Rock", CheckContext::Override, &t, &at(4), &mut d));
    assert_eq!(
        messages(&d),
        vec![
            ("URD401".to_string(), "Type mismatch: property 'lit' on entity '@lamp' expects boolean but got '3'.".to_string()),
            ("URD413".to_string(), "Default value 'x' for property 'count' on type 'Box' does not match the declared type 'integer'.".to_string()),
        ]
    );
    assert_eq!(d.all()[0].span.start_line, 2);
}

#[test]
fn enum_values_outside_the_list_are_reported() {
    let t = empty_table();
    let mut colour = prop("colour", PropertyType::Enum);
    colour.values = Some(vec!["red".to_string(), "blue".to_string()]);
    let mut d = DiagnosticCollector::new();
    assert!(check_value(&Value::String("red".to_string()), &colour, "lamp", "Lamp", CheckContext::Override, &t, &at(1), &mut d));
    assert!(!check_value(&Value::String("green".to_string()), &colour, "lamp", "Lamp", CheckContext::Override, &t, &at(1), &mut d));
    assert!(!check_value(&Value::String("green".to_string()), &colour, "lamp", "Lamp", CheckContext::ConditionOrEffect, &t, &at(1), &mut d));
    assert_eq!(
        messages(&d),
        vec![
            ("URD402".to_string(), "Enum value 'green' is not valid for property 'colour' on entity '@lamp'. Valid values: red, blue.".to_string()),
            ("URD401".to_string(), "Type mismatch: property 'colour' on entity '@lamp' expects enum but got 'green'.".to_string()),
        ]
    );
}

#[test]
fn list_elements_and_references_are_checked() {
    let mut t = empty_table();
    t.entities.insert(
        "crate".to_string(),
        EntitySymbol {
            id: "crate".to_string(),
            entity_type: "Box".to_string(),
            type_symbol: Some("Box".to_string()),
            property_overrides: vec![],
            declared_in: at(9),
        },
    );
    let mut sizes = prop("sizes", PropertyType::List);
    sizes.element_type = Some(PropertyType::Integer);
    let mut owner = prop("owner", PropertyType::Ref);
    owner.ref_type = Some("Person".to_string());
    let mut d = DiagnosticCollector::new();
    let items = Value::List(vec![Value::Integer(1), Value::String("two".to_string())]);
    assert!(check_value(&items, &sizes, "bag", "Bag", CheckContext::Override, &t, &at(5), &mut d));
    assert!(check_value(&Value::EntityRef("crate".to_string()), &owner, "bag", "Bag", CheckContext::Override, &t, &at(5), &mut d));
    assert!(check_value(&Value::EntityRef("nobody".to_string()), &owner, "bag", "Bag", CheckContext::Override, &t, &at(5), &mut d));
    assert_eq!(
        messages(&d),
        vec![
            ("URD401".to_string(), "Type mismatch: property 'sizes' on entity '@bag' expects integer but got 'two'.".to_string()),
            (
                "URD419".to_string(),
                "Property 'owner' on entity '@bag' requires a reference to type 'Person' but '@crate' has type 'Box'.".to_string()
            ),
        ]
    );
}

#[test]
fn values_are_shown_and_parsed_as_written() {
    let v = Value::List(vec![Value::Integer(-1), Value::Boolean(true), Value::EntityRef("x".to_string()), Value::Number("2.50".to_string())]);
    assert_eq!(format_value(&v), "[-1, true, @x, 2.50]");
    assert!(matches!(parse_string_to_value("true", &PropertyType::Boolean), Value::Boolean(true)));
    assert!(matches!(parse_string_to_value("yes", &PropertyType::Boolean), Value::String(s) if s == "yes"));
    assert!(matches!(parse_string_to_value("-12", &PropertyType::Integer), Value::Integer(-12)));
    assert!(matches!(parse_string_to_value("1.5", &PropertyType::Number), Value::Number(s) if s == "1.5"));
    assert!(matches!(parse_string_to_value("lots", &PropertyType::Number), Value::String(s) if s == "lots"));
    assert!(matches!(parse_string_to_value("key", &PropertyType::Ref), Value::EntityRef(s) if s == "key"));
}

const WORLD: &str = "---
types:
  Lamp [portable]:
    lit: boolean = maybe
    ~secret: string
    colour: enum(red, blue) = red
    size: integer
  Chest [container]:
    open: boolean
  Rock:
    weight: integer
entities:
  @lamp: Lamp { lit: true, colour: green }
  @chest: Chest
  @rock: Rock
---
# Hall
[@lamp, @chest, @rock]
> @lamp.size + many
> @lamp.colour - 1
> reveal @lamp.colour
> move @rock -> chest
> move @lamp -> rock
? @lamp.colour > red
? @lamp.size == big
";

#[test]
fn types_entities_effects_and_conditions_are_validated() {
    let mut d = DiagnosticCollector::new();
    let ast = parse("world.urd.md", WORLD, &mut d).expect("parses");
    let mut nodes = vec![FileNode { path: "world.urd.md".to_string(), ast, imports: vec![] }];
    let mut t = empty_table();
    let mut w = WorldConfig::new();
    let contexts = collect(&nodes, &mut t, &mut w, &mut d);
    resolve(&mut nodes, &mut t, &w, &contexts, &mut d);
    assert!(!d.has_errors(), "{:?}", d.all());
    let mut v = DiagnosticCollector::new();
    validate_types(&t, &mut v);
    validate_entities(&t, &mut v);
    validate_effects(&nodes, &t, &mut v);
    validate_conditions(&nodes, &t, &mut v);
    assert_eq!(
        messages(&v),
        vec![
            ("URD413".to_string(), "Default value 'maybe' for property 'lit' on type 'Lamp' does not match the declared type 'boolean'.".to_string()),
            ("URD402".to_string(), "Enum value 'green' is not valid for property 'colour' on entity '@lamp'. Valid values: red, blue.".to_string()),
            ("URD401".to_string(), "Type mismatch: property 'size' on entity '@lamp' expects integer but got 'many'.".to_string()),
            (
                "URD424".to_string(),
                "Arithmetic operator '-' is not valid for property 'colour' of type 'enum'. Arithmetic effects require integer or number properties.".to_string()
            ),
            ("URD426".to_string(), "Property 'colour' on entity '@lamp' is not hidden. Reveal has no effect.".to_string()),
            ("URD425".to_string(), "Entity '@rock' cannot be moved because its type 'Rock' does not have the 'portable' trait.".to_string()),
            (
                "URD422".to_string(),
                "Entity '@rock' is used as a container in move destination but its type 'Rock' does not have the 'container' trait.".to_string()
            ),
            ("URD420".to_string(), "Operator '>' is not valid for property 'colour' of type 'enum'. Use == or != for non-numeric types.".to_string()),
            ("URD401".to_string(), "Type mismatch: property 'size' on entity '@lamp' expects integer but got 'big'.".to_string()),
        ]
    );
    assert_eq!(v.all()[4].severity, Severity::Warning);
}

#[test]
fn unknown_reference_types_and_keywords_are_reported() {
    let src = "---\ntypes:\n  Bag:\n    owner: ref(Person)\n    shape: blob\n    kind: enum()\n---\n";
    let mut d = DiagnosticCollector::new();
    let ast = parse("world.urd.md", src, &mut d).expect("parses");
    let nodes = vec![FileNode { path: "world.urd.md".to_string(), ast, imports: vec![] }];
    let mut t = empty_table();
    let mut w = WorldConfig::new();
    collect(&nodes, &mut t, &mut w, &mut d);
    let mut v = DiagnosticCollector::new();
    validate_types(&t, &mut v);
    let codes: Vec<String> = v.all().iter().map(|x| x.code.clone()).collect();
    assert!(codes.contains(&"URD415".to_string()), "{:?}", v.all());
    assert!(codes.contains(&"URD429".to_string()), "{:?}", v.all());
    let unknown = v.all().iter().find(|x| x.code == "URD415").unwrap();
    assert_eq!(unknown.message, "Property 'owner' on type 'Bag' references unknown type 'Person'.");
    let blob = v.all().iter().find(|x| x.code == "URD429").unwrap();
    assert_eq!(
        blob.message,
        "Unrecognised property type 'blob' on property 'shape' of type 'Bag'. Valid types: bool, int, num, str, enum, ref, list (and their long forms). Treating as 'string'."
    );
}

const SECTIONS: &str = "---
types:
  Door:
    state: enum(open, shut)
entities:
  @gate: Door
---
# Yard
[@gate]
== porch
* Knock
  ? @gate.state == ajar
* Leave
== garden
+ Wander
== hedge
* Peek
Nothing more here.
";

#[test]
fn orphaned_choices_and_missing_fallthrough_are_warned() {
    let mut d = DiagnosticCollector::new();
    let ast = parse("yard.urd.md", SECTIONS, &mut d).expect("parses");
    let mut nodes = vec![FileNode { path: "yard.urd.md".to_string(), ast, imports: vec![] }];
    let mut t = empty_table();
    let mut w = WorldConfig::new();
    let contexts = collect(&nodes, &mut t, &mut w, &mut d);
    resolve(&mut nodes, &mut t, &w, &contexts, &mut d);
    assert!(!d.has_errors(), "{:?}", d.all());
    let mut v = DiagnosticCollector::new();
    urd_compiler::value_check::validate_orphaned_choices(&nodes, &t, &mut v);
    urd_compiler::value_check::validate_section_fallthrough(&nodes, &t, &mut v);
    assert_eq!(
        messages(&v),
        vec![
            (
                "URD432".to_string(),
                "Choice in section 'porch' (file 'yard.urd.md') may never be available. Condition requires 'state' == 'ajar' but type 'Door' only allows: [open, shut].".to_string()
            ),
            (
                "URD433".to_string(),
                "Section 'porch' in file 'yard.urd.md' has only one-shot choices and no terminal jump or fallthrough text. It will exhaust to an empty state.".to_string()
            ),
        ]
    );
    assert!(v.all().iter().all(|x| x.severity == Severity::Warning));
}

#[test]
fn the_whole_phase_reports_in_step_order() {
    let mut d = DiagnosticCollector::new();
    let ast = parse("yard.urd.md", SECTIONS, &mut d).expect("parses");
    let mut nodes = vec![FileNode { path: "yard.urd.md".to_string(), ast, imports: vec![] }];
    let mut t = empty_table();
    let mut w = WorldConfig::new();
    let contexts = collect(&nodes, &mut t, &mut w, &mut d);
    resolve(&mut nodes, &mut t, &w, &contexts, &mut d);
    let mut v = DiagnosticCollector::new();
    urd_compiler::value_check::validate(&nodes, &t, &mut v);
    let codes: Vec<String> = v.all().iter().map(|x| x.code.clone()).collect();
    assert_eq!(codes, vec!["URD401".to_string(), "URD432".to_string(), "URD433".to_string()]);
}
