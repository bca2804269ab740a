use indexmap::IndexMap;
use urd_compiler::ast::{Annotation, ConditionExpr, ContainerKind, ContentNode, DestinationKind};
use urd_compiler::content::parse_content;
use urd_compiler::diagnostics::DiagnosticCollector;
use urd_compiler::link::FileContext;
use urd_compiler::parse::Parser;
use urd_compiler::resolve::{resolve_file_content, resolve_world_start};
use urd_compiler::span::Span;
use urd_compiler::symbol_table::{
    EntitySymbol, ExitSymbol, LocationSymbol, PropertySymbol, PropertyType, SymbolTable, TypeSymbol, Visibility,
};

const FILE: &str = "tavern.urd.md";

fn at(file: &str) -> Span {
    Span::new(file.to_string(), 1, 1, 1, 1)
}

fn entity(id: &str, file: &str, ty: Option<&str>) -> EntitySymbol {
    EntitySymbol {
        id: id.to_string(),
        entity_type: ty.unwrap_or("Unknown").to_string(),
        type_symbol: ty.map(|t| t.to_string()),
        property_overrides: vec![],
        declared_in: at(file),
    }
}

fn property(name: &str) -> PropertySymbol {
    PropertySymbol {
        name: name.to_string(),
        property_type: PropertyType::Integer,
        raw_type_string: "integer".to_string(),
        default: None,
        visibility: Visibility::Visible,
        values: None,
        ref_type: None,
        element_type: None,
        element_values: None,
        element_ref_type: None,
        description: None,
        declared_in: at(FILE),
    }
}

fn exit(direction: &str) -> ExitSymbol {
    ExitSymbol {
        direction: direction.to_string(),
        destination: String::new(),
        resolved_destination: None,
        condition_node: None,
        blocked_message_node: None,
        declared_in: at(FILE),
    }
}

fn location(id: &str, file: &str, exits: Vec<ExitSymbol>) -> LocationSymbol {
    LocationSymbol { id: id.to_string(), display_name: id.to_string(), exits, contains: vec![], declared_in: at(file) }
}

fn tables() -> SymbolTable {
    let mut entities = IndexMap::new();
    entities.insert("arina".to_string(), entity("arina", FILE, Some("Barkeep")));
    entities.insert("guard".to_string(), entity("guard", FILE, Some("Barkeep")));
    entities.insert("chest".to_string(), entity("chest", FILE, Some("Box")));
    entities.insert("spy".to_string(), entity("spy", "docks.urd.md", None));
    let mut types = IndexMap::new();
    types.insert(
        "Barkeep".to_string(),
        TypeSymbol { name: "Barkeep".to_string(), traits: vec![], properties: vec![property("mood"), property("trust")], declared_in: at(FILE) },
    );
    types.insert("Box".to_string(), TypeSymbol { name: "Box".to_string(), traits: vec![], properties: vec![], declared_in: at(FILE) });
    let mut locations = IndexMap::new();
    locations.insert("tavern".to_string(), location("tavern", FILE, vec![exit("north"), exit("cellar")]));
    locations.insert("street".to_string(), location("street", FILE, vec![]));
    locations.insert("harbour".to_string(), location("harbour", "docks.urd.md", vec![]));
    SymbolTable {
        types,
        entities,
        sections: IndexMap::new(),
        locations,
        actions: IndexMap::new(),
        rules: IndexMap::new(),
        sequences: IndexMap::new(),
        duplicates: vec![],
        world_start: None,
        world_entry: None,
    }
}

fn context() -> FileContext {
    let mut local_sections = IndexMap::new();
    local_sections.insert("greet".to_string(), "tavern/greet".to_string());
    local_sections.insert("cellar".to_string(), "tavern/cellar".to_string());
    FileContext { file_stem: "tavern".to_string(), visible_scope: vec![FILE.to_string()], local_sections }
}

fn resolve(src: &str) -> (Vec<ContentNode>, DiagnosticCollector, SymbolTable) {
    let mut parser = Parser::new(FILE, src);
    let mut diags = DiagnosticCollector::new();
    let mut nodes = parse_content(&mut parser, 0, &mut diags);
    assert!(diags.is_empty(), "parse reported {:?}", diags.all());
    let mut t = tables();
    resolve_file_content(&mut nodes, FILE, &context(), &mut t, &mut diags);
    (nodes, diags, t)
}

fn codes(d: &DiagnosticCollector) -> Vec<String> {
    d.all().iter().map(|x| x.code.clone()).collect()
}

fn entity_of(a: &Option<Annotation>) -> Option<String> {
    a.as_ref().and_then(|a| a.resolved_entity.clone())
}

#[test]
fn speech_and_presence_resolve_and_record_placement() {
    let (nodes, diags, t) = resolve("# Tavern\n[@arina, @chest]\n@arina: Welcome.\n@arina leans in.");
    assert!(diags.is_empty(), "{:?}", diags.all());
    match &nodes[1] {
        ContentNode::EntityPresence(p) => {
            assert_eq!(entity_of(&p.annotations[0]), Some("arina".to_string()));
            assert_eq!(entity_of(&p.annotations[1]), Some("chest".to_string()));
        }
        other => panic!("unexpected {:?}", other),
    }
    match &nodes[2] {
        ContentNode::EntitySpeech(s) => assert_eq!(entity_of(&s.annotation), Some("arina".to_string())),
        other => panic!("unexpected {:?}", other),
    }
    match &nodes[3] {
        ContentNode::StageDirection(s) => assert_eq!(entity_of(&s.annotation), Some("arina".to_string())),
        other => panic!("unexpected {:?}", other),
    }
    assert_eq!(t.locations.get("tavern").unwrap().contains, vec!["arina".to_string(), "chest".to_string()]);
}

#[test]
fn unknown_entity_gets_urd301_with_a_suggestion() {
    let (nodes, diags, _) = resolve("@gaurd: Halt!");
    assert_eq!(codes(&diags), vec!["URD301"]);
    let d = &diags.all()[0];
    assert_eq!(d.message, "Unresolved entity reference '@gaurd'.");
    assert_eq!(d.suggestion.as_deref(), Some("Did you mean '@guard'?"));
    match &nodes[0] {
        ContentNode::EntitySpeech(s) => assert!(s.annotation.is_none()),
        other => panic!("unexpected {:?}", other),
    }
}

#[test]
fn entity_outside_visible_scope_is_reported_with_its_file() {
    let (_, diags, _) = resolve("@spy: Psst.");
    assert_eq!(codes(&diags), vec!["URD301"]);
    assert_eq!(
        diags.all()[0].suggestion.as_deref(),
        Some("'@spy' is declared in docks.urd.md but docks.urd.md is not imported by tavern.urd.md.")
    );
}

#[test]
fn jumps_follow_the_priority_rule() {
    let (nodes, diags, _) = resolve("# Tavern\n-> greet\n-> north\n-> cellar\n-> exit:north\n-> nowhere");
    assert_eq!(codes(&diags), vec!["URD310", "URD309"]);
    assert_eq!(
        diags.all()[0].message,
        "Section 'cellar' shadows exit 'cellar' in this location. Use -> exit:cellar to target the exit."
    );
    assert_eq!(
        diags.all()[1].message,
        "Unresolved jump target 'nowhere'. No section or exit with this name exists in scope."
    );
    let jump = |i: usize| match &nodes[i] {
        ContentNode::Jump(j) => j.annotation.as_ref().map(|a| (a.resolved_section.clone(), a.resolved_location.clone())),
        other => panic!("unexpected {:?}", other),
    };
    assert_eq!(jump(1), Some((Some("tavern/greet".to_string()), None)));
    assert_eq!(jump(2), Some((None, Some("tavern".to_string()))));
    assert_eq!(jump(3), Some((Some("tavern/cellar".to_string()), None)));
    assert_eq!(jump(4), Some((None, Some("tavern".to_string()))));
    assert_eq!(jump(5), None);
}

#[test]
fn exit_jump_outside_a_location_and_end_terminal() {
    let (nodes, diags, _) = resolve("-> exit:north\n-> end");
    assert_eq!(codes(&diags), vec!["URD314"]);
    assert_eq!(diags.all()[0].message, "Exit construct outside of a location context.");
    match &nodes[1] {
        ContentNode::Jump(j) => {
            let a = j.annotation.as_ref().expect("end is annotated");
            assert!(a.resolved_section.is_none() && a.resolved_location.is_none());
        }
        other => panic!("unexpected {:?}", other),
    }
}

#[test]
fn exit_declarations_record_their_destination() {
    let (nodes, diags, t) = resolve("# Tavern\n-> north: Street\n-> cellar: Harbour\n-> south: Nowhere");
    assert_eq!(codes(&diags), vec!["URD312", "URD312"]);
    assert_eq!(
        diags.all()[0].suggestion.as_deref(),
        Some("'Harbour' is declared in docks.urd.md but docks.urd.md is not imported by tavern.urd.md.")
    );
    assert_eq!(diags.all()[1].message, "Exit destination 'Nowhere' does not resolve to any known location.");
    match &nodes[1] {
        ContentNode::ExitDeclaration(x) => {
            assert_eq!(x.annotation.as_ref().unwrap().resolved_location.as_deref(), Some("street"));
        }
        other => panic!("unexpected {:?}", other),
    }
    let tavern = t.locations.get("tavern").unwrap();
    assert_eq!(tavern.exits[0].resolved_destination.as_deref(), Some("street"));
    assert_eq!(tavern.exits[1].resolved_destination, None);
}

#[test]
fn conditions_resolve_properties_containers_and_sections() {
    let (nodes, diags, _) =
        resolve("? @arina.trust > 2\n? @arina.colour == red\n? @chest in player\n? @chest in street\n? greet.exhausted\n? gone.exhausted");
    assert_eq!(codes(&diags), vec!["URD308", "URD309"]);
    assert_eq!(diags.all()[0].message, "Property 'colour' does not exist on type 'Barkeep'.");
    let cond = |i: usize| match &nodes[i] {
        ContentNode::Condition(c) => match &c.expr {
            ConditionExpr::PropertyComparison(p) => p.annotation.as_ref().map(|a| {
                (a.resolved_entity.clone(), a.resolved_property.clone(), a.resolved_type.clone())
            }),
            other => panic!("unexpected {:?}", other),
        },
        other => panic!("unexpected {:?}", other),
    };
    assert_eq!(
        cond(0),
        Some((Some("arina".to_string()), Some("trust".to_string()), Some("Barkeep".to_string())))
    );
    assert_eq!(cond(1), Some((Some("arina".to_string()), None, None)));
    match &nodes[2] {
        ContentNode::Condition(c) => match &c.expr {
            ConditionExpr::ContainmentCheck(cc) => {
                assert!(matches!(cc.annotation.as_ref().unwrap().container_kind, Some(ContainerKind::KeywordPlayer)))
            }
            other => panic!("unexpected {:?}", other),
        },
        other => panic!("unexpected {:?}", other),
    }
    match &nodes[3] {
        ContentNode::Condition(c) => match &c.expr {
            ConditionExpr::ContainmentCheck(cc) => match &cc.annotation.as_ref().unwrap().container_kind {
                Some(ContainerKind::LocationRef(l)) => assert_eq!(l, "street"),
                other => panic!("unexpected {:?}", other),
            },
            other => panic!("unexpected {:?}", other),
        },
        other => panic!("unexpected {:?}", other),
    }
    match &nodes[4] {
        ContentNode::Condition(c) => match &c.expr {
            ConditionExpr::ExhaustionCheck(e) => {
                assert_eq!(e.annotation.as_ref().unwrap().resolved_section.as_deref(), Some("tavern/greet"))
            }
            other => panic!("unexpected {:?}", other),
        },
        other => panic!("unexpected {:?}", other),
    }
}

#[test]
fn effects_resolve_targets_and_destinations() {
    let (nodes, diags, _) = resolve("> @arina.mood = happy\n> move @chest -> here\n> move @chest -> strete\n> destroy @chest");
    assert_eq!(codes(&diags), vec!["URD301"]);
    assert_eq!(diags.all()[0].message, "Unresolved reference 'strete'.");
    assert_eq!(diags.all()[0].suggestion.as_deref(), Some("Did you mean 'street'?"));
    let ann = |i: usize| match &nodes[i] {
        ContentNode::Effect(e) => e.annotation.as_ref().unwrap(),
        other => panic!("unexpected {:?}", other),
    };
    assert_eq!(ann(0).resolved_property.as_deref(), Some("mood"));
    assert_eq!(ann(0).resolved_type.as_deref(), Some("Barkeep"));
    assert!(matches!(ann(1).destination_kind, Some(DestinationKind::KeywordHere)));
    assert_eq!(ann(2).resolved_entity.as_deref(), Some("chest"));
    assert!(ann(2).destination_kind.is_none());
    assert_eq!(ann(3).resolved_entity.as_deref(), Some("chest"));
}

#[test]
fn choice_targets_and_nested_content_resolve() {
    let (nodes, diags, _) = resolve("# Tavern\n* Talk -> @arina\n  @arina: Yes?\n  -> greet");
    assert!(diags.is_empty(), "{:?}", diags.all());
    match &nodes[1] {
        ContentNode::Choice(c) => {
            assert_eq!(entity_of(&c.annotation), Some("arina".to_string()));
            match &c.content[0] {
                ContentNode::EntitySpeech(s) => assert_eq!(entity_of(&s.annotation), Some("arina".to_string())),
                other => panic!("unexpected {:?}", other),
            }
        }
        other => panic!("unexpected {:?}", other),
    }
}

#[test]
fn world_start_resolves_by_slug() {
    let t = tables();
    assert_eq!(resolve_world_start("The Street", &t), None);
    assert_eq!(resolve_world_start("Street", &t), Some("street".to_string()));
}
