use indexmap::IndexMap;
use urd_compiler::checks::{
    validate_actions, validate_global_config, validate_location_reachability, validate_section_exit_shadowing,
    validate_sequences,
};
use urd_compiler::parse::parse;
use urd_compiler::content::parse_content;
use urd_compiler::diagnostics::DiagnosticCollector;
use urd_compiler::parse::Parser;
use urd_compiler::span::Span;
use urd_compiler::symbol_table::{
    ActionSymbol, EntitySymbol, ExitSymbol, LocationSymbol, PhaseSymbol, RuleSymbol, SequenceSymbol, SymbolTable,
    TypeSymbol,
};

fn at(line: u32) -> Span {
    Span::new("world.urd.md".to_string(), line, 1, line, 5)
}

fn exit_to(direction: &str, dest: Option<&str>) -> ExitSymbol {
    ExitSymbol {
        direction: direction.to_string(),
        destination: String::new(),
        resolved_destination: dest.map(|d| d.to_string()),
        condition_node: None,
        blocked_message_node: None,
        declared_in: at(1),
    }
}

fn location(id: &str, line: u32, exits: Vec<ExitSymbol>) -> LocationSymbol {
    LocationSymbol { id: id.to_string(), display_name: id.to_string(), exits, contains: vec![], declared_in: at(line) }
}

fn empty_table() -> SymbolTable {
    SymbolTable {
        types: IndexMap::new(),
        entities: IndexMap::new(),
        sections: IndexMap::new(),
        locations: IndexMap::new(),
        actions: IndexMap::new(),
        rules: IndexMap::new(),
        sequences: IndexMap::new(),
        duplicates: vec![],
        world_start: None,
        world_entry: None,
    }
}

fn world() -> SymbolTable {
    let mut t = empty_table();
    t.locations.insert("tavern".to_string(), location("tavern", 1, vec![exit_to("north", Some("street")), exit_to("down", None)]));
    t.locations.insert("street".to_string(), location("street", 5, vec![exit_to("south", Some("tavern")), exit_to("east", Some("market"))]));
    t.locations.insert("market".to_string(), location("market", 9, vec![]));
    t.locations.insert("island".to_string(), location("island", 12, vec![exit_to("back", Some("tavern"))]));
    t.locations.insert("cave".to_string(), location("cave", 15, vec![exit_to("out", Some("island"))]));
    t
}

fn messages(d: &DiagnosticCollector) -> Vec<(String, String)> {
    d.all().iter().map(|x| (x.code.clone(), x.message.clone())).collect()
}

#[test]
fn unreachable_locations_are_reported_in_declaration_order() {
    let mut t = world();
    t.world_start = Some("tavern".to_string());
    let mut d = DiagnosticCollector::new();
    validate_location_reachability(&t, &mut d);
    assert_eq!(
        messages(&d),
        vec![
            ("URD430".to_string(), "Location 'island' is unreachable. No path from the start location reaches it.".to_string()),
            ("URD430".to_string(), "Location 'cave' is unreachable. No path from the start location reaches it.".to_string()),
        ]
    );
    assert_eq!(d.all()[0].span.start_line, 12);
}

#[test]
fn reachability_needs_a_declared_start() {
    let mut t = world();
    let mut d = DiagnosticCollector::new();
    validate_location_reachability(&t, &mut d);
    assert!(d.is_empty());
    t.world_start = Some("nowhere".to_string());
    validate_location_reachability(&t, &mut d);
    assert!(d.is_empty());
    t.world_start = Some("cave".to_string());
    validate_location_reachability(&t, &mut d);
    assert!(d.is_empty(), "everything is reachable from the cave: {:?}", d.all());
}

#[test]
fn sections_named_like_exits_are_reported() {
    let mut parser = Parser::new("world.urd.md", "# Tavern\n== north\n== cellar\n# Nowhere\n== north");
    let mut d = DiagnosticCollector::new();
    let nodes = parse_content(&mut parser, 0, &mut d);
    assert!(d.is_empty());
    validate_section_exit_shadowing(&nodes, &world(), &mut d);
    assert_eq!(
        messages(&d),
        vec![(
            "URD434".to_string(),
            "Section 'north' in location 'tavern' shares a name with exit 'north'. Jumps to 'north' will target the section, not the exit. Use -> exit:north to target the exit explicitly.".to_string()
        )]
    );
    assert_eq!(d.all()[0].span.start_line, 2);
}

#[test]
fn actions_with_both_targets_are_reported() {
    let mut t = empty_table();
    t.actions.insert(
        "talk".to_string(),
        ActionSymbol { id: "talk".to_string(), target: Some("arina".to_string()), target_type: Some("Person".to_string()), declared_in: at(3) },
    );
    t.actions.insert(
        "look".to_string(),
        ActionSymbol { id: "look".to_string(), target: None, target_type: Some("Item".to_string()), declared_in: at(4) },
    );
    let mut d = DiagnosticCollector::new();
    validate_actions(&t, &mut d);
    assert_eq!(
        messages(&d),
        vec![("URD406".to_string(), "Action 'talk' declares both 'target' and 'target_type'. Declare one or neither.".to_string())]
    );
}

fn phase(id: &str, advance: &str, action: Option<&str>, rule: Option<&str>) -> PhaseSymbol {
    PhaseSymbol {
        id: id.to_string(),
        advance: advance.to_string(),
        action: action.map(|a| a.to_string()),
        actions: None,
        rule: rule.map(|r| r.to_string()),
        declared_in: at(20),
    }
}

#[test]
fn sequences_and_phases_are_checked() {
    let mut t = empty_table();
    t.actions.insert("talk".to_string(), ActionSymbol { id: "talk".to_string(), target: None, target_type: None, declared_in: at(3) });
    t.rules.insert(
        "spawn".to_string(),
        RuleSymbol { id: "spawn".to_string(), actor: "system".to_string(), trigger: "tick".to_string(), select: None, declared_in: at(4) },
    );
    t.sequences.insert("empty".to_string(), SequenceSymbol { id: "empty".to_string(), phases: vec![], declared_in: at(10) });
    t.sequences.insert(
        "intro".to_string(),
        SequenceSymbol {
            id: "intro".to_string(),
            phases: vec![
                phase("greet", "manual", Some("talk"), Some("spawn")),
                phase("wander", "sometimes", Some("dance"), Some("vanish")),
                phase("rush", "auto", Some("talk"), None),
            ],
            declared_in: at(11),
        },
    );
    let mut d = DiagnosticCollector::new();
    validate_sequences(&t, &mut d);
    assert_eq!(
        messages(&d),
        vec![
            ("URD428".to_string(), "Sequence 'empty' declares no phases.".to_string()),
            ("URD407".to_string(), "Phase 'wander' in sequence 'intro' references unknown action 'dance'.".to_string()),
            ("URD408".to_string(), "Phase 'wander' in sequence 'intro' references unknown rule 'vanish'.".to_string()),
            ("URD409".to_string(), "Invalid advance mode 'sometimes' in phase 'wander'. Valid modes: on_action, on_rule, on_condition, end.".to_string()),
            ("URD427".to_string(), "Phase 'rush' is auto-advancing but declares player actions. The actions will not be available.".to_string()),
        ]
    );
}

fn parsed_world(src: &str) -> Vec<urd_compiler::graph::FileNode> {
    let mut d = DiagnosticCollector::new();
    let ast = parse("world.urd.md", src, &mut d).unwrap();
    vec![urd_compiler::graph::FileNode { path: "world.urd.md".to_string(), ast, imports: vec![] }]
}

#[test]
fn world_block_references_are_checked() {
    let files = parsed_world("---\nworld:\n  name: demo\n  start: attic\n  entry: intro\n  urd: \"1\"\n---\n");
    let t = empty_table();
    let mut d = DiagnosticCollector::new();
    validate_global_config(&files, &t, &mut d);
    assert_eq!(
        messages(&d),
        vec![
            ("URD404".to_string(), "world.start references 'attic' but no location with that ID exists.".to_string()),
            ("URD405".to_string(), "world.entry references 'intro' but no sequence with that ID exists.".to_string()),
            (
                "URD411".to_string(),
                "The 'urd' field is set automatically by the compiler. Author value will be overridden.".to_string()
            ),
        ]
    );
}

#[test]
fn resolved_world_references_are_quiet() {
    let files = parsed_world("---\nworld:\n  start: tavern\n---\n");
    let mut t = world();
    t.world_start = Some("tavern".to_string());
    let mut d = DiagnosticCollector::new();
    validate_global_config(&files, &t, &mut d);
    assert!(d.all().is_empty());
}

#[test]
fn player_type_needs_both_traits() {
    let mut t = empty_table();
    t.types.insert(
        "Hero".to_string(),
        TypeSymbol { name: "Hero".to_string(), traits: vec!["mobile".to_string()], properties: vec![], declared_in: at(2) },
    );
    t.entities.insert(
        "player".to_string(),
        EntitySymbol {
            id: "player".to_string(),
            entity_type: "Hero".to_string(),
            type_symbol: Some("Hero".to_string()),
            property_overrides: vec![],
            declared_in: at(7),
        },
    );
    let mut d = DiagnosticCollector::new();
    validate_global_config(&vec![], &t, &mut d);
    assert_eq!(
        messages(&d),
        vec![(
            "URD412".to_string(),
            "Player entity '@player' has type 'Hero' which is missing required trait 'container'. The player type must have both 'mobile' and 'container' traits.".to_string()
        )]
    );
    assert_eq!(d.all()[0].span.start_line, 7);
}
