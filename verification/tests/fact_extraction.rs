use urd_compiler::definition_index::{format_value, DefinitionIndex, DefinitionKind};
use urd_compiler::symbol_table::Value;
use urd_compiler::diagnostics::DiagnosticCollector;
use urd_compiler::extract::extract_facts;
use urd_compiler::facts::{FactSite, JumpTarget};
use urd_compiler::graph::FileNode;
use urd_compiler::parse::parse;
use urd_compiler::collect::link;

const WORLD: &str = "---
types:
  Door:
    locked: boolean = true
entities:
  @door: Door
---
# Cellar
-> north: Hall
  ? @door.locked == false

# Hall
[@door]

== talk
* Open the door
  ? @door.locked == true
  > @door.locked = false
  -> end
";

fn linked() -> (Vec<FileNode>, urd_compiler::symbol_table::SymbolTable, DiagnosticCollector) {
    let mut d = DiagnosticCollector::new();
    let ast = parse("main.urd.md", WORLD, &mut d).expect("parses");
    let mut nodes = vec![FileNode { path: "main.urd.md".to_string(), ast, imports: vec![] }];
    let table = link(&mut nodes, &mut d);
    (nodes, table, d)
}

#[test]
fn facts_follow_the_world() {
    let (nodes, table, d) = linked();
    let codes: Vec<String> = d.all().iter().map(|x| x.code.clone()).collect();
    assert!(codes.is_empty(), "{:?}", codes);
    let fs = extract_facts(&nodes, &table);
    assert_eq!(fs.exits().len(), 1);
    assert_eq!(fs.exits()[0].from_location, "cellar");
    assert_eq!(fs.exits()[0].to_location, "hall");
    assert_eq!(fs.exits()[0].exit_name, "north");
    assert!(fs.exits()[0].is_conditional);
    assert_eq!(fs.exits()[0].guard_reads, vec![0]);
    assert_eq!(fs.reads().len(), 2);
    assert!(matches!(&fs.reads()[0].site, FactSite::Exit(id) if id == "cellar/north"));
    assert_eq!(fs.reads()[0].value_literal, "false");
    assert_eq!(fs.writes().len(), 1);
    assert_eq!(fs.writes()[0].value_expr, "false");
    assert_eq!(fs.choices().len(), 1);
    let c = &fs.choices()[0];
    assert_eq!(c.label, "Open the door");
    assert_eq!(c.condition_reads, vec![1]);
    assert_eq!(c.effect_writes, vec![0]);
    assert!(matches!(&fs.reads()[1].site, FactSite::Choice(id) if *id == c.choice_id));
    assert!(matches!(&fs.writes()[0].site, FactSite::Choice(id) if *id == c.choice_id));
    assert_eq!(fs.jumps().len(), 1);
    assert!(matches!(fs.jumps()[0].target, JumpTarget::End));
    assert_eq!(fs.jumps()[0].from_section, c.section);
}

#[test]
fn facts_of_unresolved_world_are_empty() {
    let mut d = DiagnosticCollector::new();
    let ast = parse("main.urd.md", "# Cellar\n\nJust prose.\n", &mut d).expect("parses");
    let nodes = vec![FileNode { path: "main.urd.md".to_string(), ast, imports: vec![] }];
    let mut nodes2 = nodes;
    let table = link(&mut nodes2, &mut d);
    let fs = extract_facts(&nodes2, &table);
    assert_eq!(fs.reads().len(), 0);
    assert_eq!(fs.exits().len(), 0);
    assert_eq!(fs.choices().len(), 0);
}

#[test]
fn definition_index_lists_every_declaration() {
    let (_nodes, table, _d) = linked();
    let idx = DefinitionIndex::build(&table);
    assert!(matches!(idx.get("type:Door").expect("type").kind, DefinitionKind::Type));
    match &idx.get("prop:Door.locked").expect("prop").kind {
        DefinitionKind::Property { owner_type, property_type, default_repr } => {
            assert_eq!(owner_type, "Door");
            assert_eq!(property_type, "boolean");
            assert_eq!(default_repr.as_deref(), Some("true"));
        }
        _ => panic!("expected a property"),
    }
    match &idx.get("entity:@door").expect("entity").kind {
        DefinitionKind::Entity { entity_type } => assert_eq!(entity_type, "Door"),
        _ => panic!("expected an entity"),
    }
    match &idx.get("exit:cellar/north").expect("exit").kind {
        DefinitionKind::Exit { from_location, destination } => {
            assert_eq!(from_location, "cellar");
            assert_eq!(destination, "hall");
        }
        _ => panic!("expected an exit"),
    }
    match &idx.get("location:hall").expect("location").kind {
        DefinitionKind::Location { display_name } => assert_eq!(display_name, "Hall"),
        _ => panic!("expected a location"),
    }
    assert!(idx.get("section:main/talk").is_some());
    assert!(idx.get("type:Missing").is_none());
    // type, property, entity, two locations, one exit, one section, one choice
    assert_eq!(idx.len(), 8);
    assert_eq!(idx.keys()[0], "type:Door");
    assert_eq!(idx.keys()[1], "prop:Door.locked");
    assert!(!idx.is_empty());
}

#[test]
fn definition_value_repr_quotes_strings() {
    assert_eq!(format_value(&Value::String("hi".to_string())), "\"hi\"");
    assert_eq!(format_value(&Value::Integer(-3)), "-3");
    assert_eq!(format_value(&Value::EntityRef("door".to_string())), "@door");
    assert_eq!(
        format_value(&Value::List(vec![Value::String("a".to_string()), Value::Boolean(false)])),
        "[\"a\", false]"
    );
}

#[test]
fn rule_blocks_become_rule_facts() {
    let src = "---\ntypes:\n  Door:\n    locked: boolean = true\nentities:\n  @door: Door\n---\n# Cellar\n[@door]\n\nrule lock_door:\n  actor: @door close\n  > @door.locked = true\n";
    let mut d = DiagnosticCollector::new();
    let ast = parse("main.urd.md", src, &mut d).expect("parses");
    let mut nodes = vec![FileNode { path: "main.urd.md".to_string(), ast, imports: vec![] }];
    let rule_blocks = nodes[0].ast.content.iter().filter(|n| matches!(n, urd_compiler::ast::ContentNode::RuleBlock(_))).count();
    assert_eq!(rule_blocks, 1);
    let table = link(&mut nodes, &mut d);
    let fs = extract_facts(&nodes, &table);
    assert_eq!(fs.rules().len(), 1);
    assert_eq!(fs.rules()[0].rule_id, "lock_door");
    assert_eq!(fs.rules()[0].effect_writes.len(), 1);
}

#[test]
fn definition_index_json_lists_keys_spans_and_kinds() {
    let (_nodes, table, _d) = linked();
    let idx = DefinitionIndex::build(&table);
    let text = idx.to_json().to_text();
    let v: serde_json::Value = serde_json::from_str(&text).expect("valid JSON");
    assert_eq!(v["count"], 8);
    let defs = v["definitions"].as_array().expect("array");
    assert_eq!(defs.len(), 8);
    assert_eq!(defs[0]["key"], "type:Door");
    assert_eq!(defs[0]["definition"]["kind"], "type");
    assert_eq!(defs[1]["definition"]["kind"], "property");
    assert_eq!(defs[1]["definition"]["type_name"], "Door");
    assert_eq!(defs[1]["definition"]["default"], "true");
    assert_eq!(defs[0]["span"]["file"], "main.urd.md");
}

#[test]
fn fact_set_json_holds_every_fact() {
    let (nodes, table, _d) = linked();
    let fs = extract_facts(&nodes, &table);
    let v: serde_json::Value = serde_json::from_str(&fs.to_json().to_text()).expect("valid JSON");
    assert_eq!(v["reads"].as_array().expect("reads").len(), 2);
    assert_eq!(v["reads"][0]["site"]["kind"], "exit");
    assert_eq!(v["reads"][0]["site"]["id"], "cellar/north");
    assert_eq!(v["reads"][0]["operator"], "==");
    assert_eq!(v["writes"][0]["operator"], "=");
    assert_eq!(v["writes"][0]["value_kind"], "bool");
    assert_eq!(v["exits"][0]["guard_reads"][0], 0);
    assert_eq!(v["exits"][0]["is_conditional"], true);
    assert_eq!(v["jumps"][0]["target"]["kind"], "end");
    assert_eq!(v["choices"][0]["label"], "Open the door");
    assert_eq!(v["rules"].as_array().expect("rules").len(), 0);
}
