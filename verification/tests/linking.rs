use indexmap::IndexMap;
use urd_compiler::ast::{FileAst, FrontmatterValue};
use urd_compiler::collect::{collect, WorldConfig};
use urd_compiler::diagnostics::DiagnosticCollector;
use urd_compiler::graph::FileNode;
use urd_compiler::parse::parse;
use urd_compiler::resolve::resolve;
use urd_compiler::symbol_table::{PropertyType, SymbolTable, Value};

fn empty_table() -> SymbolTable {
    SymbolTable {
        types: IndexMap::new(),
        entities: IndexMap::new(),
        sections: IndexMap::new(),
        locations: IndexMap::new(),
        actions: IndexMap::new(),
        rules: IndexMap::new(),
        sequences: IndexMap::new(),
        duplicates: vec![],
        world_start: None,
        world_entry: None,
    }
}

fn parsed(path: &str, src: &str) -> FileAst {
    let mut d = DiagnosticCollector::new();
    let ast = parse(path, src, &mut d).expect("parses");
    assert!(!ast.slice_fault);
    ast
}

fn node(path: &str, src: &str, imports: &[&str]) -> FileNode {
    FileNode { path: path.to_string(), ast: parsed(path, src), imports: imports.iter().map(|s| s.to_string()).collect() }
}

fn messages(d: &DiagnosticCollector) -> Vec<(String, String)> {
    d.all().iter().map(|x| (x.code.clone(), x.message.clone())).collect()
}

const WORLD: &str = "---
types:
  Door [interactable]:
    locked: boolean = true
    locked: integer
  Door:
    open: boolean
entities:
  @front: Door { locked: false, locked: true }
  @front: Door
world:
  start: Cellar Room
  entry: night-falls
---
# Cellar Room
-> north: Hall
-> north: Attic
[@front]
== talk
* Ask about the door
  * Knock twice
* Ask about the door
+ Leave
== talk
## Night Falls
### Dusk (auto)
### Dawn
# Cellar Room
";

#[test]
fn collection_registers_every_declaration_once() {
    let nodes = vec![node("world.urd.md", WORLD, &[])];
    let mut t = empty_table();
    let mut w = WorldConfig::new();
    let mut d = DiagnosticCollector::new();
    let contexts = collect(&nodes, &mut t, &mut w, &mut d);
    assert_eq!(
        messages(&d),
        vec![
            ("URD303".to_string(), "Duplicate type name 'Door' declared in world.urd.md:3 and world.urd.md:6.".to_string()),
            ("URD302".to_string(), "Duplicate entity ID '@front' declared in world.urd.md:9 and world.urd.md:10.".to_string()),
            (
                "URD306".to_string(),
                "Duplicate choice ID 'world/talk/ask-about-the-door' in section 'world/talk'. Choices 'Ask about the door' and 'Ask about the door' produce the same slugified ID.".to_string()
            ),
            ("URD305".to_string(), "Duplicate section name 'talk' in world.urd.md. Section names must be unique within a file.".to_string()),
            (
                "URD304".to_string(),
                "Duplicate location ID 'cellar-room' \u{2014} locations 'Cellar Room' and 'Cellar Room' both slugify to 'cellar-room'.".to_string()
            ),
        ]
    );
    // Types: the later `locked` replaces the earlier in place.
    let door = &t.types["Door"];
    assert_eq!(door.traits, vec!["interactable".to_string()]);
    assert_eq!(door.properties.len(), 1);
    assert_eq!(door.properties[0].name, "locked");
    assert_eq!(door.properties[0].property_type, PropertyType::Integer);
    assert!(door.properties[0].default.is_none());
    // Entities: overrides keyed by name, type not yet resolved.
    let front = &t.entities["front"];
    assert_eq!(front.entity_type, "Door");
    assert!(front.type_symbol.is_none());
    assert_eq!(front.property_overrides.len(), 1);
    assert!(matches!(&front.property_overrides[0], (k, Value::Boolean(true)) if k == "locked"));
    // World block.
    assert_eq!(w.start.as_ref().map(|p| p.0.as_str()), Some("Cellar Room"));
    assert_eq!(w.entry.as_ref().map(|p| p.0.as_str()), Some("night-falls"));
    // Locations: one exit per direction, the later replacing the earlier.
    assert_eq!(t.locations.keys().cloned().collect::<Vec<_>>(), vec!["cellar-room".to_string()]);
    let cellar = &t.locations["cellar-room"];
    assert_eq!(cellar.display_name, "Cellar Room");
    assert_eq!(cellar.exits.len(), 1);
    assert_eq!(cellar.exits[0].direction, "north");
    assert_eq!(cellar.exits[0].destination, "Attic");
    assert!(cellar.exits[0].resolved_destination.is_none());
    assert_eq!(cellar.declared_in.start_line, 15);
    // Sections and choices.
    let talk = &t.sections["world/talk"];
    assert_eq!(talk.local_name, "talk");
    assert_eq!(talk.file_stem, "world");
    let ids: Vec<&str> = talk.choices.iter().map(|c| c.compiled_id.as_str()).collect();
    assert_eq!(ids, vec!["world/talk/ask-about-the-door", "world/talk/knock-twice", "world/talk/leave"]);
    assert!(talk.choices[2].sticky);
    assert_eq!(
        t.actions.keys().cloned().collect::<Vec<_>>(),
        vec!["world/talk/ask-about-the-door".to_string(), "world/talk/knock-twice".to_string(), "world/talk/leave".to_string()]
    );
    // Sequences and phases.
    let night = &t.sequences["night-falls"];
    let phases: Vec<(&str, &str)> = night.phases.iter().map(|p| (p.id.as_str(), p.advance.as_str())).collect();
    assert_eq!(phases, vec![("dusk", "auto"), ("dawn", "manual")]);
    // Duplicates, in the order found.
    let dups: Vec<(&str, &str)> = t.duplicates.iter().map(|x| (x.namespace, x.name.as_str())).collect();
    assert_eq!(
        dups,
        vec![
            ("types", "Door"),
            ("entities", "front"),
            ("choices", "world/talk/ask-about-the-door"),
            ("sections", "world/talk"),
            ("locations", "cellar-room"),
        ]
    );
    // The file's context.
    assert_eq!(contexts.len(), 1);
    assert_eq!(contexts[0].file_stem, "world");
    assert_eq!(contexts[0].visible_scope, vec!["world.urd.md".to_string()]);
    assert_eq!(contexts[0].local_sections["talk"], "world/talk");
}

#[test]
fn resolution_fills_types_world_and_placements() {
    let mut nodes = vec![node("world.urd.md", WORLD, &[])];
    let mut t = empty_table();
    let mut w = WorldConfig::new();
    let mut d = DiagnosticCollector::new();
    let contexts = collect(&nodes, &mut t, &mut w, &mut d);
    let mut d2 = DiagnosticCollector::new();
    resolve(&mut nodes, &mut t, &w, &contexts, &mut d2);
    assert_eq!(t.world_start.as_deref(), Some("cellar-room"));
    assert_eq!(t.world_entry.as_deref(), Some("night-falls"));
    assert_eq!(t.entities["front"].type_symbol.as_deref(), Some("Door"));
    assert_eq!(t.locations["cellar-room"].contains, vec!["front".to_string()]);
    // The entity declaration is annotated with its entity and type.
    let fm = nodes[0].ast.frontmatter.as_ref().unwrap();
    let mut annotated = 0;
    for e in &fm.entries {
        if let FrontmatterValue::Mapping(es) = &e.value {
            for x in es {
                if let FrontmatterValue::EntityDecl(ed) = &x.value {
                    let a = ed.annotation.as_ref().expect("annotated");
                    assert_eq!(a.resolved_entity.as_deref(), Some("front"));
                    assert_eq!(a.resolved_type.as_deref(), Some("Door"));
                    annotated += 1;
                }
            }
        }
    }
    assert_eq!(annotated, 2);
}

#[test]
fn entity_types_are_checked_against_scope_and_properties() {
    let lib = "---\ntypes:\n  Door:\n    locked: boolean\n---\n";
    let main = "---\nentities:\n  @gate: Door { colour: red }\n  @hatch: Dor\n---\n";
    let own = "---\nimport: ./lib.urd.md\nentities:\n  @trap: Door { colour: red, container: box }\n---\n";
    let mut nodes = vec![
        node("lib.urd.md", lib, &[]),
        node("main.urd.md", main, &[]),
        node("own.urd.md", own, &["lib.urd.md"]),
    ];
    let mut t = empty_table();
    let mut w = WorldConfig::new();
    let mut d = DiagnosticCollector::new();
    let contexts = collect(&nodes, &mut t, &mut w, &mut d);
    assert!(d.all().is_empty(), "{:?}", d.all());
    let mut d2 = DiagnosticCollector::new();
    resolve(&mut nodes, &mut t, &w, &contexts, &mut d2);
    let got: Vec<(String, String, Option<String>)> =
        d2.all().iter().map(|x| (x.code.clone(), x.message.clone(), x.suggestion.clone())).collect();
    assert_eq!(
        got,
        vec![
            (
                "URD301".to_string(),
                "Unresolved type reference 'Door'.".to_string(),
                Some("'Door' is declared in lib.urd.md but lib.urd.md is not imported by main.urd.md.".to_string())
            ),
            ("URD307".to_string(), "Unknown type 'Dor' for entity '@hatch'.".to_string(), Some("Did you mean 'Door'?".to_string())),
            ("URD308".to_string(), "Property 'colour' does not exist on type 'Door'.".to_string(), None),
        ]
    );
    assert!(t.entities["gate"].type_symbol.is_none());
    assert_eq!(t.entities["trap"].type_symbol.as_deref(), Some("Door"));
}
