use urd_compiler::compile::{compile_source, compile_source_with_reader};
use urd_compiler::diagnostics::{DiagnosticCollector, Severity};
use urd_compiler::import::{FileReadError, FileReader};

struct MemReader {
    files: Vec<(String, String)>,
}

impl FileReader for MemReader {
    fn read_file(&self, fs_path: &str) -> Result<String, FileReadError> {
        for (p, src) in &self.files {
            if p == fs_path {
                return Ok(src.clone());
            }
        }
        Err(FileReadError::NotFound)
    }

    fn canonical_filename(&self, _dir: &str, _filename: &str) -> Option<String> {
        None
    }
}

fn codes(d: &DiagnosticCollector) -> Vec<String> {
    d.all().iter().map(|x| x.code.clone()).collect()
}

const CELLAR: &str = "---
world:
  name: The Cellar Game
  version: 2
  author: Ana
  seed: 7
types:
  Door [interactable]:
    locked: boolean = true
    weight: number = 2.5
entities:
  @door: Door { locked: false }
---
# Cellar

A damp cellar.

Cobwebs everywhere.
[@door]
-> north: Hall
  ? @door.locked == false
  ! The door is locked.

# Hall
";

#[test]
fn compile_source_reports_a_missing_import_in_single_file_mode() {
    let result = compile_source("main.urd.md", "---\nimport: ./world.urd.md\n---\n# Cell\n");
    assert!(!result.success);
    assert!(result.world.is_none());
    assert!(result.fact_set.is_none());
    assert!(result.property_index.is_none());
    assert!(result
        .diagnostics
        .all()
        .iter()
        .any(|d| d.severity == Severity::Error && d.code == "URD201"));
}

#[test]
fn a_clean_world_compiles_to_json() {
    let reader = MemReader { files: vec![] };
    let result = compile_source_with_reader("cellar.urd.md", CELLAR, &reader);
    assert!(result.success, "{:?}", codes(&result.diagnostics));
    assert_eq!(result.success, !result.diagnostics.has_errors());
    assert!(result.fact_set.is_some());
    assert!(result.property_index.is_some());
    let text = result.world.expect("world");
    assert!(text.ends_with("}\n"));
    assert!(text.starts_with("{\n  \"world\": {\n    \"name\": \"the-cellar-game\",\n    \"urd\": \"1\",\n"), "{}", text);
    let v: serde_json::Value = serde_json::from_str(&text).expect("valid JSON");
    assert_eq!(v["world"]["name"], "the-cellar-game");
    assert_eq!(v["world"]["urd"], "1");
    assert_eq!(v["world"]["version"], 2);
    assert_eq!(v["world"]["author"], "Ana");
    assert_eq!(v["world"]["seed"], 7);
    assert_eq!(v["types"]["Door"]["traits"][0], "interactable");
    assert_eq!(v["types"]["Door"]["properties"]["locked"]["type"], "boolean");
    assert_eq!(v["types"]["Door"]["properties"]["locked"]["default"], true);
    assert_eq!(v["types"]["Door"]["properties"]["weight"]["type"], "number");
    assert_eq!(v["types"]["Door"]["properties"]["weight"]["default"], 2.5);
    assert_eq!(v["entities"]["door"]["type"], "Door");
    assert_eq!(v["entities"]["door"]["properties"]["locked"], false);
    let keys: Vec<&String> = v["world"].as_object().expect("object").keys().collect();
    assert_eq!(keys, vec!["name", "urd", "version", "author", "seed"]);
}

#[test]
fn compiling_twice_gives_the_same_text() {
    let reader = MemReader { files: vec![] };
    let a = compile_source_with_reader("cellar.urd.md", CELLAR, &reader);
    let b = compile_source_with_reader("cellar.urd.md", CELLAR, &reader);
    assert_eq!(a.world, b.world);
    assert!(a.world.is_some());
}

#[test]
fn a_world_without_a_world_block_still_has_urd() {
    let result = compile_source("room.urd.md", "# Room\n\nA quiet room.\n");
    assert!(result.success, "{:?}", codes(&result.diagnostics));
    let v: serde_json::Value = serde_json::from_str(&result.world.expect("world")).expect("valid JSON");
    assert_eq!(v["world"]["urd"], "1");
    assert!(v.get("types").is_none());
    assert!(v.get("entities").is_none());
}

#[test]
fn an_error_leaves_no_world_but_keeps_the_facts() {
    let result = compile_source("room.urd.md", "---\nentities:\n  @box: Crate\n---\n# Room\n");
    assert!(!result.success);
    assert!(result.diagnostics.has_errors());
    assert!(result.world.is_none());
    assert!(result.fact_set.is_some());
    assert!(result.property_index.is_some());
}

#[test]
fn imports_are_read_through_the_reader() {
    let reader = MemReader {
        files: vec![("game/hall.urd.md".to_string(), "# Hall\n".to_string())],
    };
    let result = compile_source_with_reader("game/tavern.urd.md", "---\nimport: ./hall.urd.md\n---\n# Tavern\n-> west: Hall\n", &reader);
    assert!(result.success, "{:?}", codes(&result.diagnostics));
    assert!(result.world.is_some());
}

#[test]
fn locations_carry_description_contents_and_exits() {
    let reader = MemReader { files: vec![] };
    let result = compile_source_with_reader("cellar.urd.md", CELLAR, &reader);
    assert!(result.success, "{:?}", codes(&result.diagnostics));
    let v: serde_json::Value = serde_json::from_str(&result.world.expect("world")).expect("valid JSON");
    let cellar = &v["locations"]["cellar"];
    assert_eq!(cellar["description"], "A damp cellar.\n\nCobwebs everywhere.");
    assert_eq!(cellar["contains"][0], "door");
    let north = &cellar["exits"]["north"];
    assert_eq!(north["to"], "hall");
    assert_eq!(north["condition"], "door.locked == false");
    assert_eq!(north["blocked_message"], "The door is locked.");
    assert!(north.get("effects").is_none());
    assert!(v["locations"]["hall"].as_object().expect("hall").is_empty());
    let keys: Vec<&String> = v.as_object().expect("root").keys().collect();
    assert_eq!(keys, vec!["world", "types", "entities", "locations"]);
}

#[test]
fn sequences_list_their_phases() {
    let result = compile_source("story.urd.md", "# Yard\n\n## Night Falls\n### Dusk (auto)\n### Dawn\n");
    assert!(result.success, "{:?}", codes(&result.diagnostics));
    let v: serde_json::Value = serde_json::from_str(&result.world.expect("world")).expect("valid JSON");
    let seqs = v["sequences"].as_object().expect("sequences");
    assert_eq!(seqs.len(), 1);
    let phases = seqs.values().next().expect("one").get("phases").expect("phases").as_array().expect("array").clone();
    assert_eq!(phases.len(), 2);
    assert_eq!(phases[0]["auto"], true);
    assert_eq!(phases[0]["advance"], "auto");
    assert!(phases[1].get("auto").is_none());
    assert!(phases[1]["id"].is_string());
}

#[test]
fn actions_carry_their_choice_conditions_and_effects() {
    let src = "---
types:
  Door:
    locked: boolean = true
entities:
  @door: Door
---
# Cellar
[@door]

== talk
* Open the door
  ? @door.locked == true
  > @door.locked = false
  -> end
";
    let result = compile_source("main.urd.md", src);
    assert!(result.success, "{:?}", codes(&result.diagnostics));
    let v: serde_json::Value = serde_json::from_str(&result.world.expect("world")).expect("valid JSON");
    let actions = v["actions"].as_object().expect("actions");
    let (_, action) = actions.iter().find(|(k, _)| k.ends_with("open-the-door")).expect("the choice's action");
    assert_eq!(action["conditions"][0], "door.locked == true");
    assert_eq!(action["effects"][0]["set"], "door.locked");
    assert_eq!(action["effects"][0]["to"], false);
}

#[test]
fn rules_carry_actor_trigger_and_effects() {
    let src = "---\ntypes:\n  Door:\n    locked: boolean = true\nentities:\n  @door: Door\n---\n# Cellar\n[@door]\n\nrule lock_door:\n  actor: @door close\n  > @door.locked = true\n";
    let result = compile_source("main.urd.md", src);
    assert!(result.success, "{:?}", codes(&result.diagnostics));
    let v: serde_json::Value = serde_json::from_str(&result.world.expect("world")).expect("valid JSON");
    let rule = &v["rules"]["lock_door"];
    assert_eq!(rule["actor"], "door");
    assert!(rule["trigger"].is_string());
    assert_eq!(rule["effects"][0]["set"], "door.locked");
    assert_eq!(rule["effects"][0]["to"], true);
    let keys: Vec<&String> = v.as_object().expect("root").keys().collect();
    assert_eq!(keys, vec!["world", "types", "entities", "locations", "rules"]);
}
