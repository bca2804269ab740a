use urd_compiler::diagnostics::DiagnosticCollector;
use urd_compiler::graph::file_stem;
use urd_compiler::import::{collapse_dotdot, path_dir, path_filename, resolve_import_path, validate_import_path, FileReadError};
use urd_compiler::link::{edit_distance, find_suggestion, parse_property_type};
use urd_compiler::span::Span;
use urd_compiler::symbol_table::PropertyType;
use urd_compiler::validate::{format_property_type, is_recognised_type, validate_operator};

fn span() -> Span {
    Span::new("world.urd.md".to_string(), 3, 1, 3, 20)
}

#[test]
fn file_stem_strips_directory_and_extension() {
    assert_eq!(file_stem("content/tavern.urd.md"), "tavern");
    assert_eq!(file_stem("tavern.urd.md"), "tavern");
    assert_eq!(file_stem("a/b/notes.txt"), "notes.txt");
    assert_eq!(file_stem(""), "");
}

#[test]
fn dir_and_filename_split_a_path() {
    for p in ["content/rooms/hall.urd.md", "hall.urd.md", "a/", "/x", ""] {
        let d = path_dir(p);
        let f = path_filename(p);
        assert_eq!(format!("{}{}", d, f), p);
        assert!(!f.contains('/'));
    }
    assert_eq!(path_dir("content/rooms/hall.urd.md"), "content/rooms/");
    assert_eq!(path_filename("content/rooms/hall.urd.md"), "hall.urd.md");
    assert_eq!(path_dir("hall.urd.md"), "");
}

#[test]
fn collapse_resolves_dots() {
    assert_eq!(collapse_dotdot("a/./b/../c.urd.md"), Some("a/c.urd.md".to_string()));
    assert_eq!(collapse_dotdot("a//b"), Some("a/b".to_string()));
    assert_eq!(collapse_dotdot("../x"), None);
    assert_eq!(collapse_dotdot("a/../../x"), None);
    assert_eq!(collapse_dotdot(""), Some(String::new()));
}

#[test]
fn import_path_checks_in_order() {
    let mut d = DiagnosticCollector::new();
    assert!(!validate_import_path("", "world.urd.md", &span(), &mut d));
    assert_eq!(d.all()[0].code, "URD211");
    assert_eq!(d.all()[0].message, "Empty import path at world.urd.md:3.");
    assert!(!validate_import_path("/abs.urd.md", "w", &span(), &mut d));
    assert_eq!(d.all()[1].code, "URD209");
    assert!(!validate_import_path("C:stuff.urd.md", "w", &span(), &mut d));
    assert_eq!(d.all()[2].code, "URD209");
    assert!(!validate_import_path("notes.md", "w", &span(), &mut d));
    assert_eq!(d.all()[3].code, "URD210");
    assert_eq!(d.all()[3].message, "Import path 'notes.md' does not have the .urd.md extension.");
    assert!(validate_import_path("./rooms/hall.urd.md", "w", &span(), &mut d));
    assert_eq!(d.len(), 4);
}

#[test]
fn import_paths_resolve_against_importer() {
    let mut d = DiagnosticCollector::new();
    assert_eq!(
        resolve_import_path("./hall.urd.md", "content/tavern.urd.md", &span(), &mut d),
        Some("content/hall.urd.md".to_string())
    );
    assert_eq!(
        resolve_import_path("../shared/items.urd.md", "content/tavern.urd.md", &span(), &mut d),
        Some("shared/items.urd.md".to_string())
    );
    assert!(d.is_empty());
    assert_eq!(resolve_import_path("../../x.urd.md", "content/t.urd.md", &span(), &mut d), None);
    assert_eq!(d.all()[0].code, "URD208");
    assert_eq!(d.all()[0].message, "Import path '../../x.urd.md' resolves outside the project root.");
}

#[test]
fn file_read_errors_carry_their_detail() {
    let e = FileReadError::TooLarge(2_000_000);
    assert!(matches!(e, FileReadError::TooLarge(2_000_000)));
    let e2 = FileReadError::IoError("boom".to_string());
    assert!(matches!(e2, FileReadError::IoError(ref m) if m == "boom"));
}

#[test]
fn edit_distances() {
    assert_eq!(edit_distance("kitten", "sitting"), 3);
    assert_eq!(edit_distance("", "abc"), 3);
    assert_eq!(edit_distance("abc", ""), 3);
    assert_eq!(edit_distance("same", "same"), 0);
    assert_eq!(edit_distance("flaw", "lawn"), 2);
    assert_eq!(edit_distance("é", "e"), 1);
}

#[test]
fn suggestions_prefer_nearest_then_first() {
    let names = vec!["guard".to_string(), "gaurd".to_string(), "gourd".to_string(), "lamp".to_string()];
    assert_eq!(find_suggestion("guard", &names), Some("gaurd".to_string()));
    assert_eq!(find_suggestion("gord", &names), Some("gourd".to_string()));
    assert_eq!(find_suggestion("zzzzzz", &names), None);
}

#[test]
fn property_type_keywords() {
    assert_eq!(parse_property_type("bool"), PropertyType::Boolean);
    assert_eq!(parse_property_type("integer"), PropertyType::Integer);
    assert_eq!(parse_property_type("num"), PropertyType::Number);
    assert_eq!(parse_property_type("enum"), PropertyType::Enum);
    assert_eq!(parse_property_type("ref"), PropertyType::Ref);
    assert_eq!(parse_property_type("list"), PropertyType::List);
    assert_eq!(parse_property_type("str"), PropertyType::String);
    assert_eq!(parse_property_type("whatever"), PropertyType::String);
    assert_eq!(format_property_type(&PropertyType::Number), "number");
    assert_eq!(format_property_type(&parse_property_type("boolean")), "boolean");
    assert!(is_recognised_type("int"));
    assert!(!is_recognised_type("float"));
}

#[test]
fn ordering_operators_need_numbers() {
    let mut d = DiagnosticCollector::new();
    validate_operator("==", "name", PropertyType::String, &span(), &mut d);
    validate_operator(">", "trust", PropertyType::Integer, &span(), &mut d);
    assert!(d.is_empty());
    validate_operator("<=", "mood", PropertyType::Enum, &span(), &mut d);
    assert_eq!(d.len(), 1);
    assert_eq!(d.all()[0].code, "URD420");
    assert_eq!(
        d.all()[0].message,
        "Operator '<=' is not valid for property 'mood' of type 'enum'. Use == or != for non-numeric types."
    );
}
