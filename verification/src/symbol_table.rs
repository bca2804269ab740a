//! The symbol table: global registry of declared names.
//!
//! LINK populates it during the collection sub-pass and queries it during
//! the resolution sub-pass. Every namespace is an `IndexMap`, so that
//! insertion order is preserved for deterministic output.

use vstd::prelude::*;
use crate::span::Span;
use crate::ast::ConditionExpr;
use indexmap::IndexMap;

verus! {

/// A duplicate declaration recorded for diagnostic purposes.
/// The canonical (first) declaration remains in the namespace map.
#[derive(Debug)]
pub struct Duplicate {
    pub namespace: &'static str,
    pub name: String,
    pub declared_in: Span,
}

/// Property type discriminator.
#[derive(Debug, Clone, Copy, PartialEq, Eq, Structural)]
pub enum PropertyType {
    Boolean,
    Integer,
    Number,
    String,
    Enum,
    Ref,
    List,
}

/// Visibility discriminator for properties.
#[derive(Debug, Clone, Copy, PartialEq, Eq, Structural)]
pub enum Visibility {
    Visible,
    Hidden,
}

impl Default for Visibility {
    fn default() -> (v: Self)
        ensures
            v == Visibility::Visible,
    {
        Visibility::Visible
    }
}

/// A section symbol (`== name`).
#[derive(Debug)]
pub struct SectionSymbol {
    pub local_name: String,
    pub compiled_id: String,
    pub file_stem: String,
    pub choices: Vec<ChoiceSymbol>,
    pub declared_in: Span,
}

/// A choice within a section.
#[derive(Debug)]
pub struct ChoiceSymbol {
    pub label: String,
    pub compiled_id: String,
    pub sticky: bool,
    pub declared_in: Span,
}

/// An exit within a location.
#[derive(Debug)]
pub struct ExitSymbol {
    pub direction: String,
    pub destination: String,
    pub resolved_destination: Option<String>,
    /// Index into the AST's content nodes for the Condition, if present.
    pub condition_node: Option<AstNodeRef>,
    /// Index into the AST's content nodes for the BlockedMessage, if present.
    pub blocked_message_node: Option<AstNodeRef>,
    pub declared_in: Span,
}

/// A lightweight reference to an AST node (file path + node index).
#[derive(Debug)]
pub struct AstNodeRef {
    pub file: crate::span::FilePath,
    pub node_index: usize,
}

/// An action symbol (either frontmatter-declared or choice-derived).
#[derive(Debug)]
pub struct ActionSymbol {
    pub id: String,
    pub target: Option<String>,
    pub target_type: Option<String>,
    pub declared_in: Span,
}

/// A rule symbol.
#[derive(Debug)]
pub struct RuleSymbol {
    pub id: String,
    pub actor: String,
    pub trigger: String,
    pub select: Option<SelectDef>,
    pub declared_in: Span,
}

/// A sequence symbol (`## Heading`).
#[derive(Debug)]
pub struct SequenceSymbol {
    pub id: String,
    pub phases: Vec<PhaseSymbol>,
    pub declared_in: Span,
}

/// A phase within a sequence (`### Heading`).
#[derive(Debug)]
pub struct PhaseSymbol {
    pub id: String,
    pub advance: String,
    pub action: Option<String>,
    pub actions: Option<Vec<String>>,
    pub rule: Option<String>,
    pub declared_in: Span,
}

/// The `selects...from...where` definition stored on a `RuleSymbol`.
#[derive(Debug)]
pub struct SelectDef {
    pub variable: String,
    pub from: Vec<String>,
    pub where_clauses: Vec<ConditionExpr>,
    pub span: Span,
}


/// A scalar value in the symbol table (property defaults, overrides). A
/// number is kept as the text it was written with.
#[derive(Debug)]
pub enum Value {
    String(String),
    Integer(i64),
    Number(String),
    Boolean(bool),
    List(Vec<Value>),
    EntityRef(String),
}

/// A type definition symbol.
#[derive(Debug)]
pub struct TypeSymbol {
    pub name: String,
    pub traits: Vec<String>,
    pub properties: Vec<PropertySymbol>,
    pub declared_in: Span,
}

/// A property within a type.
#[derive(Debug)]
pub struct PropertySymbol {
    pub name: String,
    pub property_type: PropertyType,
    /// The type as written in the definition.
    pub raw_type_string: String,
    pub default: Option<Value>,
    pub visibility: Visibility,
    pub values: Option<Vec<String>>,
    pub ref_type: Option<String>,
    pub element_type: Option<PropertyType>,
    pub element_values: Option<Vec<String>>,
    pub element_ref_type: Option<String>,
    pub description: Option<String>,
    pub declared_in: Span,
}

/// An entity declaration symbol.
#[derive(Debug)]
pub struct EntitySymbol {
    pub id: String,
    pub entity_type: String,
    pub type_symbol: Option<String>,
    pub property_overrides: Vec<(String, Value)>,
    pub declared_in: Span,
}

/// A location symbol (`# Heading`), with its exits in declaration order
/// (one per direction) and the entities placed in it.
#[derive(Debug)]
pub struct LocationSymbol {
    pub id: String,
    pub display_name: String,
    pub exits: Vec<ExitSymbol>,
    pub contains: Vec<String>,
    pub declared_in: Span,
}

/// The compiler's global symbol table: seven ordered namespaces, the
/// duplicates found (for diagnostics only), and the resolved world
/// configuration.
#[derive(Debug)]
pub struct SymbolTable {
    pub types: IndexMap<String, TypeSymbol>,
    pub entities: IndexMap<String, EntitySymbol>,
    pub sections: IndexMap<String, SectionSymbol>,
    pub locations: IndexMap<String, LocationSymbol>,
    pub actions: IndexMap<String, ActionSymbol>,
    pub rules: IndexMap<String, RuleSymbol>,
    pub sequences: IndexMap<String, SequenceSymbol>,
    pub duplicates: Vec<Duplicate>,
    /// Resolved `world.start` → location ID.
    pub world_start: Option<String>,
    /// Resolved `world.entry` → sequence ID.
    pub world_entry: Option<String>,
}

impl Clone for AstNodeRef {
    fn clone(&self) -> (r: Self)
        ensures
            r == *self,
    {
        AstNodeRef { file: self.file.clone(), node_index: self.node_index }
    }
}

} // verus!
