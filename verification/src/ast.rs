//! AST node types for the content region of Urd Schema Markdown.
//!
//! The AST is the central data structure. PARSE produces it, every
//! subsequent phase reads it, and LINK annotates it.
//!
//! Design principles:
//! - File-scoped: each file produces its own tree, never merged.
//! - Annotatable: nodes carry optional annotation slots that LINK fills in.
//! - Span-tracked: every node records its exact source position.

use vstd::prelude::*;
use crate::span::{Span, SpanV, span_view};

verus! {

// ── Frontmatter-specific nodes ──

/// `import: ./path.urd.md`
#[derive(Debug)]
pub struct ImportDecl {
    pub path: String,
    pub span: Span,
}

// ── Content nodes ──

/// A node in the narrative content region of a `.urd.md` file.
#[derive(Debug)]
pub enum ContentNode {
    LocationHeading(LocationHeading),
    SequenceHeading(SequenceHeading),
    PhaseHeading(PhaseHeading),
    SectionLabel(SectionLabel),
    EntityPresence(EntityPresence),
    EntitySpeech(EntitySpeech),
    StageDirection(StageDirection),
    Prose(Prose),
    Choice(Choice),
    Condition(Condition),
    OrConditionBlock(OrConditionBlock),
    Effect(Effect),
    Jump(Jump),
    ExitDeclaration(ExitDeclaration),
    BlockedMessage(BlockedMessage),
    RuleBlock(RuleBlock),
    Comment(Comment),
    ErrorNode(ErrorNode),
}

/// `# Display Name` — a location heading.
#[derive(Debug)]
pub struct LocationHeading {
    pub display_name: String,
    pub span: Span,
}

/// `## Display Name` — a sequence heading.
#[derive(Debug)]
pub struct SequenceHeading {
    pub display_name: String,
    pub span: Span,
}

/// `### Name (auto)` — a phase heading.
#[derive(Debug)]
pub struct PhaseHeading {
    pub display_name: String,
    pub auto: bool,
    pub span: Span,
}

/// `== name` — a section label.
#[derive(Debug)]
pub struct SectionLabel {
    pub name: String,
    pub span: Span,
}

/// `[@arina, @barrel]` — entity presence in a location.
#[derive(Debug)]
pub struct EntityPresence {
    pub entity_refs: Vec<String>,
    pub annotations: Vec<Option<Annotation>>,
    pub span: Span,
}

/// `@arina: What'll it be?` — entity speech.
#[derive(Debug)]
pub struct EntitySpeech {
    pub entity_ref: String,
    pub text: String,
    pub annotation: Option<Annotation>,
    pub span: Span,
}

/// `@arina leans in close.` — stage direction.
#[derive(Debug)]
pub struct StageDirection {
    pub entity_ref: String,
    pub text: String,
    pub annotation: Option<Annotation>,
    pub span: Span,
}

/// Plain narrative text.
#[derive(Debug)]
pub struct Prose {
    pub text: String,
    pub span: Span,
}

/// `*` or `+` choice with nested content.
#[derive(Debug)]
pub struct Choice {
    pub sticky: bool,
    pub label: String,
    pub target: Option<String>,
    pub target_type: Option<String>,
    pub content: Vec<ContentNode>,
    pub indent_level: usize,
    pub annotation: Option<Annotation>,
    pub span: Span,
}

/// `? expression` — a condition.
#[derive(Debug)]
pub struct Condition {
    pub expr: ConditionExpr,
    pub indent_level: usize,
    pub span: Span,
}

/// `? any:` block with multiple bare condition expressions.
#[derive(Debug)]
pub struct OrConditionBlock {
    pub conditions: Vec<ConditionExpr>,
    pub indent_level: usize,
    pub span: Span,
}

/// `> effect` — an effect node.
#[derive(Debug)]
pub struct Effect {
    pub effect_type: EffectType,
    pub indent_level: usize,
    pub annotation: Option<Annotation>,
    pub span: Span,
}

/// `-> name` or `-> exit:name` — a jump.
#[derive(Debug)]
pub struct Jump {
    pub target: String,
    pub is_exit_qualified: bool,
    pub indent_level: usize,
    pub annotation: Option<Annotation>,
    pub span: Span,
}

/// `-> direction: Destination` — an exit declaration.
#[derive(Debug)]
pub struct ExitDeclaration {
    pub direction: String,
    pub destination: String,
    pub children: Vec<ContentNode>,
    pub annotation: Option<Annotation>,
    pub span: Span,
}

/// `! message` — a blocked message.
#[derive(Debug)]
pub struct BlockedMessage {
    pub text: String,
    pub indent_level: usize,
    pub span: Span,
}

/// `// text` — a comment, retained for potential LSP use.
#[derive(Debug)]
pub struct Comment {
    pub text: String,
    pub span: Span,
}

/// A syntax error marker — PARSE places these where recovery occurred.
#[derive(Debug)]
pub struct ErrorNode {
    pub raw_text: String,
    pub attempted_rule: Option<String>,
    pub span: Span,
}

// ── Rule blocks ──

/// `rule name:` block — a complete rule definition.
#[derive(Debug)]
pub struct RuleBlock {
    pub name: String,
    pub actor: String,
    pub trigger: String,
    pub select: Option<SelectClause>,
    pub where_clauses: Vec<ConditionExpr>,
    pub effects: Vec<Effect>,
    pub span: Span,
}

/// The `selects...from...where` clause inside a rule block.
#[derive(Debug)]
pub struct SelectClause {
    pub variable: String,
    pub entity_refs: Vec<String>,
    pub where_clauses: Vec<ConditionExpr>,
    pub span: Span,
}

// ── Condition expressions ──

/// Discriminated union of condition expression types.
#[derive(Debug)]
pub enum ConditionExpr {
    PropertyComparison(PropertyComparison),
    ContainmentCheck(ContainmentCheck),
    ExhaustionCheck(ExhaustionCheck),
}

/// `@entity.property op value`
#[derive(Debug)]
pub struct PropertyComparison {
    pub entity_ref: String,
    pub property: String,
    pub operator: String,
    pub value: String,
    pub annotation: Option<Annotation>,
    pub span: Span,
}

/// `@entity in container` or `@entity not in container`
#[derive(Debug)]
pub struct ContainmentCheck {
    pub entity_ref: String,
    pub container_ref: String,
    pub negated: bool,
    pub annotation: Option<Annotation>,
    pub span: Span,
}

/// `exhausted section_name`
#[derive(Debug)]
pub struct ExhaustionCheck {
    pub section_name: String,
    pub annotation: Option<Annotation>,
    pub span: Span,
}

// ── Effect subtypes ──

/// Discriminated effect types.
#[derive(Debug)]
pub enum EffectType {
    /// `> @entity.prop = value` or `> @entity.prop + N`
    Assign {
        target_prop: String,
        operator: String,
        value_expr: String,
    },
    /// `> move @entity -> container`
    Move {
        entity_ref: String,
        destination_ref: String,
    },
    /// `> reveal @entity.prop`
    Reveal {
        target_prop: String,
    },
    /// `> destroy @entity`
    Destroy {
        entity_ref: String,
    },
}

// ── Annotations ──

/// Discriminator for container references in ContainmentCheck.
#[derive(Debug)]
pub enum ContainerKind {
    KeywordPlayer,
    KeywordHere,
    EntityRef(String),
    LocationRef(String),
}

/// Discriminator for destination references in Move effects.
#[derive(Debug)]
pub enum DestinationKind {
    KeywordPlayer,
    KeywordHere,
    EntityRef(String),
    LocationRef(String),
}

/// Annotation slot populated by LINK during the resolution sub-pass.
/// Initially `None` on all fields — LINK fills in resolved references.
#[derive(Debug)]
pub struct Annotation {
    pub resolved_entity: Option<String>,
    pub resolved_type: Option<String>,
    pub resolved_section: Option<String>,
    pub resolved_property: Option<String>,
    pub resolved_location: Option<String>,
    pub container_kind: Option<ContainerKind>,
    pub destination_kind: Option<DestinationKind>,
}

impl Default for Annotation {
    fn default() -> (a: Self)
        ensures
            a.resolved_entity is None,
            a.resolved_type is None,
            a.resolved_section is None,
            a.resolved_property is None,
            a.resolved_location is None,
            a.container_kind is None,
            a.destination_kind is None,
    {
        Annotation {
            resolved_entity: None,
            resolved_type: None,
            resolved_section: None,
            resolved_property: None,
            resolved_location: None,
            container_kind: None,
            destination_kind: None,
        }
    }
}

// ── Views ──
//
// The parser's contracts describe the nodes it builds through these
// views: every string by its characters, every span by its file and
// positions, every annotation slot by whether it is filled.

pub open spec fn opt_view(o: Option<String>) -> Option<Seq<char>> {
    match o {
        Some(s) => Some(s@),
        None => None,
    }
}

pub open spec fn strings_view(v: Seq<String>) -> Seq<Seq<char>> {
    v.map_values(|s: String| s@)
}

/// A condition expression as the parser describes it; `bare` tells that
/// its annotation slot is empty.
pub enum CondV {
    Comparison { entity_ref: Seq<char>, property: Seq<char>, operator: Seq<char>, value: Seq<char>, bare: bool, span: SpanV },
    Containment { entity_ref: Seq<char>, container_ref: Seq<char>, negated: bool, bare: bool, span: SpanV },
    Exhaustion { section_name: Seq<char>, bare: bool, span: SpanV },
}

pub open spec fn cond_view(c: ConditionExpr) -> CondV {
    match c {
        ConditionExpr::PropertyComparison(p) => CondV::Comparison {
            entity_ref: p.entity_ref@, property: p.property@, operator: p.operator@, value: p.value@,
            bare: p.annotation is None, span: span_view(p.span),
        },
        ConditionExpr::ContainmentCheck(p) => CondV::Containment {
            entity_ref: p.entity_ref@, container_ref: p.container_ref@, negated: p.negated,
            bare: p.annotation is None, span: span_view(p.span),
        },
        ConditionExpr::ExhaustionCheck(p) => CondV::Exhaustion {
            section_name: p.section_name@, bare: p.annotation is None, span: span_view(p.span),
        },
    }
}

pub open spec fn conds_view(v: Seq<ConditionExpr>) -> Seq<CondV> {
    v.map_values(|c: ConditionExpr| cond_view(c))
}

/// An effect type by its strings.
pub enum EffectV {
    Assign { target_prop: Seq<char>, operator: Seq<char>, value_expr: Seq<char> },
    Move { entity_ref: Seq<char>, destination_ref: Seq<char> },
    Reveal { target_prop: Seq<char> },
    Destroy { entity_ref: Seq<char> },
}

pub open spec fn effect_type_view(e: EffectType) -> EffectV {
    match e {
        EffectType::Assign { target_prop, operator, value_expr } =>
            EffectV::Assign { target_prop: target_prop@, operator: operator@, value_expr: value_expr@ },
        EffectType::Move { entity_ref, destination_ref } =>
            EffectV::Move { entity_ref: entity_ref@, destination_ref: destination_ref@ },
        EffectType::Reveal { target_prop } => EffectV::Reveal { target_prop: target_prop@ },
        EffectType::Destroy { entity_ref } => EffectV::Destroy { entity_ref: entity_ref@ },
    }
}

/// An effect line: its type, indent level, whether its annotation slot is
/// empty, and its span.
pub type EffectLineV = (EffectV, nat, bool, SpanV);

pub open spec fn effect_view(e: Effect) -> EffectLineV {
    (effect_type_view(e.effect_type), e.indent_level as nat, e.annotation is None, span_view(e.span))
}

pub open spec fn effects_view(v: Seq<Effect>) -> Seq<EffectLineV> {
    v.map_values(|e: Effect| effect_view(e))
}

/// A select clause: variable, entity references, its where clauses, span.
pub type SelectV = (Seq<char>, Seq<Seq<char>>, Seq<CondV>, SpanV);

pub open spec fn select_view(s: Option<SelectClause>) -> Option<SelectV> {
    match s {
        Some(c) => Some((c.variable@, strings_view(c.entity_refs@), conds_view(c.where_clauses@), span_view(c.span))),
        None => None,
    }
}

/// A content node as the parser describes it.
pub enum NodeV {
    LocationHeading { display_name: Seq<char>, span: SpanV },
    SequenceHeading { display_name: Seq<char>, span: SpanV },
    PhaseHeading { display_name: Seq<char>, auto: bool, span: SpanV },
    SectionLabel { name: Seq<char>, span: SpanV },
    EntityPresence { entity_refs: Seq<Seq<char>>, bare: Seq<bool>, span: SpanV },
    EntitySpeech { entity_ref: Seq<char>, text: Seq<char>, bare: bool, span: SpanV },
    StageDirection { entity_ref: Seq<char>, text: Seq<char>, bare: bool, span: SpanV },
    Prose { text: Seq<char>, span: SpanV },
    Choice {
        sticky: bool,
        label: Seq<char>,
        target: Option<Seq<char>>,
        target_type: Option<Seq<char>>,
        content: Seq<NodeV>,
        indent_level: nat,
        bare: bool,
        span: SpanV,
    },
    Condition { expr: CondV, indent_level: nat, span: SpanV },
    OrConditionBlock { conditions: Seq<CondV>, indent_level: nat, span: SpanV },
    Effect { effect: EffectLineV },
    Jump { target: Seq<char>, is_exit_qualified: bool, indent_level: nat, bare: bool, span: SpanV },
    ExitDeclaration { direction: Seq<char>, destination: Seq<char>, children: Seq<NodeV>, bare: bool, span: SpanV },
    BlockedMessage { text: Seq<char>, indent_level: nat, span: SpanV },
    RuleBlock {
        name: Seq<char>,
        actor: Seq<char>,
        trigger: Seq<char>,
        select: Option<SelectV>,
        where_clauses: Seq<CondV>,
        effects: Seq<EffectLineV>,
        span: SpanV,
    },
    Comment { text: Seq<char>, span: SpanV },
    ErrorNode { raw_text: Seq<char>, attempted_rule: Option<Seq<char>>, span: SpanV },
}

pub open spec fn node_view(n: ContentNode) -> NodeV
    decreases n, 1int,
{
    match n {
        ContentNode::LocationHeading(h) => NodeV::LocationHeading { display_name: h.display_name@, span: span_view(h.span) },
        ContentNode::SequenceHeading(h) => NodeV::SequenceHeading { display_name: h.display_name@, span: span_view(h.span) },
        ContentNode::PhaseHeading(h) => NodeV::PhaseHeading { display_name: h.display_name@, auto: h.auto, span: span_view(h.span) },
        ContentNode::SectionLabel(l) => NodeV::SectionLabel { name: l.name@, span: span_view(l.span) },
        ContentNode::EntityPresence(p) => NodeV::EntityPresence {
            entity_refs: strings_view(p.entity_refs@),
            bare: p.annotations@.map_values(|a: Option<Annotation>| a is None),
            span: span_view(p.span),
        },
        ContentNode::EntitySpeech(e) => NodeV::EntitySpeech {
            entity_ref: e.entity_ref@, text: e.text@, bare: e.annotation is None, span: span_view(e.span),
        },
        ContentNode::StageDirection(e) => NodeV::StageDirection {
            entity_ref: e.entity_ref@, text: e.text@, bare: e.annotation is None, span: span_view(e.span),
        },
        ContentNode::Prose(p) => NodeV::Prose { text: p.text@, span: span_view(p.span) },
        ContentNode::Choice(c) => NodeV::Choice {
            sticky: c.sticky,
            label: c.label@,
            target: opt_view(c.target),
            target_type: opt_view(c.target_type),
            content: nodes_view(c.content@),
            indent_level: c.indent_level as nat,
            bare: c.annotation is None,
            span: span_view(c.span),
        },
        ContentNode::Condition(c) => NodeV::Condition {
            expr: cond_view(c.expr), indent_level: c.indent_level as nat, span: span_view(c.span),
        },
        ContentNode::OrConditionBlock(b) => NodeV::OrConditionBlock {
            conditions: conds_view(b.conditions@), indent_level: b.indent_level as nat, span: span_view(b.span),
        },
        ContentNode::Effect(e) => NodeV::Effect { effect: effect_view(e) },
        ContentNode::Jump(j) => NodeV::Jump {
            target: j.target@, is_exit_qualified: j.is_exit_qualified, indent_level: j.indent_level as nat,
            bare: j.annotation is None, span: span_view(j.span),
        },
        ContentNode::ExitDeclaration(x) => NodeV::ExitDeclaration {
            direction: x.direction@, destination: x.destination@, children: nodes_view(x.children@),
            bare: x.annotation is None, span: span_view(x.span),
        },
        ContentNode::BlockedMessage(b) => NodeV::BlockedMessage {
            text: b.text@, indent_level: b.indent_level as nat, span: span_view(b.span),
        },
        ContentNode::RuleBlock(r) => NodeV::RuleBlock {
            name: r.name@, actor: r.actor@, trigger: r.trigger@, select: select_view(r.select),
            where_clauses: conds_view(r.where_clauses@), effects: effects_view(r.effects@), span: span_view(r.span),
        },
        ContentNode::Comment(c) => NodeV::Comment { text: c.text@, span: span_view(c.span) },
        ContentNode::ErrorNode(e) => NodeV::ErrorNode {
            raw_text: e.raw_text@, attempted_rule: opt_view(e.attempted_rule), span: span_view(e.span),
        },
    }
}

pub open spec fn nodes_view(v: Seq<ContentNode>) -> Seq<NodeV>
    decreases v, 0int,
{
    if v.len() == 0 {
        Seq::empty()
    } else {
        nodes_view(v.subrange(0, v.len() - 1)).push(node_view(v[v.len() - 1]))
    }
}

pub proof fn lemma_nodes_view_push(v: Seq<ContentNode>, n: ContentNode)
    ensures
        nodes_view(v.push(n)) == nodes_view(v).push(node_view(n)),
{
    assert(v.push(n).subrange(0, v.len() as int) =~= v);
}

pub proof fn lemma_nodes_view_empty()
    ensures
        nodes_view(Seq::<ContentNode>::empty()) == Seq::<NodeV>::empty(),
{
}


// ── Files ──

/// Root node for a single parsed `.urd.md` file. `slice_fault` tells that
/// some line could not be cut where the grammar cuts it (see
/// `Parser::slice_fault`); the parse is then not to be relied on.
#[derive(Debug)]
pub struct FileAst {
    pub path: String,
    pub frontmatter: Option<Frontmatter>,
    pub content: Vec<ContentNode>,
    pub span: Span,
    pub slice_fault: bool,
}

// ── Frontmatter ──

/// The `---`-delimited frontmatter block.
#[derive(Debug)]
pub struct Frontmatter {
    pub entries: Vec<FrontmatterEntry>,
    pub span: Span,
}

/// A key-value pair in frontmatter.
#[derive(Debug)]
pub struct FrontmatterEntry {
    pub key: String,
    pub value: FrontmatterValue,
    pub span: Span,
}

/// Typed frontmatter value.
#[derive(Debug)]
pub enum FrontmatterValue {
    Scalar(Scalar),
    List(Vec<FrontmatterValue>),
    Mapping(Vec<FrontmatterEntry>),
    InlineObject(Vec<FrontmatterEntry>),
    EntityDecl(EntityDecl),
    TypeDef(TypeDef),
    ImportDecl(ImportDecl),
    WorldBlock(WorldBlock),
}

/// A frontmatter scalar. A number is kept as the text it was written
/// with (text that `f64` parsing accepts); converting it is left to the
/// consumer.
#[derive(Debug)]
pub enum Scalar {
    String(String),
    Integer(i64),
    Number(String),
    Boolean(bool),
    List(Vec<Scalar>),
    EntityRef(String),
}

/// The `world:` block in frontmatter.
#[derive(Debug)]
pub struct WorldBlock {
    pub fields: Vec<(String, Scalar)>,
    pub span: Span,
}

/// A type definition: `TypeName [traits]: properties`.
#[derive(Debug)]
pub struct TypeDef {
    pub name: String,
    pub traits: Vec<String>,
    pub properties: Vec<PropertyDef>,
    pub span: Span,
}

/// A property within a type definition.
#[derive(Debug)]
pub struct PropertyDef {
    pub name: String,
    pub property_type: String,
    pub default: Option<Scalar>,
    pub visibility: Option<String>,
    pub values: Option<Vec<String>>,
    pub ref_type: Option<String>,
    pub element_type: Option<String>,
    pub element_values: Option<Vec<String>>,
    pub element_ref_type: Option<String>,
    pub description: Option<String>,
    pub span: Span,
}

/// Entity declaration: `@name: Type { overrides }`.
#[derive(Debug)]
pub struct EntityDecl {
    pub id: String,
    pub entity_type: String,
    pub property_overrides: Vec<(String, Scalar)>,
    pub annotation: Option<Annotation>,
    pub span: Span,
}

/// A scalar by its texts.
pub enum ScalarV {
    Str(Seq<char>),
    Int(int),
    Num(Seq<char>),
    Bool(bool),
    List(Seq<ScalarV>),
    Ref(Seq<char>),
}

pub open spec fn scalar_view(s: Scalar) -> ScalarV
    decreases s, 1int,
{
    match s {
        Scalar::String(t) => ScalarV::Str(t@),
        Scalar::Integer(n) => ScalarV::Int(n as int),
        Scalar::Number(t) => ScalarV::Num(t@),
        Scalar::Boolean(b) => ScalarV::Bool(b),
        Scalar::List(v) => ScalarV::List(scalars_view(v@)),
        Scalar::EntityRef(t) => ScalarV::Ref(t@),
    }
}

pub open spec fn scalars_view(v: Seq<Scalar>) -> Seq<ScalarV>
    decreases v, 0int,
{
    if v.len() == 0 {
        Seq::empty()
    } else {
        scalars_view(v.subrange(0, v.len() - 1)).push(scalar_view(v[v.len() - 1]))
    }
}

pub open spec fn opt_scalar_view(o: Option<Scalar>) -> Option<ScalarV> {
    match o {
        Some(s) => Some(scalar_view(s)),
        None => None,
    }
}

/// Key-scalar pairs by their texts.
pub open spec fn pairs_view(v: Seq<(String, Scalar)>) -> Seq<(Seq<char>, ScalarV)> {
    v.map_values(|p: (String, Scalar)| (p.0@, scalar_view(p.1)))
}

pub open spec fn opt_strings_view(o: Option<Vec<String>>) -> Option<Seq<Seq<char>>> {
    match o {
        Some(v) => Some(strings_view(v@)),
        None => None,
    }
}

/// A property definition by its texts.
pub struct PropDefV {
    pub name: Seq<char>,
    pub property_type: Seq<char>,
    pub default: Option<ScalarV>,
    pub visibility: Option<Seq<char>>,
    pub values: Option<Seq<Seq<char>>>,
    pub ref_type: Option<Seq<char>>,
    pub element_type: Option<Seq<char>>,
    pub element_values: Option<Seq<Seq<char>>>,
    pub element_ref_type: Option<Seq<char>>,
    pub description: Option<Seq<char>>,
    pub span: SpanV,
}

pub open spec fn prop_def_view(p: PropertyDef) -> PropDefV {
    PropDefV {
        name: p.name@,
        property_type: p.property_type@,
        default: opt_scalar_view(p.default),
        visibility: opt_view(p.visibility),
        values: opt_strings_view(p.values),
        ref_type: opt_view(p.ref_type),
        element_type: opt_view(p.element_type),
        element_values: opt_strings_view(p.element_values),
        element_ref_type: opt_view(p.element_ref_type),
        description: opt_view(p.description),
        span: span_view(p.span),
    }
}

/// A type definition by its texts.
pub struct TypeDefV {
    pub name: Seq<char>,
    pub traits: Seq<Seq<char>>,
    pub properties: Seq<PropDefV>,
    pub span: SpanV,
}

pub open spec fn type_def_view(t: TypeDef) -> TypeDefV {
    TypeDefV {
        name: t.name@,
        traits: strings_view(t.traits@),
        properties: t.properties@.map_values(|p: PropertyDef| prop_def_view(p)),
        span: span_view(t.span),
    }
}

/// An entity declaration by its texts; `bare` tells that its annotation
/// slot is empty.
pub struct EntityDeclV {
    pub id: Seq<char>,
    pub entity_type: Seq<char>,
    pub overrides: Seq<(Seq<char>, ScalarV)>,
    pub bare: bool,
    pub span: SpanV,
}

pub open spec fn entity_decl_view(e: EntityDecl) -> EntityDeclV {
    EntityDeclV {
        id: e.id@,
        entity_type: e.entity_type@,
        overrides: pairs_view(e.property_overrides@),
        bare: e.annotation is None,
        span: span_view(e.span),
    }
}

/// A frontmatter value by its texts.
pub enum ValueV {
    Scalar(ScalarV),
    List(Seq<ValueV>),
    Mapping(Seq<EntryV>),
    InlineObject(Seq<EntryV>),
    EntityDecl(EntityDeclV),
    TypeDef(TypeDefV),
    ImportDecl(Seq<char>, SpanV),
    WorldBlock(Seq<(Seq<char>, ScalarV)>, SpanV),
}

/// A frontmatter entry by its texts.
pub struct EntryV {
    pub key: Seq<char>,
    pub value: ValueV,
    pub span: SpanV,
}

pub open spec fn value_view(v: FrontmatterValue) -> ValueV
    decreases v, 1int,
{
    match v {
        FrontmatterValue::Scalar(s) => ValueV::Scalar(scalar_view(s)),
        FrontmatterValue::List(items) => ValueV::List(values_view(items@)),
        FrontmatterValue::Mapping(es) => ValueV::Mapping(entries_view(es@)),
        FrontmatterValue::InlineObject(es) => ValueV::InlineObject(entries_view(es@)),
        FrontmatterValue::EntityDecl(e) => ValueV::EntityDecl(entity_decl_view(e)),
        FrontmatterValue::TypeDef(t) => ValueV::TypeDef(type_def_view(t)),
        FrontmatterValue::ImportDecl(d) => ValueV::ImportDecl(d.path@, span_view(d.span)),
        FrontmatterValue::WorldBlock(w) => ValueV::WorldBlock(pairs_view(w.fields@), span_view(w.span)),
    }
}

pub open spec fn values_view(v: Seq<FrontmatterValue>) -> Seq<ValueV>
    decreases v, 0int,
{
    if v.len() == 0 {
        Seq::empty()
    } else {
        values_view(v.subrange(0, v.len() - 1)).push(value_view(v[v.len() - 1]))
    }
}

pub open spec fn entries_view(v: Seq<FrontmatterEntry>) -> Seq<EntryV>
    decreases v, 0int,
{
    if v.len() == 0 {
        Seq::empty()
    } else {
        let e = v[v.len() - 1];
        entries_view(v.subrange(0, v.len() - 1)).push(EntryV { key: e.key@, value: value_view(e.value), span: span_view(e.span) })
    }
}

pub open spec fn entry_view(e: FrontmatterEntry) -> EntryV {
    EntryV { key: e.key@, value: value_view(e.value), span: span_view(e.span) }
}

pub proof fn lemma_entries_view_push(v: Seq<FrontmatterEntry>, e: FrontmatterEntry)
    ensures
        entries_view(v.push(e)) == entries_view(v).push(entry_view(e)),
{
    assert(v.push(e).subrange(0, v.len() as int) =~= v);
}

pub proof fn lemma_values_view_push(v: Seq<FrontmatterValue>, x: FrontmatterValue)
    ensures
        values_view(v.push(x)) == values_view(v).push(value_view(x)),
{
    assert(v.push(x).subrange(0, v.len() as int) =~= v);
}

pub proof fn lemma_scalars_view_push(v: Seq<Scalar>, x: Scalar)
    ensures
        scalars_view(v.push(x)) == scalars_view(v).push(scalar_view(x)),
{
    assert(v.push(x).subrange(0, v.len() as int) =~= v);
}

} // verus!
