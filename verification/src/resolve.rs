//! LINK, pass 2: resolution. Walks the content of each file again, resolves
//! every entity, property, section, exit and location reference against
//! the symbol table, fills the annotation slots, and reports what does not
//! resolve (URD301, URD308–URD314, URD310/URD431 warnings).
//!
//! The contracts describe resolution over views: `EnvV` is what stays
//! fixed while a file is resolved (its path, visible scope and sections,
//! the entity and type namespaces), `StV` what resolution carries from
//! node to node (the current location and the location namespace).

use vstd::prelude::*;
use crate::ast::{
    cond_view, opt_view, strings_view, Annotation, CondV, ConditionExpr, ContainerKind, ContentNode, Jump,
    Effect, Choice, Comment, ExitDeclaration, EntityPresence, RuleBlock, SelectClause,
    DestinationKind, EffectType, EffectV, effect_type_view, EntityDecl, FrontmatterEntry, FrontmatterValue, Scalar,
    FileAst, Frontmatter,
};
use crate::collect::WorldConfig;
use crate::graph::FileNode;
use crate::diagnostics::{
    lemma_logged_empty, lemma_logged_one, lemma_logged_trans, logged, matches_diag, DiagV, Diagnostic,
    DiagnosticCollector, Severity,
};
use crate::link::{
    entity_entries, entity_get, entity_keys, find_suggestion, in_scope, key_index, keys_of,
    lemma_key_index, location_entries, location_get, location_keys, section_entries, section_get,
    suggestion_of, type_entries, type_get, location_insert, EntityV, ExitV, FileContext, LocationV, TypeV, property_names, exit_rest,
    exits_view, exit_view, entity_insert, value_sv, values_sv, value_pairs_sv, type_keys, sequence_entries, sequence_get,
    SequenceV,
};
use crate::slugify::{slugify, spec_slugify};
use crate::symbol_table::{EntitySymbol, ExitSymbol, PropertySymbol, SymbolTable, TypeSymbol, Value};
use crate::span::{Span, SpanV, span_view};
use crate::text::{chars_of, find_char, first_char_index, push_str, slice_chars, string_from_chars};

verus! {

broadcast use vstd::string::group_string_axioms;

// ── Message texts ──

fn cat3(a: &str, b: &str, c: &str) -> (r: String)
    ensures
        r@ == a@ + b@ + c@,
{
    let mut v: Vec<char> = Vec::new();
    push_str(&mut v, a);
    push_str(&mut v, b);
    push_str(&mut v, c);
    assert(v@ =~= a@ + b@ + c@);
    string_from_chars(v)
}

fn cat5(a: &str, b: &str, c: &str, d: &str, e: &str) -> (r: String)
    ensures
        r@ == a@ + b@ + c@ + d@ + e@,
{
    let mut v: Vec<char> = Vec::new();
    push_str(&mut v, a);
    push_str(&mut v, b);
    push_str(&mut v, c);
    push_str(&mut v, d);
    push_str(&mut v, e);
    assert(v@ =~= a@ + b@ + c@ + d@ + e@);
    string_from_chars(v)
}

fn cat7(a: &str, b: &str, c: &str, d: &str, e: &str, f: &str, g: &str) -> (r: String)
    ensures
        r@ == a@ + b@ + c@ + d@ + e@ + f@ + g@,
{
    let mut v: Vec<char> = Vec::new();
    push_str(&mut v, a);
    push_str(&mut v, b);
    push_str(&mut v, c);
    push_str(&mut v, d);
    push_str(&mut v, e);
    push_str(&mut v, f);
    push_str(&mut v, g);
    assert(v@ =~= a@ + b@ + c@ + d@ + e@ + f@ + g@);
    string_from_chars(v)
}

/// `'<open><name>' is declared in <file> but <file> is not imported by <importer>.`
pub open spec fn msg_not_imported(open: Seq<char>, name: Seq<char>, file: Seq<char>, importer: Seq<char>) -> Seq<char> {
    open + name + "' is declared in "@ + file + " but "@ + file + " is not imported by "@ + importer + "."@
}

fn text_not_imported(open: &str, name: &str, file: &str, importer: &str) -> (r: String)
    ensures
        r@ == msg_not_imported(open@, name@, file@, importer@),
{
    let mut v: Vec<char> = Vec::new();
    push_str(&mut v, open);
    push_str(&mut v, name);
    push_str(&mut v, "' is declared in ");
    push_str(&mut v, file);
    push_str(&mut v, " but ");
    push_str(&mut v, file);
    push_str(&mut v, " is not imported by ");
    push_str(&mut v, importer);
    push_str(&mut v, ".");
    assert(v@ =~= msg_not_imported(open@, name@, file@, importer@));
    string_from_chars(v)
}

pub open spec fn msg_unresolved_entity(r: Seq<char>) -> Seq<char> {
    "Unresolved entity reference '@"@ + r + "'."@
}

pub open spec fn msg_unresolved_ref(r: Seq<char>) -> Seq<char> {
    "Unresolved reference '"@ + r + "'."@
}

pub open spec fn msg_mean_entity(s: Seq<char>) -> Seq<char> {
    "Did you mean '@"@ + s + "'?"@
}

pub open spec fn msg_mean(s: Seq<char>) -> Seq<char> {
    "Did you mean '"@ + s + "'?"@
}

pub open spec fn msg_no_property(p: Seq<char>, t: Seq<char>) -> Seq<char> {
    "Property '"@ + p + "' does not exist on type '"@ + t + "'."@
}

pub open spec fn msg_unresolved_exhaustion(s: Seq<char>) -> Seq<char> {
    "Unresolved section '"@ + s + "' in exhaustion check. No section with this name exists in the current file."@
}

pub open spec fn msg_shadows_builtin(t: Seq<char>) -> Seq<char> {
    "Section '"@ + t + "' shadows the built-in '-> "@ + t
        + "' terminal. The jump will always end the conversation, not jump to this section. Consider renaming the section."@
}

pub open spec fn msg_exit_outside_location() -> Seq<char> {
    "Exit construct outside of a location context."@
}

pub open spec fn msg_unresolved_exit(t: Seq<char>) -> Seq<char> {
    "Unresolved exit reference 'exit:"@ + t + "'. No exit with this name exists in the current location."@
}

pub open spec fn msg_shadows_exit(t: Seq<char>) -> Seq<char> {
    "Section '"@ + t + "' shadows exit '"@ + t + "' in this location. Use -> exit:"@ + t + " to target the exit."@
}

pub open spec fn msg_unresolved_jump(t: Seq<char>) -> Seq<char> {
    "Unresolved jump target '"@ + t + "'. No section or exit with this name exists in scope."@
}

pub open spec fn msg_unresolved_exit_destination(d: Seq<char>) -> Seq<char> {
    "Exit destination '"@ + d + "' does not resolve to any known location."@
}

// ── What resolution reads ──

/// What stays fixed while one file is resolved.
pub struct EnvV {
    pub file_path: Seq<char>,
    pub scope: Seq<Seq<char>>,
    pub sections: Seq<(Seq<char>, Seq<char>)>,
    pub entities: Seq<(Seq<char>, EntityV)>,
    pub types: Seq<(Seq<char>, TypeV)>,
}

pub open spec fn env_of(file_path: Seq<char>, ctx: FileContext, tables: SymbolTable) -> EnvV {
    EnvV {
        file_path,
        scope: strings_view(ctx.visible_scope@),
        sections: section_entries(ctx.local_sections),
        entities: entity_entries(tables.entities),
        types: type_entries(tables.types),
    }
}

/// The outcome of a scope-checked lookup: found (with the resolved ID),
/// declared in a file outside the visible scope, or not declared.
pub enum Scoped {
    Found(Seq<char>),
    NotVisible(Seq<char>),
    NotFound,
}

pub open spec fn entity_scoped(env: EnvV, r: Seq<char>) -> Scoped {
    match key_index(env.entities, r) {
        Some(i) => if env.scope.contains(env.entities[i].1.1) {
            Scoped::Found(env.entities[i].1.0)
        } else {
            Scoped::NotVisible(env.entities[i].1.1)
        },
        None => Scoped::NotFound,
    }
}

pub open spec fn location_scoped(env: EnvV, locs: Seq<(Seq<char>, LocationV)>, slug: Seq<char>) -> Scoped {
    match key_index(locs, slug) {
        Some(i) => if env.scope.contains(locs[i].1.0) {
            Scoped::Found(slug)
        } else {
            Scoped::NotVisible(locs[i].1.0)
        },
        None => Scoped::NotFound,
    }
}

/// The entity an entity reference resolves to, if it resolves.
pub open spec fn entity_ref_id(env: EnvV, r: Seq<char>) -> Option<Seq<char>> {
    match entity_scoped(env, r) {
        Scoped::Found(id) => Some(id),
        _ => None,
    }
}

/// What an entity reference that does not resolve reports.
pub open spec fn entity_ref_diags(env: EnvV, r: Seq<char>, span: SpanV) -> Seq<DiagV> {
    match entity_scoped(env, r) {
        Scoped::Found(_) => Seq::empty(),
        Scoped::NotVisible(f) => seq![(Severity::Error, "URD301"@, msg_unresolved_entity(r), span,
            Some(msg_not_imported("'@"@, r, f, env.file_path)))],
        Scoped::NotFound => seq![(Severity::Error, "URD301"@, msg_unresolved_entity(r), span,
            match suggestion_of(r, keys_of(env.entities)) {
                Some(s) => Some(msg_mean_entity(s)),
                None => None,
            })],
    }
}

fn diag_with(code: &str, message: String, span: &Span, suggestion: Option<String>) -> (d: Diagnostic)
    ensures
        d.severity == Severity::Error,
        d.code@ == code@,
        d.message == message,
        d.span == *span,
        d.suggestion == suggestion,
        d.related@.len() == 0,
{
    Diagnostic {
        severity: Severity::Error,
        code: code.to_owned(),
        message,
        span: span.clone(),
        suggestion,
        related: Vec::new(),
    }
}

/// Resolve an entity reference string, returning the resolved entity ID
/// or `None` (after reporting URD301, with a hint where one helps).
pub fn resolve_entity_ref_value(
    entity_ref: &str,
    span: &Span,
    file_path: &str,
    ctx: &FileContext,
    tables: &SymbolTable,
    diagnostics: &mut DiagnosticCollector,
) -> (r: Option<String>)
    ensures
        opt_view(r) == entity_ref_id(env_of(file_path@, *ctx, *tables), entity_ref@),
        logged(final(diagnostics)@, old(diagnostics)@,
            entity_ref_diags(env_of(file_path@, *ctx, *tables), entity_ref@, span_view(*span))),
{
    let ghost env = env_of(file_path@, *ctx, *tables);
    proof { lemma_key_index(env.entities, entity_ref@); }
    match entity_get(&tables.entities, entity_ref) {
        Some(es) => {
            if in_scope(&ctx.visible_scope, es.declared_in.file.as_str()) {
                proof { lemma_logged_empty(diagnostics@); }
                Some(es.id.clone())
            } else {
                let message = cat3("Unresolved entity reference '@", entity_ref, "'.");
                let hint = text_not_imported("'@", entity_ref, es.declared_in.file.as_str(), file_path);
                let d = diag_with("URD301", message, span, Some(hint));
                proof { lemma_logged_one(diagnostics@, d, entity_ref_diags(env, entity_ref@, span_view(*span))[0]); }
                diagnostics.emit(d);
                None
            }
        },
        None => {
            let message = cat3("Unresolved entity reference '@", entity_ref, "'.");
            let names = entity_keys(&tables.entities);
            let hint = match find_suggestion(entity_ref, names.as_slice()) {
                Some(s) => Some(cat3("Did you mean '@", s.as_str(), "'?")),
                None => None,
            };
            let d = diag_with("URD301", message, span, hint);
            proof { lemma_logged_one(diagnostics@, d, entity_ref_diags(env, entity_ref@, span_view(*span))[0]); }
            diagnostics.emit(d);
            None
        },
    }
}


/// A container or destination reference as resolved: a keyword, an
/// entity, or a location.
pub enum PlaceV {
    Player,
    Here,
    Entity(Seq<char>),
    Location(Seq<char>),
}

/// An internal form of a resolved container or destination.
pub enum Place {
    KeywordPlayer,
    KeywordHere,
    EntityRef(String),
    LocationRef(String),
}

pub open spec fn place_view(p: Place) -> PlaceV {
    match p {
        Place::KeywordPlayer => PlaceV::Player,
        Place::KeywordHere => PlaceV::Here,
        Place::EntityRef(s) => PlaceV::Entity(s@),
        Place::LocationRef(s) => PlaceV::Location(s@),
    }
}

pub open spec fn opt_place_view(p: Option<Place>) -> Option<PlaceV> {
    match p {
        Some(x) => Some(place_view(x)),
        None => None,
    }
}

/// The hint for a reference found nowhere: an entity near enough to the
/// reference, else a location near enough to its slug.
pub open spec fn place_hint(env: EnvV, locs: Seq<(Seq<char>, LocationV)>, r: Seq<char>) -> Option<Seq<char>> {
    match suggestion_of(r, keys_of(env.entities)) {
        Some(s) => Some(msg_mean_entity(s)),
        None => match suggestion_of(spec_slugify(r), keys_of(locs)) {
            Some(s) => Some(msg_mean(s)),
            None => None,
        },
    }
}

/// How a container or destination reference resolves, keyword first, then
/// entity, then location (by slug), and what it reports.
pub open spec fn place_of(env: EnvV, locs: Seq<(Seq<char>, LocationV)>, r: Seq<char>, span: SpanV) -> (Option<PlaceV>, Seq<DiagV>) {
    let slug = spec_slugify(r);
    if r == "player"@ {
        (Some(PlaceV::Player), Seq::empty())
    } else if r == "here"@ {
        (Some(PlaceV::Here), Seq::empty())
    } else {
        match entity_scoped(env, r) {
            Scoped::Found(id) => (Some(PlaceV::Entity(id)), Seq::empty()),
            Scoped::NotVisible(f) => (None, seq![(Severity::Error, "URD301"@, msg_unresolved_ref(r), span,
                Some(msg_not_imported("'"@, r, f, env.file_path)))]),
            Scoped::NotFound => {
                let not_found = (None, seq![(Severity::Error, "URD301"@, msg_unresolved_ref(r), span, place_hint(env, locs, r))]);
                if slug.len() > 0 {
                    match location_scoped(env, locs, slug) {
                        Scoped::Found(l) => (Some(PlaceV::Location(l)), Seq::empty()),
                        Scoped::NotVisible(f) => (None, seq![(Severity::Error, "URD301"@, msg_unresolved_ref(r), span,
                            Some(msg_not_imported("'"@, r, f, env.file_path)))]),
                        Scoped::NotFound => not_found,
                    }
                } else {
                    not_found
                }
            },
        }
    }
}

/// Resolve a container or destination reference using keyword-first
/// priority: `player`, `here`, an entity (scope-checked), a location
/// (scope-checked, by slug); otherwise report URD301 and return `None`.
pub fn resolve_container_or_destination(
    ref_token: &str,
    span: &Span,
    file_path: &str,
    ctx: &FileContext,
    tables: &SymbolTable,
    diagnostics: &mut DiagnosticCollector,
) -> (r: Option<Place>)
    ensures
        opt_place_view(r) == place_of(env_of(file_path@, *ctx, *tables), location_entries(tables.locations), ref_token@, span_view(*span)).0,
        logged(final(diagnostics)@, old(diagnostics)@,
            place_of(env_of(file_path@, *ctx, *tables), location_entries(tables.locations), ref_token@, span_view(*span)).1),
{
    let ghost env = env_of(file_path@, *ctx, *tables);
    let ghost locs = location_entries(tables.locations);
    let ghost expected = place_of(env, locs, ref_token@, span_view(*span));
    proof {
        reveal_strlit("player");
        reveal_strlit("here");
        lemma_key_index(env.entities, ref_token@);
    }
    if crate::text::str_equals(ref_token, "player") {
        proof { lemma_logged_empty(diagnostics@); }
        return Some(Place::KeywordPlayer);
    }
    if crate::text::str_equals(ref_token, "here") {
        proof { lemma_logged_empty(diagnostics@); }
        return Some(Place::KeywordHere);
    }
    match entity_get(&tables.entities, ref_token) {
        Some(es) => {
            if in_scope(&ctx.visible_scope, es.declared_in.file.as_str()) {
                proof { lemma_logged_empty(diagnostics@); }
                return Some(Place::EntityRef(es.id.clone()));
            } else {
                let message = cat3("Unresolved reference '", ref_token, "'.");
                let hint = text_not_imported("'", ref_token, es.declared_in.file.as_str(), file_path);
                let d = diag_with("URD301", message, span, Some(hint));
                proof { lemma_logged_one(diagnostics@, d, expected.1[0]); }
                diagnostics.emit(d);
                return None;
            }
        },
        None => {},
    }
    let slug = slugify(ref_token);
    if !slug.as_str().is_empty() {
        proof { lemma_key_index(locs, slug@); }
        match location_get(&tables.locations, slug.as_str()) {
            Some(ls) => {
                if in_scope(&ctx.visible_scope, ls.declared_in.file.as_str()) {
                    proof { lemma_logged_empty(diagnostics@); }
                    return Some(Place::LocationRef(slug));
                } else {
                    let message = cat3("Unresolved reference '", ref_token, "'.");
                    let hint = text_not_imported("'", ref_token, ls.declared_in.file.as_str(), file_path);
                    let d = diag_with("URD301", message, span, Some(hint));
                    proof { lemma_logged_one(diagnostics@, d, expected.1[0]); }
                    diagnostics.emit(d);
                    return None;
                }
            },
            None => {},
        }
    }
    let message = cat3("Unresolved reference '", ref_token, "'.");
    let entity_names = entity_keys(&tables.entities);
    let hint = match find_suggestion(ref_token, entity_names.as_slice()) {
        Some(s) => Some(cat3("Did you mean '@", s.as_str(), "'?")),
        None => {
            let location_names = location_keys(&tables.locations);
            match find_suggestion(slug.as_str(), location_names.as_slice()) {
                Some(s) => Some(cat3("Did you mean '", s.as_str(), "'?")),
                None => None,
            }
        },
    };
    let d = diag_with("URD301", message, span, hint);
    proof { lemma_logged_one(diagnostics@, d, expected.1[0]); }
    diagnostics.emit(d);
    None
}


// ── Annotations ──

/// An annotation slot by its texts.
pub struct AnnV {
    pub entity: Option<Seq<char>>,
    pub typ: Option<Seq<char>>,
    pub section: Option<Seq<char>>,
    pub property: Option<Seq<char>>,
    pub location: Option<Seq<char>>,
    pub container: Option<PlaceV>,
    pub destination: Option<PlaceV>,
}

pub open spec fn container_view(k: ContainerKind) -> PlaceV {
    match k {
        ContainerKind::KeywordPlayer => PlaceV::Player,
        ContainerKind::KeywordHere => PlaceV::Here,
        ContainerKind::EntityRef(s) => PlaceV::Entity(s@),
        ContainerKind::LocationRef(s) => PlaceV::Location(s@),
    }
}

pub open spec fn destination_view(k: DestinationKind) -> PlaceV {
    match k {
        DestinationKind::KeywordPlayer => PlaceV::Player,
        DestinationKind::KeywordHere => PlaceV::Here,
        DestinationKind::EntityRef(s) => PlaceV::Entity(s@),
        DestinationKind::LocationRef(s) => PlaceV::Location(s@),
    }
}

pub open spec fn ann_view(a: Annotation) -> AnnV {
    AnnV {
        entity: opt_view(a.resolved_entity),
        typ: opt_view(a.resolved_type),
        section: opt_view(a.resolved_section),
        property: opt_view(a.resolved_property),
        location: opt_view(a.resolved_location),
        container: match a.container_kind {
            Some(k) => Some(container_view(k)),
            None => None,
        },
        destination: match a.destination_kind {
            Some(k) => Some(destination_view(k)),
            None => None,
        },
    }
}

pub open spec fn slot_view(o: Option<Annotation>) -> Option<AnnV> {
    match o {
        Some(a) => Some(ann_view(a)),
        None => None,
    }
}

/// An annotation with only the given fields filled.
pub open spec fn ann_of(
    entity: Option<Seq<char>>,
    typ: Option<Seq<char>>,
    section: Option<Seq<char>>,
    property: Option<Seq<char>>,
    location: Option<Seq<char>>,
) -> AnnV {
    AnnV { entity, typ, section, property, location, container: None, destination: None }
}

pub open spec fn ann_entity(e: Seq<char>) -> AnnV {
    ann_of(Some(e), None, None, None, None)
}

fn annotation(
    entity: Option<String>,
    typ: Option<String>,
    section: Option<String>,
    property: Option<String>,
    location: Option<String>,
) -> (a: Annotation)
    ensures
        ann_view(a) == ann_of(opt_view(entity), opt_view(typ), opt_view(section), opt_view(property), opt_view(location)),
{
    Annotation {
        resolved_entity: entity,
        resolved_type: typ,
        resolved_section: section,
        resolved_property: property,
        resolved_location: location,
        container_kind: None,
        destination_kind: None,
    }
}

/// How a property access on a resolved entity turns out: the property
/// exists on the entity's type (or is the implicit `container`), it does
/// not, or there is nothing to check (the entity or its type is unknown).
pub enum PropCheck {
    Resolved(Seq<char>),
    Missing(Seq<char>),
    Skipped,
}

pub open spec fn property_check(env: EnvV, entity_id: Seq<char>, property: Seq<char>) -> PropCheck {
    match key_index(env.entities, entity_id) {
        Some(i) => match env.entities[i].1.2 {
            Some(t) => match key_index(env.types, t) {
                Some(k) => if env.types[k].1.1.contains(property) || property == "container"@ {
                    PropCheck::Resolved(t)
                } else {
                    PropCheck::Missing(t)
                },
                None => PropCheck::Skipped,
            },
            None => PropCheck::Skipped,
        },
        None => PropCheck::Skipped,
    }
}

/// The annotation and report of a property access once its entity has
/// resolved to `id`.
pub open spec fn property_outcome(env: EnvV, id: Seq<char>, property: Seq<char>, span: SpanV) -> (AnnV, Seq<DiagV>) {
    match property_check(env, id, property) {
        PropCheck::Resolved(t) => (ann_of(Some(id), Some(t), None, Some(property), None), Seq::empty()),
        PropCheck::Missing(t) => (ann_entity(id), seq![(Severity::Error, "URD308"@, msg_no_property(property, t), span, None)]),
        PropCheck::Skipped => (ann_entity(id), Seq::empty()),
    }
}

fn contains_str(v: &Vec<String>, s: &str) -> (b: bool)
    ensures
        b == strings_view(v@).contains(s@),
{
    in_scope(v, s)
}

/// Check a property access on the resolved entity `id`; returns the
/// annotation the access gets.
fn check_property(
    id: &String,
    property: &str,
    span: &Span,
    tables: &SymbolTable,
    Ghost(env): Ghost<EnvV>,
    diagnostics: &mut DiagnosticCollector,
) -> (a: Annotation)
    requires
        env.entities == entity_entries(tables.entities),
        env.types == type_entries(tables.types),
    ensures
        ann_view(a) == property_outcome(env, id@, property@, span_view(*span)).0,
        logged(final(diagnostics)@, old(diagnostics)@, property_outcome(env, id@, property@, span_view(*span)).1),
{
    let ghost expected = property_outcome(env, id@, property@, span_view(*span));
    proof {
        lemma_key_index(env.entities, id@);
        lemma_logged_empty(diagnostics@);
        reveal_strlit("container");
    }
    match entity_get(&tables.entities, id.as_str()) {
        Some(es) => match &es.type_symbol {
            Some(tname) => {
                proof { lemma_key_index(env.types, tname@); }
                match type_get(&tables.types, tname.as_str()) {
                    Some(ts) => {
                        if has_property(&ts.properties, property) || crate::text::str_equals(property, "container") {
                            annotation(Some(id.clone()), Some(tname.clone()), None, Some(property.to_owned()), None)
                        } else {
                            let message = cat5("Property '", property, "' does not exist on type '", tname.as_str(), "'.");
                            let ghost before = diagnostics@;
                            diagnostics.error("URD308", message, span.clone());
                            proof {
                                assert(matches_diag(diagnostics@.last(), expected.1[0]));
                                assert(diagnostics@ == before.push(diagnostics@.last()));
                                lemma_logged_one(before, diagnostics@.last(), expected.1[0]);
                            }
                            annotation(Some(id.clone()), None, None, None, None)
                        }
                    },
                    None => annotation(Some(id.clone()), None, None, None, None),
                }
            },
            None => annotation(Some(id.clone()), None, None, None, None),
        },
        None => annotation(Some(id.clone()), None, None, None, None),
    }
}


// ── Conditions ──

/// The annotation slot of a condition expression.
pub open spec fn cond_slot(c: ConditionExpr) -> Option<AnnV> {
    match c {
        ConditionExpr::PropertyComparison(p) => slot_view(p.annotation),
        ConditionExpr::ContainmentCheck(p) => slot_view(p.annotation),
        ConditionExpr::ExhaustionCheck(p) => slot_view(p.annotation),
    }
}

/// A condition by everything but its annotation slot.
pub open spec fn cond_text(c: ConditionExpr) -> CondV {
    match cond_view(c) {
        CondV::Comparison { entity_ref, property, operator, value, bare, span } =>
            CondV::Comparison { entity_ref, property, operator, value, bare: true, span },
        CondV::Containment { entity_ref, container_ref, negated, bare, span } =>
            CondV::Containment { entity_ref, container_ref, negated, bare: true, span },
        CondV::Exhaustion { section_name, bare, span } => CondV::Exhaustion { section_name, bare: true, span },
    }
}

pub open spec fn place_ann(entity: Option<Seq<char>>, container: Option<PlaceV>, destination: Option<PlaceV>) -> AnnV {
    AnnV { entity, typ: None, section: None, property: None, location: None, container, destination }
}

/// How a condition expression resolves: its new annotation slot and what
/// it reports. `target` and `player` are runtime bindings, not entities.
pub open spec fn cond_res(env: EnvV, locs: Seq<(Seq<char>, LocationV)>, c: ConditionExpr) -> (Option<AnnV>, Seq<DiagV>) {
    match c {
        ConditionExpr::PropertyComparison(p) => {
            let span = span_view(p.span);
            if p.entity_ref@ == "target"@ || p.entity_ref@ == "player"@ {
                (Some(ann_entity(p.entity_ref@)), Seq::empty())
            } else {
                let d = entity_ref_diags(env, p.entity_ref@, span);
                match entity_ref_id(env, p.entity_ref@) {
                    Some(id) => {
                        let o = property_outcome(env, id, p.property@, span);
                        (Some(o.0), d + o.1)
                    },
                    None => (slot_view(p.annotation), d),
                }
            }
        },
        ConditionExpr::ContainmentCheck(p) => {
            let span = span_view(p.span);
            let d = entity_ref_diags(env, p.entity_ref@, span);
            let e = entity_ref_id(env, p.entity_ref@);
            let k = place_of(env, locs, p.container_ref@, span);
            if e is Some || k.0 is Some {
                (Some(place_ann(e, k.0, None)), d + k.1)
            } else {
                (slot_view(p.annotation), d + k.1)
            }
        },
        ConditionExpr::ExhaustionCheck(p) => match key_index(env.sections, p.section_name@) {
            Some(i) => (Some(ann_of(None, None, Some(env.sections[i].1), None, None)), Seq::empty()),
            None => (slot_view(p.annotation), seq![(Severity::Error, "URD309"@,
                msg_unresolved_exhaustion(p.section_name@), span_view(p.span), None)]),
        },
    }
}

fn container_kind_of(p: Option<Place>) -> (k: Option<ContainerKind>)
    ensures
        match k {
            Some(x) => opt_place_view(p) == Some(container_view(x)),
            None => p is None,
        },
{
    match p {
        Some(Place::KeywordPlayer) => Some(ContainerKind::KeywordPlayer),
        Some(Place::KeywordHere) => Some(ContainerKind::KeywordHere),
        Some(Place::EntityRef(id)) => Some(ContainerKind::EntityRef(id)),
        Some(Place::LocationRef(id)) => Some(ContainerKind::LocationRef(id)),
        None => None,
    }
}

fn destination_kind_of(p: Option<Place>) -> (k: Option<DestinationKind>)
    ensures
        match k {
            Some(x) => opt_place_view(p) == Some(destination_view(x)),
            None => p is None,
        },
{
    match p {
        Some(Place::KeywordPlayer) => Some(DestinationKind::KeywordPlayer),
        Some(Place::KeywordHere) => Some(DestinationKind::KeywordHere),
        Some(Place::EntityRef(id)) => Some(DestinationKind::EntityRef(id)),
        Some(Place::LocationRef(id)) => Some(DestinationKind::LocationRef(id)),
        None => None,
    }
}

/// Resolve a condition expression's entity, property, container and
/// section references, filling its annotation slot.
pub fn resolve_condition_expr(
    expr: &mut ConditionExpr,
    file_path: &str,
    ctx: &FileContext,
    tables: &SymbolTable,
    diagnostics: &mut DiagnosticCollector,
)
    ensures
        cond_text(*final(expr)) == cond_text(*old(expr)),
        cond_slot(*final(expr)) == cond_res(env_of(file_path@, *ctx, *tables), location_entries(tables.locations), *old(expr)).0,
        logged(final(diagnostics)@, old(diagnostics)@,
            cond_res(env_of(file_path@, *ctx, *tables), location_entries(tables.locations), *old(expr)).1),
{
    let ghost env = env_of(file_path@, *ctx, *tables);
    let ghost locs = location_entries(tables.locations);
    let ghost d0 = diagnostics@;
    match expr {
        ConditionExpr::PropertyComparison(pc) => {
            proof {
                reveal_strlit("target");
                reveal_strlit("player");
            }
            if crate::text::str_equals(pc.entity_ref.as_str(), "target") || crate::text::str_equals(pc.entity_ref.as_str(), "player") {
                pc.annotation = Some(annotation(Some(pc.entity_ref.clone()), None, None, None, None));
                proof { lemma_logged_empty(diagnostics@); }
                return;
            }
            let resolved = resolve_entity_ref_value(pc.entity_ref.as_str(), &pc.span, file_path, ctx, tables, diagnostics);
            let ghost d1 = diagnostics@;
            match resolved {
                Some(id) => {
                    let a = check_property(&id, pc.property.as_str(), &pc.span, tables, Ghost(env), diagnostics);
                    proof { lemma_logged_trans(d0, d1, diagnostics@, entity_ref_diags(env, pc.entity_ref@, span_view(pc.span)),
                        property_outcome(env, id@, pc.property@, span_view(pc.span)).1); }
                    pc.annotation = Some(a);
                },
                None => {},
            }
        },
        ConditionExpr::ContainmentCheck(cc) => {
            let entity = resolve_entity_ref_value(cc.entity_ref.as_str(), &cc.span, file_path, ctx, tables, diagnostics);
            let ghost d1 = diagnostics@;
            let place = resolve_container_or_destination(cc.container_ref.as_str(), &cc.span, file_path, ctx, tables, diagnostics);
            proof { lemma_logged_trans(d0, d1, diagnostics@, entity_ref_diags(env, cc.entity_ref@, span_view(cc.span)),
                place_of(env, locs, cc.container_ref@, span_view(cc.span)).1); }
            if entity.is_some() || place.is_some() {
                let ghost ev = opt_view(entity);
                let ghost pv = opt_place_view(place);
                let kind = container_kind_of(place);
                let a = Annotation {
                    resolved_entity: entity,
                    resolved_type: None,
                    resolved_section: None,
                    resolved_property: None,
                    resolved_location: None,
                    container_kind: kind,
                    destination_kind: None,
                };
                assert(ann_view(a) == place_ann(ev, pv, None));
                cc.annotation = Some(a);
            }
        },
        ConditionExpr::ExhaustionCheck(ec) => {
            proof { lemma_key_index(env.sections, ec.section_name@); }
            match section_get(&ctx.local_sections, ec.section_name.as_str()) {
                Some(compiled) => {
                    ec.annotation = Some(annotation(None, None, Some(compiled.clone()), None, None));
                    proof { lemma_logged_empty(diagnostics@); }
                },
                None => {
                    let message = cat3("Unresolved section '", ec.section_name.as_str(),
                        "' in exhaustion check. No section with this name exists in the current file.");
                    diagnostics.error("URD309", message, ec.span.clone());
                    proof {
                        let e = cond_res(env, locs, *old(expr)).1[0];
                        assert(matches_diag(diagnostics@.last(), e));
                        assert(diagnostics@ == d0.push(diagnostics@.last()));
                        lemma_logged_one(d0, diagnostics@.last(), e);
                    }
                },
            }
        },
    }
}


// ── Effects ──

/// How a `@entity.property` target resolves, given the slot's old value.
pub open spec fn target_res(env: EnvV, tp: Seq<char>, old: Option<AnnV>, span: SpanV) -> (Option<AnnV>, Seq<DiagV>) {
    if tp.len() > 0 && tp[0] == '@' {
        let stripped = tp.subrange(1, tp.len() as int);
        match first_char_index(stripped, '.') {
            Some(dot) => {
                let er = stripped.subrange(0, dot);
                let prop = stripped.subrange(dot + 1, stripped.len() as int);
                let d = entity_ref_diags(env, er, span);
                match entity_ref_id(env, er) {
                    Some(id) => {
                        let o = property_outcome(env, id, prop, span);
                        (Some(o.0), d + o.1)
                    },
                    None => (old, d),
                }
            },
            None => (old, Seq::empty()),
        }
    } else {
        (old, Seq::empty())
    }
}

/// How an effect resolves: its new annotation slot and what it reports.
pub open spec fn effect_res(env: EnvV, locs: Seq<(Seq<char>, LocationV)>, e: EffectV, old: Option<AnnV>, span: SpanV) -> (Option<AnnV>, Seq<DiagV>) {
    match e {
        EffectV::Assign { target_prop, .. } => target_res(env, target_prop, old, span),
        EffectV::Reveal { target_prop } => target_res(env, target_prop, old, span),
        EffectV::Move { entity_ref, destination_ref } => {
            let d = entity_ref_diags(env, entity_ref, span);
            let e = entity_ref_id(env, entity_ref);
            let k = place_of(env, locs, destination_ref, span);
            if e is Some || k.0 is Some {
                (Some(place_ann(e, None, k.0)), d + k.1)
            } else {
                (old, d + k.1)
            }
        },
        EffectV::Destroy { entity_ref } => match entity_ref_id(env, entity_ref) {
            Some(id) => (Some(ann_entity(id)), entity_ref_diags(env, entity_ref, span)),
            None => (old, entity_ref_diags(env, entity_ref, span)),
        },
    }
}

fn resolve_target(
    target_prop: &str,
    annotation: &mut Option<Annotation>,
    span: &Span,
    file_path: &str,
    ctx: &FileContext,
    tables: &SymbolTable,
    diagnostics: &mut DiagnosticCollector,
)
    ensures
        slot_view(*final(annotation)) == target_res(env_of(file_path@, *ctx, *tables), target_prop@, slot_view(*old(annotation)), span_view(*span)).0,
        logged(final(diagnostics)@, old(diagnostics)@,
            target_res(env_of(file_path@, *ctx, *tables), target_prop@, slot_view(*old(annotation)), span_view(*span)).1),
{
    let ghost env = env_of(file_path@, *ctx, *tables);
    let ghost d0 = diagnostics@;
    proof { lemma_logged_empty(diagnostics@); }
    let v = chars_of(target_prop);
    if v.len() > 0 && v[0] == '@' {
        let stripped = slice_chars(&v, 1, v.len());
        proof { crate::text::lemma_first_char_index(stripped@, '.'); }
        match find_char(&stripped, '.') {
            Some(dot) => {
                let er = string_from_chars(slice_chars(&stripped, 0, dot));
                let prop = string_from_chars(slice_chars(&stripped, dot + 1, stripped.len()));
                let resolved = resolve_entity_ref_value(er.as_str(), span, file_path, ctx, tables, diagnostics);
                let ghost d1 = diagnostics@;
                match resolved {
                    Some(id) => {
                        let a = check_property(&id, prop.as_str(), span, tables, Ghost(env), diagnostics);
                        proof { lemma_logged_trans(d0, d1, diagnostics@, entity_ref_diags(env, er@, span_view(*span)),
                            property_outcome(env, id@, prop@, span_view(*span)).1); }
                        *annotation = Some(a);
                    },
                    None => {},
                }
            },
            None => {},
        }
    }
}

/// Resolve an effect's entity, property and destination references,
/// filling its annotation slot.
pub fn resolve_effect(
    effect_type: &EffectType,
    annotation: &mut Option<Annotation>,
    span: &Span,
    file_path: &str,
    ctx: &FileContext,
    tables: &SymbolTable,
    diagnostics: &mut DiagnosticCollector,
)
    ensures
        slot_view(*final(annotation)) == effect_res(env_of(file_path@, *ctx, *tables), location_entries(tables.locations),
            effect_type_view(*effect_type), slot_view(*old(annotation)), span_view(*span)).0,
        logged(final(diagnostics)@, old(diagnostics)@,
            effect_res(env_of(file_path@, *ctx, *tables), location_entries(tables.locations),
                effect_type_view(*effect_type), slot_view(*old(annotation)), span_view(*span)).1),
{
    let ghost env = env_of(file_path@, *ctx, *tables);
    let ghost locs = location_entries(tables.locations);
    let ghost d0 = diagnostics@;
    match effect_type {
        EffectType::Assign { target_prop, .. } => {
            resolve_target(target_prop.as_str(), annotation, span, file_path, ctx, tables, diagnostics);
        },
        EffectType::Reveal { target_prop } => {
            resolve_target(target_prop.as_str(), annotation, span, file_path, ctx, tables, diagnostics);
        },
        EffectType::Move { entity_ref, destination_ref } => {
            let entity = resolve_entity_ref_value(entity_ref.as_str(), span, file_path, ctx, tables, diagnostics);
            let ghost d1 = diagnostics@;
            let place = resolve_container_or_destination(destination_ref.as_str(), span, file_path, ctx, tables, diagnostics);
            proof { lemma_logged_trans(d0, d1, diagnostics@, entity_ref_diags(env, entity_ref@, span_view(*span)),
                place_of(env, locs, destination_ref@, span_view(*span)).1); }
            if entity.is_some() || place.is_some() {
                let ghost ev = opt_view(entity);
                let ghost pv = opt_place_view(place);
                let kind = destination_kind_of(place);
                let a = Annotation {
                    resolved_entity: entity,
                    resolved_type: None,
                    resolved_section: None,
                    resolved_property: None,
                    resolved_location: None,
                    container_kind: None,
                    destination_kind: kind,
                };
                assert(ann_view(a) == place_ann(ev, None, pv));
                *annotation = Some(a);
            }
        },
        EffectType::Destroy { entity_ref } => {
            let entity = resolve_entity_ref_value(entity_ref.as_str(), span, file_path, ctx, tables, diagnostics);
            match entity {
                Some(id) => {
                    *annotation = Some(crate::resolve::annotation(Some(id), None, None, None, None));
                },
                None => {},
            }
        },
    }
}


// ── Jumps ──

/// Whether location `l` (by ID) has an exit named `name`.
pub open spec fn has_exit(locs: Seq<(Seq<char>, LocationV)>, l: Seq<char>, name: Seq<char>) -> bool {
    match key_index(locs, l) {
        Some(i) => key_index(locs[i].1.1, name) is Some,
        None => false,
    }
}

/// How a jump resolves, given the current location and its slot's old
/// value: the built-in `end` first, then `exit:` jumps, then a section of
/// this file before an exit of the current location.
pub open spec fn jump_res(
    env: EnvV,
    locs: Seq<(Seq<char>, LocationV)>,
    cur: Option<Seq<char>>,
    target: Seq<char>,
    exit_qualified: bool,
    old: Option<AnnV>,
    span: SpanV,
) -> (Option<AnnV>, Seq<DiagV>) {
    if target == "end"@ {
        (Some(ann_of(None, None, None, None, None)),
            if key_index(env.sections, target) is Some {
                seq![(Severity::Warning, "URD431"@, msg_shadows_builtin(target), span, None)]
            } else {
                Seq::empty()
            })
    } else if exit_qualified {
        match cur {
            None => (old, seq![(Severity::Error, "URD314"@, msg_exit_outside_location(), span, None)]),
            Some(l) => match key_index(locs, l) {
                Some(i) => if key_index(locs[i].1.1, target) is Some {
                    (Some(ann_of(None, None, None, None, Some(l))), Seq::empty())
                } else {
                    (old, seq![(Severity::Error, "URD311"@, msg_unresolved_exit(target), span, None)])
                },
                None => (old, Seq::empty()),
            },
        }
    } else {
        let exit_match = match cur {
            Some(l) => has_exit(locs, l, target),
            None => false,
        };
        match key_index(env.sections, target) {
            Some(i) => (Some(ann_of(None, None, Some(env.sections[i].1), None, None)),
                if exit_match {
                    seq![(Severity::Warning, "URD310"@, msg_shadows_exit(target), span, None)]
                } else {
                    Seq::empty()
                }),
            None => if exit_match {
                (Some(ann_of(None, None, None, None, cur)), Seq::empty())
            } else {
                (old, seq![(Severity::Error, "URD309"@, msg_unresolved_jump(target), span, None)])
            },
        }
    }
}

/// The position of the exit named `name`, if any.
pub(crate) fn exit_index(exits: &Vec<ExitSymbol>, name: &str) -> (r: Option<usize>)
    ensures
        match r {
            Some(i) => key_index(exits_view(exits@), name@) == Some(i as int),
            None => key_index(exits_view(exits@), name@) is None,
        },
{
    let ghost xs = exits_view(exits@);
    proof { lemma_key_index(xs, name@); }
    let mut i: usize = 0;
    while i < exits.len()
        invariant
            i <= exits.len(),
            xs == exits_view(exits@),
            forall|j: int| 0 <= j < i ==> (#[trigger] xs[j]).0 != name@,
        decreases exits.len() - i,
    {
        assert(xs[i as int] == exit_view(exits@[i as int]));
        if crate::text::str_equals(exits[i].direction.as_str(), name) {
            proof {
                lemma_key_index(xs, name@);
                match key_index(xs, name@) {
                    Some(k) => {
                        if k < i { assert(xs[k].0 != name@); }
                        if k > i { assert(xs[i as int].0 == name@); }
                    },
                    None => { assert(xs[i as int].0 == name@); },
                }
            }
            return Some(i);
        }
        i += 1;
    }
    None
}

fn warn(code: &str, message: String, span: &Span, diagnostics: &mut DiagnosticCollector, Ghost(e): Ghost<DiagV>)
    requires
        e == (Severity::Warning, code@, message@, span_view(*span), None::<Seq<char>>),
    ensures
        logged(final(diagnostics)@, old(diagnostics)@, seq![e]),
{
    let ghost d0 = diagnostics@;
    diagnostics.warning(code, message, span.clone());
    proof {
        assert(matches_diag(diagnostics@.last(), e));
        assert(diagnostics@ == d0.push(diagnostics@.last()));
        lemma_logged_one(d0, diagnostics@.last(), e);
    }
}

fn fail(code: &str, message: String, span: &Span, diagnostics: &mut DiagnosticCollector, Ghost(e): Ghost<DiagV>)
    requires
        e == (Severity::Error, code@, message@, span_view(*span), None::<Seq<char>>),
    ensures
        logged(final(diagnostics)@, old(diagnostics)@, seq![e]),
{
    let ghost d0 = diagnostics@;
    diagnostics.error(code, message, span.clone());
    proof {
        assert(matches_diag(diagnostics@.last(), e));
        assert(diagnostics@ == d0.push(diagnostics@.last()));
        lemma_logged_one(d0, diagnostics@.last(), e);
    }
}

/// Resolve a jump target using the priority rule: the built-in `end`,
/// then `-> exit:name` against the current location, then a section of
/// this file before an exit of the current location.
pub fn resolve_jump(
    jump: &mut Jump,
    file_path: &str,
    ctx: &FileContext,
    current_location_id: &Option<String>,
    tables: &SymbolTable,
    diagnostics: &mut DiagnosticCollector,
)
    ensures
        final(jump).target == old(jump).target,
        final(jump).is_exit_qualified == old(jump).is_exit_qualified,
        final(jump).indent_level == old(jump).indent_level,
        final(jump).span == old(jump).span,
        slot_view(final(jump).annotation) == jump_res(env_of(file_path@, *ctx, *tables), location_entries(tables.locations),
            opt_view(*current_location_id), old(jump).target@, old(jump).is_exit_qualified,
            slot_view(old(jump).annotation), span_view(old(jump).span)).0,
        logged(final(diagnostics)@, old(diagnostics)@,
            jump_res(env_of(file_path@, *ctx, *tables), location_entries(tables.locations),
            opt_view(*current_location_id), old(jump).target@, old(jump).is_exit_qualified,
            slot_view(old(jump).annotation), span_view(old(jump).span)).1),
{
    let ghost env = env_of(file_path@, *ctx, *tables);
    let ghost locs = location_entries(tables.locations);
    let ghost expected = jump_res(env, locs, opt_view(*current_location_id), jump.target@, jump.is_exit_qualified,
        slot_view(jump.annotation), span_view(jump.span));
    proof {
        reveal_strlit("end");
        lemma_logged_empty(diagnostics@);
        lemma_key_index(env.sections, jump.target@);
    }
    if crate::text::str_equals(jump.target.as_str(), "end") {
        if section_get(&ctx.local_sections, jump.target.as_str()).is_some() {
            let t = jump.target.as_str();
            let message = cat5("Section '", t, "' shadows the built-in '-> ", t,
                "' terminal. The jump will always end the conversation, not jump to this section. Consider renaming the section.");
            warn("URD431", message, &jump.span, diagnostics, Ghost(expected.1[0]));
        }
        jump.annotation = Some(annotation(None, None, None, None, None));
        return;
    }
    if jump.is_exit_qualified {
        match current_location_id {
            None => {
                fail("URD314", "Exit construct outside of a location context.".to_owned(), &jump.span, diagnostics,
                    Ghost(expected.1[0]));
                return;
            },
            Some(loc_id) => {
                proof { lemma_key_index(locs, loc_id@); }
                match location_get(&tables.locations, loc_id.as_str()) {
                    Some(loc) => {
                        if exit_index(&loc.exits, jump.target.as_str()).is_some() {
                            jump.annotation = Some(annotation(None, None, None, None, Some(loc_id.clone())));
                        } else {
                            let message = cat3("Unresolved exit reference 'exit:", jump.target.as_str(),
                                "'. No exit with this name exists in the current location.");
                            fail("URD311", message, &jump.span, diagnostics, Ghost(expected.1[0]));
                        }
                    },
                    None => {},
                }
                return;
            },
        }
    }
    let section_match = section_get(&ctx.local_sections, jump.target.as_str());
    let exit_match = match current_location_id {
        Some(loc_id) => {
            proof { lemma_key_index(locs, loc_id@); }
            match location_get(&tables.locations, loc_id.as_str()) {
                Some(loc) => exit_index(&loc.exits, jump.target.as_str()).is_some(),
                None => false,
            }
        },
        None => false,
    };
    match section_match {
        Some(compiled_id) => {
            jump.annotation = Some(annotation(None, None, Some(compiled_id.clone()), None, None));
            if exit_match {
                let t = jump.target.as_str();
                let message = cat7("Section '", t, "' shadows exit '", t, "' in this location. Use -> exit:", t,
                    " to target the exit.");
                warn("URD310", message, &jump.span, diagnostics, Ghost(expected.1[0]));
            }
        },
        None => {
            if exit_match {
                let loc = match current_location_id {
                    Some(l) => Some(l.clone()),
                    None => None,
                };
                jump.annotation = Some(annotation(None, None, None, None, loc));
            } else {
                let message = cat3("Unresolved jump target '", jump.target.as_str(),
                    "'. No section or exit with this name exists in scope.");
                fail("URD309", message, &jump.span, diagnostics, Ghost(expected.1[0]));
            }
        },
    }
}


// ── Content nodes ──

/// What resolution carries from node to node: the current location (set
/// by location headings) and the location namespace (which records the
/// entities placed in each location and where each exit leads).
pub struct StV {
    pub cur: Option<Seq<char>>,
    pub locs: Seq<(Seq<char>, LocationV)>,
}

pub open spec fn st_of(cur: Option<String>, tables: SymbolTable) -> StV {
    StV { cur: opt_view(cur), locs: location_entries(tables.locations) }
}

/// `id` recorded as placed in location `l`, unless it already is.
pub open spec fn add_contained(locs: Seq<(Seq<char>, LocationV)>, l: Seq<char>, id: Seq<char>) -> Seq<(Seq<char>, LocationV)> {
    match key_index(locs, l) {
        Some(k) => if locs[k].1.2.contains(id) {
            locs
        } else {
            locs.update(k, (locs[k].0, (locs[k].1.0, locs[k].1.1, locs[k].1.2.push(id), locs[k].1.3, locs[k].1.4, locs[k].1.5, locs[k].1.6)))
        },
        None => locs,
    }
}

/// The exit `dir` of location `l` recorded as leading to `slug`.
pub open spec fn set_exit_destination(locs: Seq<(Seq<char>, LocationV)>, l: Seq<char>, dir: Seq<char>, slug: Seq<char>) -> Seq<(Seq<char>, LocationV)> {
    match key_index(locs, l) {
        Some(k) => match key_index(locs[k].1.1, dir) {
            Some(x) => locs.update(k, (locs[k].0, (locs[k].1.0, locs[k].1.1.update(x, (locs[k].1.1[x].0, Some(slug))),
                locs[k].1.2, locs[k].1.3, locs[k].1.4, locs[k].1.5, locs[k].1.6))),
            None => locs,
        },
        None => locs,
    }
}

/// The entities of a presence line that resolve, recorded in location `l`
/// in order.
pub open spec fn presence_locs(env: EnvV, locs: Seq<(Seq<char>, LocationV)>, l: Seq<char>, refs: Seq<Seq<char>>) -> Seq<(Seq<char>, LocationV)>
    decreases refs.len(),
{
    if refs.len() == 0 {
        locs
    } else {
        let p = presence_locs(env, locs, l, refs.subrange(0, refs.len() - 1));
        match entity_ref_id(env, refs[refs.len() - 1]) {
            Some(id) => add_contained(p, l, id),
            None => p,
        }
    }
}

/// What a list of entity references reports, in order.
pub open spec fn refs_diags(env: EnvV, refs: Seq<Seq<char>>, span: SpanV) -> Seq<DiagV>
    decreases refs.len(),
{
    if refs.len() == 0 {
        Seq::empty()
    } else {
        refs_diags(env, refs.subrange(0, refs.len() - 1), span) + entity_ref_diags(env, refs[refs.len() - 1], span)
    }
}

/// The new slot `i` of a presence line.
pub open spec fn presence_slot(env: EnvV, refs: Seq<Seq<char>>, olds: Seq<Option<Annotation>>, i: int) -> Option<AnnV> {
    if i < refs.len() {
        match entity_ref_id(env, refs[i]) {
            Some(id) => Some(ann_entity(id)),
            None => slot_view(olds[i]),
        }
    } else {
        slot_view(olds[i])
    }
}

/// A reference whose annotation is the entity it names: speech, stage
/// direction, choice target.
pub open spec fn entity_slot(env: EnvV, r: Seq<char>, old: Option<AnnV>) -> Option<AnnV> {
    match entity_ref_id(env, r) {
        Some(id) => Some(ann_entity(id)),
        None => old,
    }
}

pub open spec fn target_slot(env: EnvV, target: Option<String>, old: Option<AnnV>) -> Option<AnnV> {
    match target {
        Some(t) => entity_slot(env, t@, old),
        None => old,
    }
}

pub open spec fn target_diags(env: EnvV, target: Option<String>, span: SpanV) -> Seq<DiagV> {
    match target {
        Some(t) => entity_ref_diags(env, t@, span),
        None => Seq::empty(),
    }
}

/// An exit declaration's own step, inside location `l`: its slot, the
/// location namespace after it, and what it reports.
pub open spec fn exit_step(env: EnvV, locs: Seq<(Seq<char>, LocationV)>, l: Seq<char>, x: ExitDeclaration) -> (Option<AnnV>, Seq<(Seq<char>, LocationV)>, Seq<DiagV>) {
    let slug = spec_slugify(x.destination@);
    let span = span_view(x.span);
    if slug.len() == 0 {
        (slot_view(x.annotation), locs, Seq::empty())
    } else {
        match location_scoped(env, locs, slug) {
            Scoped::Found(_) => (Some(ann_of(None, None, None, None, Some(slug))),
                set_exit_destination(locs, l, x.direction@, slug), Seq::empty()),
            Scoped::NotVisible(f) => (slot_view(x.annotation), locs, seq![(Severity::Error, "URD312"@,
                msg_unresolved_exit_destination(x.destination@), span,
                Some(msg_not_imported("'"@, x.destination@, f, env.file_path)))]),
            Scoped::NotFound => (slot_view(x.annotation), locs, seq![(Severity::Error, "URD312"@,
                msg_unresolved_exit_destination(x.destination@), span, None)]),
        }
    }
}

/// What a list of conditions reports, in order.
pub open spec fn conds_diags(env: EnvV, locs: Seq<(Seq<char>, LocationV)>, cs: Seq<ConditionExpr>) -> Seq<DiagV>
    decreases cs.len(),
{
    if cs.len() == 0 {
        Seq::empty()
    } else {
        conds_diags(env, locs, cs.subrange(0, cs.len() - 1)) + cond_res(env, locs, cs[cs.len() - 1]).1
    }
}

/// `new` is `old` with every condition resolved.
pub open spec fn conds_done(env: EnvV, locs: Seq<(Seq<char>, LocationV)>, old: Seq<ConditionExpr>, new: Seq<ConditionExpr>) -> bool {
    &&& new.len() == old.len()
    &&& forall|i: int| 0 <= i < old.len() ==> cond_text(#[trigger] new[i]) == cond_text(old[i])
        && cond_slot(new[i]) == cond_res(env, locs, old[i]).0
}

pub open spec fn effect_line_res(env: EnvV, locs: Seq<(Seq<char>, LocationV)>, e: Effect) -> (Option<AnnV>, Seq<DiagV>) {
    effect_res(env, locs, effect_type_view(e.effect_type), slot_view(e.annotation), span_view(e.span))
}

/// What a list of effect lines reports, in order.
pub open spec fn effects_diags(env: EnvV, locs: Seq<(Seq<char>, LocationV)>, es: Seq<Effect>) -> Seq<DiagV>
    decreases es.len(),
{
    if es.len() == 0 {
        Seq::empty()
    } else {
        effects_diags(env, locs, es.subrange(0, es.len() - 1)) + effect_line_res(env, locs, es[es.len() - 1]).1
    }
}

/// `new` is `old` with every effect line resolved.
pub open spec fn effects_done(env: EnvV, locs: Seq<(Seq<char>, LocationV)>, old: Seq<Effect>, new: Seq<Effect>) -> bool {
    &&& new.len() == old.len()
    &&& forall|i: int| 0 <= i < old.len() ==> (#[trigger] new[i]).effect_type == old[i].effect_type
        && new[i].indent_level == old[i].indent_level && new[i].span == old[i].span
        && slot_view(new[i].annotation) == effect_line_res(env, locs, old[i]).0
}

/// What a rule block reports: its select references, the select's where
/// clauses, the rule's where clauses, then its effects.
pub open spec fn rule_diags(env: EnvV, locs: Seq<(Seq<char>, LocationV)>, r: RuleBlock) -> Seq<DiagV> {
    (match r.select {
        Some(sel) => refs_diags(env, strings_view(sel.entity_refs@), span_view(r.span)) + conds_diags(env, locs, sel.where_clauses@),
        None => Seq::empty(),
    }) + conds_diags(env, locs, r.where_clauses@) + effects_diags(env, locs, r.effects@)
}

pub open spec fn rule_done(env: EnvV, locs: Seq<(Seq<char>, LocationV)>, a: RuleBlock, b: RuleBlock) -> bool {
    &&& b.name == a.name
    &&& b.actor == a.actor
    &&& b.trigger == a.trigger
    &&& b.span == a.span
    &&& match a.select {
        Some(x) => match b.select {
            Some(y) => y.variable == x.variable && y.entity_refs == x.entity_refs && y.span == x.span
                && conds_done(env, locs, x.where_clauses@, y.where_clauses@),
            None => false,
        },
        None => b.select is None,
    }
    &&& conds_done(env, locs, a.where_clauses@, b.where_clauses@)
    &&& effects_done(env, locs, a.effects@, b.effects@)
}

/// The state after resolving node `n` from state `st`.
pub open spec fn node_next(env: EnvV, st: StV, n: ContentNode) -> StV
    decreases n, 1int,
{
    match n {
        ContentNode::LocationHeading(h) => {
            let id = spec_slugify(h.display_name@);
            if id.len() > 0 { StV { cur: Some(id), locs: st.locs } } else { st }
        },
        ContentNode::EntityPresence(p) => match st.cur {
            Some(l) => StV { cur: st.cur, locs: presence_locs(env, st.locs, l, strings_view(p.entity_refs@)) },
            None => st,
        },
        ContentNode::Choice(c) => nodes_next(env, st, c.content@),
        ContentNode::ExitDeclaration(x) => match st.cur {
            Some(l) => nodes_next(env, StV { cur: st.cur, locs: exit_step(env, st.locs, l, x).1 }, x.children@),
            None => st,
        },
        _ => st,
    }
}

/// The state after resolving the nodes of `v` in order.
pub open spec fn nodes_next(env: EnvV, st: StV, v: Seq<ContentNode>) -> StV
    decreases v, 0int,
{
    if v.len() == 0 {
        st
    } else {
        node_next(env, nodes_next(env, st, v.subrange(0, v.len() - 1)), v[v.len() - 1])
    }
}

/// What resolving node `n` from state `st` reports, in order.
pub open spec fn node_diags(env: EnvV, st: StV, n: ContentNode) -> Seq<DiagV>
    decreases n, 1int,
{
    match n {
        ContentNode::EntitySpeech(e) => entity_ref_diags(env, e.entity_ref@, span_view(e.span)),
        ContentNode::StageDirection(e) => entity_ref_diags(env, e.entity_ref@, span_view(e.span)),
        ContentNode::EntityPresence(p) => match st.cur {
            Some(_) => refs_diags(env, strings_view(p.entity_refs@), span_view(p.span)),
            None => Seq::empty(),
        },
        ContentNode::Choice(c) => target_diags(env, c.target, span_view(c.span)) + nodes_diags(env, st, c.content@),
        ContentNode::Condition(c) => cond_res(env, st.locs, c.expr).1,
        ContentNode::OrConditionBlock(b) => conds_diags(env, st.locs, b.conditions@),
        ContentNode::Effect(e) => effect_line_res(env, st.locs, e).1,
        ContentNode::Jump(j) => jump_res(env, st.locs, st.cur, j.target@, j.is_exit_qualified,
            slot_view(j.annotation), span_view(j.span)).1,
        ContentNode::ExitDeclaration(x) => match st.cur {
            Some(l) => {
                let step = exit_step(env, st.locs, l, x);
                step.2 + nodes_diags(env, StV { cur: st.cur, locs: step.1 }, x.children@)
            },
            None => Seq::empty(),
        },
        ContentNode::RuleBlock(r) => rule_diags(env, st.locs, r),
        _ => Seq::empty(),
    }
}

pub open spec fn nodes_diags(env: EnvV, st: StV, v: Seq<ContentNode>) -> Seq<DiagV>
    decreases v, 0int,
{
    if v.len() == 0 {
        Seq::empty()
    } else {
        let p = v.subrange(0, v.len() - 1);
        nodes_diags(env, st, p) + node_diags(env, nodes_next(env, st, p), v[v.len() - 1])
    }
}

/// `new` is node `old` resolved from state `st`: the same node with its
/// annotation slots filled as resolution fills them.
pub open spec fn node_res(env: EnvV, st: StV, old: ContentNode, new: ContentNode) -> bool
    decreases old, 1int,
{
    match old {
        ContentNode::EntitySpeech(a) => match new {
            ContentNode::EntitySpeech(b) => b.entity_ref == a.entity_ref && b.text == a.text && b.span == a.span
                && slot_view(b.annotation) == entity_slot(env, a.entity_ref@, slot_view(a.annotation)),
            _ => false,
        },
        ContentNode::StageDirection(a) => match new {
            ContentNode::StageDirection(b) => b.entity_ref == a.entity_ref && b.text == a.text && b.span == a.span
                && slot_view(b.annotation) == entity_slot(env, a.entity_ref@, slot_view(a.annotation)),
            _ => false,
        },
        ContentNode::EntityPresence(a) => if st.cur is None {
            new == old
        } else {
            match new {
                ContentNode::EntityPresence(b) => b.entity_refs == a.entity_refs && b.span == a.span
                    && b.annotations@.len() == a.annotations@.len()
                    && forall|i: int| 0 <= i < a.annotations@.len() ==> slot_view(#[trigger] b.annotations@[i])
                        == presence_slot(env, strings_view(a.entity_refs@), a.annotations@, i),
                _ => false,
            }
        },
        ContentNode::Choice(a) => match new {
            ContentNode::Choice(b) => b.sticky == a.sticky && b.label == a.label && b.target == a.target
                && b.target_type == a.target_type && b.indent_level == a.indent_level && b.span == a.span
                && slot_view(b.annotation) == target_slot(env, a.target, slot_view(a.annotation))
                && nodes_res(env, st, a.content@, b.content@),
            _ => false,
        },
        ContentNode::Condition(a) => match new {
            ContentNode::Condition(b) => b.indent_level == a.indent_level && b.span == a.span
                && cond_text(b.expr) == cond_text(a.expr) && cond_slot(b.expr) == cond_res(env, st.locs, a.expr).0,
            _ => false,
        },
        ContentNode::OrConditionBlock(a) => match new {
            ContentNode::OrConditionBlock(b) => b.indent_level == a.indent_level && b.span == a.span
                && conds_done(env, st.locs, a.conditions@, b.conditions@),
            _ => false,
        },
        ContentNode::Effect(a) => match new {
            ContentNode::Effect(b) => b.effect_type == a.effect_type && b.indent_level == a.indent_level && b.span == a.span
                && slot_view(b.annotation) == effect_line_res(env, st.locs, a).0,
            _ => false,
        },
        ContentNode::Jump(a) => match new {
            ContentNode::Jump(b) => b.target == a.target && b.is_exit_qualified == a.is_exit_qualified
                && b.indent_level == a.indent_level && b.span == a.span
                && slot_view(b.annotation) == jump_res(env, st.locs, st.cur, a.target@, a.is_exit_qualified,
                    slot_view(a.annotation), span_view(a.span)).0,
            _ => false,
        },
        ContentNode::ExitDeclaration(a) => match st.cur {
            Some(l) => match new {
                ContentNode::ExitDeclaration(b) => {
                    let step = exit_step(env, st.locs, l, a);
                    b.direction == a.direction && b.destination == a.destination && b.span == a.span
                        && slot_view(b.annotation) == step.0
                        && nodes_res(env, StV { cur: st.cur, locs: step.1 }, a.children@, b.children@)
                },
                _ => false,
            },
            None => new == old,
        },
        ContentNode::RuleBlock(a) => match new {
            ContentNode::RuleBlock(b) => rule_done(env, st.locs, a, b),
            _ => false,
        },
        _ => new == old,
    }
}

pub open spec fn nodes_res(env: EnvV, st: StV, old: Seq<ContentNode>, new: Seq<ContentNode>) -> bool
    decreases old, 0int,
{
    if old.len() == 0 {
        new.len() == 0
    } else {
        let p = old.subrange(0, old.len() - 1);
        &&& new.len() == old.len()
        &&& nodes_res(env, st, p, new.subrange(0, new.len() - 1))
        &&& node_res(env, nodes_next(env, st, p), old[old.len() - 1], new[new.len() - 1])
    }
}


fn add_contained_exec(tables: &mut SymbolTable, loc_id: &String, entity_id: &String)
    ensures
        location_entries(final(tables).locations) == add_contained(location_entries(old(tables).locations), loc_id@, entity_id@),
        final(tables).entities == old(tables).entities,
        final(tables).types == old(tables).types,
        only_locations_changed(*old(tables), *final(tables)),
{
    let ghost locs = location_entries(tables.locations);
    proof { lemma_key_index(locs, loc_id@); }
    let updated = match location_get(&tables.locations, loc_id.as_str()) {
        Some(loc) => {
            if contains_str(&loc.contains, entity_id.as_str()) {
                None
            } else {
                let mut l2 = loc.duplicate();
                l2.contains.push(entity_id.clone());
                assert(strings_view(l2.contains@) =~= strings_view(loc.contains@).push(entity_id@));
                Some(l2)
            }
        },
        None => None,
    };
    match updated {
        Some(l2) => {
            location_insert(&mut tables.locations, loc_id.clone(), l2);
        },
        None => {},
    }
}

fn set_exit_destination_exec(tables: &mut SymbolTable, loc_id: &String, direction: &String, slug: &String)
    ensures
        location_entries(final(tables).locations)
            == set_exit_destination(location_entries(old(tables).locations), loc_id@, direction@, slug@),
        final(tables).entities == old(tables).entities,
        final(tables).types == old(tables).types,
        only_locations_changed(*old(tables), *final(tables)),
{
    let ghost locs = location_entries(tables.locations);
    proof { lemma_key_index(locs, loc_id@); }
    let updated = match location_get(&tables.locations, loc_id.as_str()) {
        Some(loc) => {
            proof { lemma_key_index(exits_view(loc.exits@), direction@); }
            match exit_index(&loc.exits, direction.as_str()) {
                Some(x) => {
                    let mut l2 = loc.duplicate();
                    let updated_exit = l2.exits[x].with_destination(Some(slug.clone()));
                    let ghost before = l2.exits@;
                    l2.exits.set(x, updated_exit);
                    assert(exits_view(l2.exits@) =~= exits_view(before).update(x as int, (exits_view(before)[x as int].0, Some(slug@))));
                    assert(l2.exits@.map_values(|e: ExitSymbol| exit_rest(e)) =~= before.map_values(|e: ExitSymbol| exit_rest(e)));
                    Some(l2)
                },
                None => None,
            }
        },
        None => None,
    };
    match updated {
        Some(l2) => {
            location_insert(&mut tables.locations, loc_id.clone(), l2);
        },
        None => {},
    }
}


fn resolve_conditions(
    cs: &mut Vec<ConditionExpr>,
    file_path: &str,
    ctx: &FileContext,
    tables: &SymbolTable,
    diagnostics: &mut DiagnosticCollector,
)
    ensures
        conds_done(env_of(file_path@, *ctx, *tables), location_entries(tables.locations), old(cs)@, final(cs)@),
        logged(final(diagnostics)@, old(diagnostics)@,
            conds_diags(env_of(file_path@, *ctx, *tables), location_entries(tables.locations), old(cs)@)),
{
    let ghost env = env_of(file_path@, *ctx, *tables);
    let ghost locs = location_entries(tables.locations);
    let ghost orig = cs@;
    let ghost d0 = diagnostics@;
    proof { lemma_logged_empty(d0); }
    let mut i: usize = 0;
    while i < cs.len()
        invariant
            env == env_of(file_path@, *ctx, *tables),
            locs == location_entries(tables.locations),
            i <= cs@.len() == orig.len(),
            forall|j: int| i <= j < orig.len() ==> cs@[j] == orig[j],
            forall|j: int| 0 <= j < i ==> cond_text(#[trigger] cs@[j]) == cond_text(orig[j])
                && cond_slot(cs@[j]) == cond_res(env, locs, orig[j]).0,
            logged(diagnostics@, d0, conds_diags(env, locs, orig.take(i as int))),
        decreases orig.len() - i,
    {
        let mut c = cs.remove(i);
        let ghost d1 = diagnostics@;
        resolve_condition_expr(&mut c, file_path, ctx, tables, diagnostics);
        cs.insert(i, c);
        proof {
            assert(orig.take(i + 1).subrange(0, i as int) =~= orig.take(i as int));
            lemma_logged_trans(d0, d1, diagnostics@, conds_diags(env, locs, orig.take(i as int)), cond_res(env, locs, orig[i as int]).1);
        }
        i += 1;
    }
    assert(orig.take(orig.len() as int) =~= orig);
}

fn resolve_effects(
    es: &mut Vec<Effect>,
    file_path: &str,
    ctx: &FileContext,
    tables: &SymbolTable,
    diagnostics: &mut DiagnosticCollector,
)
    ensures
        effects_done(env_of(file_path@, *ctx, *tables), location_entries(tables.locations), old(es)@, final(es)@),
        logged(final(diagnostics)@, old(diagnostics)@,
            effects_diags(env_of(file_path@, *ctx, *tables), location_entries(tables.locations), old(es)@)),
{
    let ghost env = env_of(file_path@, *ctx, *tables);
    let ghost locs = location_entries(tables.locations);
    let ghost orig = es@;
    let ghost d0 = diagnostics@;
    proof { lemma_logged_empty(d0); }
    let mut i: usize = 0;
    while i < es.len()
        invariant
            env == env_of(file_path@, *ctx, *tables),
            locs == location_entries(tables.locations),
            i <= es@.len() == orig.len(),
            forall|j: int| i <= j < orig.len() ==> es@[j] == orig[j],
            forall|j: int| 0 <= j < i ==> (#[trigger] es@[j]).effect_type == orig[j].effect_type
                && es@[j].indent_level == orig[j].indent_level && es@[j].span == orig[j].span
                && slot_view(es@[j].annotation) == effect_line_res(env, locs, orig[j]).0,
            logged(diagnostics@, d0, effects_diags(env, locs, orig.take(i as int))),
        decreases orig.len() - i,
    {
        let mut e = es.remove(i);
        let ghost d1 = diagnostics@;
        resolve_effect(&e.effect_type, &mut e.annotation, &e.span, file_path, ctx, tables, diagnostics);
        es.insert(i, e);
        proof {
            assert(orig.take(i + 1).subrange(0, i as int) =~= orig.take(i as int));
            lemma_logged_trans(d0, d1, diagnostics@, effects_diags(env, locs, orig.take(i as int)), effect_line_res(env, locs, orig[i as int]).1);
        }
        i += 1;
    }
    assert(orig.take(orig.len() as int) =~= orig);
}

/// Resolve each reference of a list, reporting what does not resolve; the
/// IDs themselves are not kept.
fn resolve_refs(
    refs: &Vec<String>,
    span: &Span,
    file_path: &str,
    ctx: &FileContext,
    tables: &SymbolTable,
    diagnostics: &mut DiagnosticCollector,
)
    ensures
        logged(final(diagnostics)@, old(diagnostics)@,
            refs_diags(env_of(file_path@, *ctx, *tables), strings_view(refs@), span_view(*span))),
{
    let ghost env = env_of(file_path@, *ctx, *tables);
    let ghost rv = strings_view(refs@);
    let ghost d0 = diagnostics@;
    proof { lemma_logged_empty(d0); }
    let mut i: usize = 0;
    while i < refs.len()
        invariant
            env == env_of(file_path@, *ctx, *tables),
            rv == strings_view(refs@),
            i <= refs@.len(),
            logged(diagnostics@, d0, refs_diags(env, rv.take(i as int), span_view(*span))),
        decreases refs@.len() - i,
    {
        let ghost d1 = diagnostics@;
        let _ = resolve_entity_ref_value(refs[i].as_str(), span, file_path, ctx, tables, diagnostics);
        proof {
            assert(rv.take(i + 1).subrange(0, i as int) =~= rv.take(i as int));
            assert(rv.take(i + 1)[i as int] == refs@[i as int]@);
            lemma_logged_trans(d0, d1, diagnostics@, refs_diags(env, rv.take(i as int), span_view(*span)),
                entity_ref_diags(env, refs@[i as int]@, span_view(*span)));
        }
        i += 1;
    }
    assert(rv.take(rv.len() as int) =~= rv);
}

fn resolve_rule_block(
    rule: &mut RuleBlock,
    file_path: &str,
    ctx: &FileContext,
    tables: &SymbolTable,
    diagnostics: &mut DiagnosticCollector,
)
    ensures
        rule_done(env_of(file_path@, *ctx, *tables), location_entries(tables.locations), *old(rule), *final(rule)),
        logged(final(diagnostics)@, old(diagnostics)@,
            rule_diags(env_of(file_path@, *ctx, *tables), location_entries(tables.locations), *old(rule))),
{
    let ghost env = env_of(file_path@, *ctx, *tables);
    let ghost locs = location_entries(tables.locations);
    let ghost d0 = diagnostics@;
    proof { lemma_logged_empty(d0); }
    match &mut rule.select {
        Some(sel) => {
            resolve_refs(&sel.entity_refs, &rule.span, file_path, ctx, tables, diagnostics);
            let ghost d1 = diagnostics@;
            resolve_conditions(&mut sel.where_clauses, file_path, ctx, tables, diagnostics);
            proof { lemma_logged_trans(d0, d1, diagnostics@, refs_diags(env, strings_view(sel.entity_refs@), span_view(rule.span)),
                conds_diags(env, locs, old(rule).select.unwrap().where_clauses@)); }
        },
        None => {},
    }
    let ghost d2 = diagnostics@;
    resolve_conditions(&mut rule.where_clauses, file_path, ctx, tables, diagnostics);
    let ghost d3 = diagnostics@;
    resolve_effects(&mut rule.effects, file_path, ctx, tables, diagnostics);
    proof {
        let pre = match old(rule).select {
            Some(sel) => refs_diags(env, strings_view(sel.entity_refs@), span_view(old(rule).span))
                + conds_diags(env, locs, sel.where_clauses@),
            None => Seq::empty(),
        };
        lemma_logged_trans(d0, d2, d3, pre, conds_diags(env, locs, old(rule).where_clauses@));
        lemma_logged_trans(d0, d3, diagnostics@, pre + conds_diags(env, locs, old(rule).where_clauses@),
            effects_diags(env, locs, old(rule).effects@));
    }
}


fn resolve_presence(
    ep: &mut EntityPresence,
    loc_id: &String,
    file_path: &str,
    ctx: &FileContext,
    tables: &mut SymbolTable,
    diagnostics: &mut DiagnosticCollector,
)
    ensures
        final(ep).entity_refs == old(ep).entity_refs,
        final(ep).span == old(ep).span,
        final(ep).annotations@.len() == old(ep).annotations@.len(),
        forall|i: int| 0 <= i < old(ep).annotations@.len() ==> slot_view(#[trigger] final(ep).annotations@[i])
            == presence_slot(env_of(file_path@, *ctx, *old(tables)), strings_view(old(ep).entity_refs@), old(ep).annotations@, i),
        location_entries(final(tables).locations) == presence_locs(env_of(file_path@, *ctx, *old(tables)),
            location_entries(old(tables).locations), loc_id@, strings_view(old(ep).entity_refs@)),
        final(tables).entities == old(tables).entities,
        final(tables).types == old(tables).types,
        only_locations_changed(*old(tables), *final(tables)),
        logged(final(diagnostics)@, old(diagnostics)@,
            refs_diags(env_of(file_path@, *ctx, *old(tables)), strings_view(old(ep).entity_refs@), span_view(old(ep).span))),
{
    let ghost env = env_of(file_path@, *ctx, *tables);
    let ghost rv = strings_view(ep.entity_refs@);
    let ghost olds = ep.annotations@;
    let ghost locs0 = location_entries(tables.locations);
    let ghost e0 = tables.entities;
    let ghost t0 = tables.types;
    let ghost d0 = diagnostics@;
    proof { lemma_logged_empty(d0); }
    let mut i: usize = 0;
    while i < ep.entity_refs.len()
        invariant
            tables.entities == e0,
            tables.types == t0,
            only_locations_changed(*old(tables), *tables),
            env == env_of(file_path@, *ctx, *tables),
            rv == strings_view(ep.entity_refs@),
            ep.entity_refs == old(ep).entity_refs,
            ep.span == old(ep).span,
            i <= ep.entity_refs@.len(),
            ep.annotations@.len() == olds.len(),
            forall|j: int| 0 <= j < olds.len() ==> slot_view(#[trigger] ep.annotations@[j])
                == if j < i { presence_slot(env, rv, olds, j) } else { slot_view(olds[j]) },
            location_entries(tables.locations) == presence_locs(env, locs0, loc_id@, rv.take(i as int)),
            logged(diagnostics@, d0, refs_diags(env, rv.take(i as int), span_view(ep.span))),
        decreases ep.entity_refs@.len() - i,
    {
        let ghost d1 = diagnostics@;
        let resolved = resolve_entity_ref_value(ep.entity_refs[i].as_str(), &ep.span, file_path, ctx, tables, diagnostics);
        proof {
            assert(rv.take(i + 1).subrange(0, i as int) =~= rv.take(i as int));
            assert(rv.take(i + 1)[i as int] == ep.entity_refs@[i as int]@);
            lemma_logged_trans(d0, d1, diagnostics@, refs_diags(env, rv.take(i as int), span_view(ep.span)),
                entity_ref_diags(env, ep.entity_refs@[i as int]@, span_view(ep.span)));
        }
        match resolved {
            Some(id) => {
                if i < ep.annotations.len() {
                    ep.annotations.set(i, Some(annotation(Some(id.clone()), None, None, None, None)));
                }
                add_contained_exec(tables, loc_id, &id);
            },
            None => {},
        }
        i += 1;
    }
    assert(rv.take(rv.len() as int) =~= rv);
}

/// Resolve one node (and, recursively, the nodes nested in it), returning
/// it with its annotation slots filled.
fn resolve_node(
    n: ContentNode,
    file_path: &str,
    ctx: &FileContext,
    current_location_id: &mut Option<String>,
    tables: &mut SymbolTable,
    diagnostics: &mut DiagnosticCollector,
) -> (r: ContentNode)
    ensures
        node_res(env_of(file_path@, *ctx, *old(tables)), st_of(*old(current_location_id), *old(tables)), n, r),
        st_of(*final(current_location_id), *final(tables))
            == node_next(env_of(file_path@, *ctx, *old(tables)), st_of(*old(current_location_id), *old(tables)), n),
        final(tables).entities == old(tables).entities,
        final(tables).types == old(tables).types,
        only_locations_changed(*old(tables), *final(tables)),
        logged(final(diagnostics)@, old(diagnostics)@,
            node_diags(env_of(file_path@, *ctx, *old(tables)), st_of(*old(current_location_id), *old(tables)), n)),
    decreases n, 1int,
{
    let ghost env = env_of(file_path@, *ctx, *tables);
    let ghost st = st_of(*current_location_id, *tables);
    let ghost d0 = diagnostics@;
    proof { lemma_logged_empty(d0); }
    match n {
        ContentNode::LocationHeading(loc) => {
            let id = slugify(loc.display_name.as_str());
            if !id.as_str().is_empty() {
                *current_location_id = Some(id);
            }
            ContentNode::LocationHeading(loc)
        },
        ContentNode::EntitySpeech(mut speech) => {
            let resolved = resolve_entity_ref_value(speech.entity_ref.as_str(), &speech.span, file_path, ctx, tables, diagnostics);
            match resolved {
                Some(id) => { speech.annotation = Some(annotation(Some(id), None, None, None, None)); },
                None => {},
            }
            ContentNode::EntitySpeech(speech)
        },
        ContentNode::StageDirection(mut sd) => {
            let resolved = resolve_entity_ref_value(sd.entity_ref.as_str(), &sd.span, file_path, ctx, tables, diagnostics);
            match resolved {
                Some(id) => { sd.annotation = Some(annotation(Some(id), None, None, None, None)); },
                None => {},
            }
            ContentNode::StageDirection(sd)
        },
        ContentNode::EntityPresence(mut ep) => {
            match current_location_id {
                Some(loc_id) => {
                    let loc = loc_id.clone();
                    resolve_presence(&mut ep, &loc, file_path, ctx, tables, diagnostics);
                },
                None => {},
            }
            ContentNode::EntityPresence(ep)
        },
        ContentNode::Choice(mut choice) => {
            match &choice.target {
                Some(target) => {
                    let resolved = resolve_entity_ref_value(target.as_str(), &choice.span, file_path, ctx, tables, diagnostics);
                    match resolved {
                        Some(id) => { choice.annotation = Some(annotation(Some(id), None, None, None, None)); },
                        None => {},
                    }
                },
                None => {},
            }
            let ghost d1 = diagnostics@;
            resolve_nodes(&mut choice.content, file_path, ctx, current_location_id, tables, diagnostics);
            proof { lemma_logged_trans(d0, d1, diagnostics@, target_diags(env, choice.target, span_view(choice.span)),
                nodes_diags(env, st, old_content_of(n))); }
            ContentNode::Choice(choice)
        },
        ContentNode::Condition(mut cond) => {
            resolve_condition_expr(&mut cond.expr, file_path, ctx, tables, diagnostics);
            ContentNode::Condition(cond)
        },
        ContentNode::OrConditionBlock(mut block) => {
            resolve_conditions(&mut block.conditions, file_path, ctx, tables, diagnostics);
            ContentNode::OrConditionBlock(block)
        },
        ContentNode::Effect(mut effect) => {
            resolve_effect(&effect.effect_type, &mut effect.annotation, &effect.span, file_path, ctx, tables, diagnostics);
            ContentNode::Effect(effect)
        },
        ContentNode::Jump(mut jump) => {
            resolve_jump(&mut jump, file_path, ctx, current_location_id, tables, diagnostics);
            ContentNode::Jump(jump)
        },
        ContentNode::ExitDeclaration(mut exit) => {
            let loc_id = match current_location_id {
                Some(l) => l.clone(),
                None => {
                    return ContentNode::ExitDeclaration(exit);
                },
            };
            let ghost step = exit_step(env, st.locs, loc_id@, exit);
            let dest_slug = slugify(exit.destination.as_str());
            if !dest_slug.as_str().is_empty() {
                proof { lemma_key_index(st.locs, dest_slug@); }
                let found = match location_get(&tables.locations, dest_slug.as_str()) {
                    Some(ls) => {
                        if in_scope(&ctx.visible_scope, ls.declared_in.file.as_str()) {
                            None
                        } else {
                            Some(Some(ls.declared_in.file.clone()))
                        }
                    },
                    None => Some(None),
                };
                match found {
                    None => {
                        set_exit_destination_exec(tables, &loc_id, &exit.direction, &dest_slug);
                        exit.annotation = Some(annotation(None, None, None, None, Some(dest_slug)));
                    },
                    Some(Some(declared_in)) => {
                        let message = cat3("Exit destination '", exit.destination.as_str(), "' does not resolve to any known location.");
                        let hint = text_not_imported("'", exit.destination.as_str(), declared_in.as_str(), file_path);
                        let d = diag_with("URD312", message, &exit.span, Some(hint));
                        proof { lemma_logged_one(diagnostics@, d, step.2[0]); }
                        diagnostics.emit(d);
                    },
                    Some(None) => {
                        let message = cat3("Exit destination '", exit.destination.as_str(), "' does not resolve to any known location.");
                        fail("URD312", message, &exit.span, diagnostics, Ghost(step.2[0]));
                    },
                }
            }
            let ghost d1 = diagnostics@;
            resolve_nodes(&mut exit.children, file_path, ctx, current_location_id, tables, diagnostics);
            proof { lemma_logged_trans(d0, d1, diagnostics@, step.2, nodes_diags(env, StV { cur: st.cur, locs: step.1 }, old_children_of(n))); }
            ContentNode::ExitDeclaration(exit)
        },
        ContentNode::RuleBlock(mut rule) => {
            resolve_rule_block(&mut rule, file_path, ctx, tables, diagnostics);
            ContentNode::RuleBlock(rule)
        },
        other => other,
    }
}

pub open spec fn old_content_of(n: ContentNode) -> Seq<ContentNode> {
    match n {
        ContentNode::Choice(c) => c.content@,
        _ => Seq::empty(),
    }
}

pub open spec fn old_children_of(n: ContentNode) -> Seq<ContentNode> {
    match n {
        ContentNode::ExitDeclaration(x) => x.children@,
        _ => Seq::empty(),
    }
}

/// Resolve the nodes of `v` in order, threading the current location.
fn resolve_nodes(
    v: &mut Vec<ContentNode>,
    file_path: &str,
    ctx: &FileContext,
    current_location_id: &mut Option<String>,
    tables: &mut SymbolTable,
    diagnostics: &mut DiagnosticCollector,
)
    ensures
        nodes_res(env_of(file_path@, *ctx, *old(tables)), st_of(*old(current_location_id), *old(tables)), old(v)@, final(v)@),
        st_of(*final(current_location_id), *final(tables))
            == nodes_next(env_of(file_path@, *ctx, *old(tables)), st_of(*old(current_location_id), *old(tables)), old(v)@),
        final(tables).entities == old(tables).entities,
        final(tables).types == old(tables).types,
        only_locations_changed(*old(tables), *final(tables)),
        logged(final(diagnostics)@, old(diagnostics)@,
            nodes_diags(env_of(file_path@, *ctx, *old(tables)), st_of(*old(current_location_id), *old(tables)), old(v)@)),
    decreases old(v)@, 0int,
{
    let ghost env = env_of(file_path@, *ctx, *tables);
    let ghost st0 = st_of(*current_location_id, *tables);
    let ghost orig = v@;
    let ghost e0 = tables.entities;
    let ghost t0 = tables.types;
    let ghost d0 = diagnostics@;
    proof {
        lemma_logged_empty(d0);
        assert(orig.take(0) =~= Seq::<ContentNode>::empty());
        assert(v@.take(0) =~= Seq::<ContentNode>::empty());
    }
    let mut i: usize = 0;
    while i < v.len()
        invariant
            tables.entities == e0,
            tables.types == t0,
            only_locations_changed(*old(tables), *tables),
            env == env_of(file_path@, *ctx, *tables),
            orig == old(v)@,
            i <= v@.len() == orig.len(),
            forall|j: int| i <= j < orig.len() ==> v@[j] == orig[j],
            nodes_res(env, st0, orig.take(i as int), v@.take(i as int)),
            st_of(*current_location_id, *tables) == nodes_next(env, st0, orig.take(i as int)),
            logged(diagnostics@, d0, nodes_diags(env, st0, orig.take(i as int))),
        decreases orig.len() - i,
    {
        let ghost d1 = diagnostics@;
        let ghost st_i = st_of(*current_location_id, *tables);
        let ghost prev = v@;
        let child = v.remove(i);
        assert(child == orig[i as int]);
        let r = resolve_node(child, file_path, ctx, current_location_id, tables, diagnostics);
        v.insert(i, r);
        proof {
            let p = orig.take(i + 1);
            assert(p.subrange(0, i as int) =~= orig.take(i as int));
            assert(p[i as int] == orig[i as int]);
            assert(v@.take(i + 1).subrange(0, i as int) =~= prev.take(i as int));
            assert(v@.take(i + 1)[i as int] == r);
            lemma_logged_trans(d0, d1, diagnostics@, nodes_diags(env, st0, orig.take(i as int)), node_diags(env, st_i, orig[i as int]));
            assert forall|j: int| i + 1 <= j < orig.len() implies v@[j] == orig[j] by {
                assert(v@[j] == prev[j]);
            }
        }
        i += 1;
    }
    proof {
        assert(orig.take(orig.len() as int) =~= orig);
        assert(v@.take(v@.len() as int) =~= v@);
    }
}


/// Resolve references in a content node (recursively for nested content),
/// filling its annotation slots, recording placed entities and exit
/// destinations in the location namespace, and tracking the current
/// location.
pub fn resolve_content_node(
    node: &mut ContentNode,
    file_path: &str,
    ctx: &FileContext,
    current_location_id: &mut Option<String>,
    tables: &mut SymbolTable,
    diagnostics: &mut DiagnosticCollector,
)
    ensures
        node_res(env_of(file_path@, *ctx, *old(tables)), st_of(*old(current_location_id), *old(tables)), *old(node), *final(node)),
        st_of(*final(current_location_id), *final(tables))
            == node_next(env_of(file_path@, *ctx, *old(tables)), st_of(*old(current_location_id), *old(tables)), *old(node)),
        final(tables).entities == old(tables).entities,
        final(tables).types == old(tables).types,
        only_locations_changed(*old(tables), *final(tables)),
        logged(final(diagnostics)@, old(diagnostics)@,
            node_diags(env_of(file_path@, *ctx, *old(tables)), st_of(*old(current_location_id), *old(tables)), *old(node))),
{
    let mut taken = ContentNode::Comment(Comment { text: String::new(), span: Span::synthetic() });
    std::mem::swap(node, &mut taken);
    let resolved = resolve_node(taken, file_path, ctx, current_location_id, tables, diagnostics);
    *node = resolved;
}

/// Resolve the content of one file, in order, starting outside any
/// location.
pub fn resolve_file_content(
    content: &mut Vec<ContentNode>,
    file_path: &str,
    ctx: &FileContext,
    tables: &mut SymbolTable,
    diagnostics: &mut DiagnosticCollector,
)
    ensures
        nodes_res(env_of(file_path@, *ctx, *old(tables)), st_of(None, *old(tables)), old(content)@, final(content)@),
        location_entries(final(tables).locations)
            == nodes_next(env_of(file_path@, *ctx, *old(tables)), st_of(None, *old(tables)), old(content)@).locs,
        final(tables).entities == old(tables).entities,
        final(tables).types == old(tables).types,
        only_locations_changed(*old(tables), *final(tables)),
        logged(final(diagnostics)@, old(diagnostics)@,
            nodes_diags(env_of(file_path@, *ctx, *old(tables)), st_of(None, *old(tables)), old(content)@)),
{
    let mut current_location_id: Option<String> = None;
    resolve_nodes(content, file_path, ctx, &mut current_location_id, tables, diagnostics);
}

/// Every namespace but the locations is the same in `b` as in `a`.
pub open spec fn only_locations_changed(a: SymbolTable, b: SymbolTable) -> bool {
    &&& b.types == a.types
    &&& b.entities == a.entities
    &&& b.sections == a.sections
    &&& b.actions == a.actions
    &&& b.rules == a.rules
    &&& b.sequences == a.sequences
    &&& b.duplicates == a.duplicates
    &&& b.world_start == a.world_start
    &&& b.world_entry == a.world_entry
}

/// The location `world.start` names: its slug, when a location has it.
pub open spec fn world_start_of(locs: Seq<(Seq<char>, LocationV)>, start: Seq<char>) -> Option<Seq<char>> {
    if key_index(locs, spec_slugify(start)) is Some { Some(spec_slugify(start)) } else { None }
}

/// Resolve `world.start` to a location ID.
pub fn resolve_world_start(start: &str, tables: &SymbolTable) -> (r: Option<String>)
    ensures
        opt_view(r) == world_start_of(location_entries(tables.locations), start@),
{
    let slug = slugify(start);
    proof { lemma_key_index(location_entries(tables.locations), slug@); }
    if location_get(&tables.locations, slug.as_str()).is_some() {
        Some(slug)
    } else {
        None
    }
}

// ── Laws ──

/// Visible scope is enforced: an entity reference resolves only to an
/// entity declared under that name in a file the current file can see.
pub proof fn lemma_resolution_respects_scope(env: EnvV, r: Seq<char>)
    ensures
        entity_ref_id(env, r) matches Some(id) ==> exists|i: int| 0 <= i < env.entities.len()
            && (#[trigger] env.entities[i]).0 == r && env.entities[i].1.0 == id && env.scope.contains(env.entities[i].1.1),
{
    lemma_key_index(env.entities, r);
    if let Some(id) = entity_ref_id(env, r) {
        let i = key_index(env.entities, r).unwrap();
        assert(env.entities[i].0 == r);
    }
}

/// Every entity reference either resolves (and reports nothing) or is
/// reported exactly once, as URD301.
pub proof fn lemma_unresolved_reference_reported(env: EnvV, r: Seq<char>, span: SpanV)
    ensures
        entity_ref_id(env, r) is Some ==> entity_ref_diags(env, r, span).len() == 0,
        entity_ref_id(env, r) is None ==> entity_ref_diags(env, r, span).len() == 1
            && entity_ref_diags(env, r, span)[0].0 == Severity::Error
            && entity_ref_diags(env, r, span)[0].1 == "URD301"@,
{
}

/// A plain jump to a name that is a section of the current file resolves
/// to that section, even where the current location has an exit of the
/// same name (which is then reported as shadowed).
pub proof fn lemma_section_wins_over_exit(
    env: EnvV,
    locs: Seq<(Seq<char>, LocationV)>,
    cur: Option<Seq<char>>,
    target: Seq<char>,
    old: Option<AnnV>,
    span: SpanV,
)
    requires
        target != "end"@,
        key_index(env.sections, target) is Some,
    ensures
        jump_res(env, locs, cur, target, false, old, span).0
            == Some(ann_of(None, None, Some(env.sections[key_index(env.sections, target).unwrap()].1), None, None)),
{
}

/// Resolution changes no text: a resolved node differs from the original
/// only in its annotation slots, and a node that is not resolved at all
/// (headings, prose, comments, blocked messages, error nodes) is
/// unchanged.
pub proof fn lemma_untouched_nodes_unchanged(env: EnvV, st: StV, old: ContentNode, new: ContentNode)
    requires
        node_res(env, st, old, new),
        match old {
            ContentNode::LocationHeading(_) | ContentNode::SequenceHeading(_) | ContentNode::PhaseHeading(_)
            | ContentNode::SectionLabel(_) | ContentNode::Prose(_) | ContentNode::Comment(_)
            | ContentNode::BlockedMessage(_) | ContentNode::ErrorNode(_) => true,
            _ => false,
        },
    ensures
        new == old,
{
}


fn has_property(props: &Vec<PropertySymbol>, name: &str) -> (b: bool)
    ensures
        b == property_names(props@).contains(name@),
{
    let mut i: usize = 0;
    while i < props.len()
        invariant
            i <= props.len(),
            forall|j: int| 0 <= j < i ==> (#[trigger] props@[j]).name@ != name@,
        decreases props.len() - i,
    {
        if crate::text::str_equals(props[i].name.as_str(), name) {
            assert(property_names(props@)[i as int] == name@);
            return true;
        }
        i += 1;
    }
    proof {
        if property_names(props@).contains(name@) {
            let j = choose|j: int| 0 <= j < property_names(props@).len() && property_names(props@)[j] == name@;
            assert(props@[j].name@ == name@);
        }
    }
    false
}

// ── Frontmatter ──

pub open spec fn msg_unresolved_type(t: Seq<char>) -> Seq<char> {
    "Unresolved type reference '"@ + t + "'."@
}

pub open spec fn msg_unknown_type(t: Seq<char>, id: Seq<char>) -> Seq<char> {
    "Unknown type '"@ + t + "' for entity '@"@ + id + "'."@
}

/// A scope-checked lookup in the type namespace; a found type resolves to
/// its name.
pub open spec fn type_scoped(scope: Seq<Seq<char>>, types: Seq<(Seq<char>, TypeV)>, name: Seq<char>) -> Scoped {
    match key_index(types, name) {
        Some(i) => if scope.contains(types[i].1.0) {
            Scoped::Found(types[i].1.5)
        } else {
            Scoped::NotVisible(types[i].1.0)
        },
        None => Scoped::NotFound,
    }
}

/// The entity `id` recorded as having type `t`.
pub open spec fn set_entity_type(ents: Seq<(Seq<char>, EntityV)>, id: Seq<char>, t: Seq<char>) -> Seq<(Seq<char>, EntityV)> {
    match key_index(ents, id) {
        Some(k) => {
            let e = ents[k].1;
            ents.update(k, (ents[k].0, (e.0, e.1, Some(t), e.3, e.4, e.5)))
        },
        None => ents,
    }
}

/// The overrides among `ov` that name no property of the type (`names`)
/// and are not the implicit `container`, each reported.
pub open spec fn override_diags(names: Seq<Seq<char>>, t: Seq<char>, ov: Seq<(String, Scalar)>, span: SpanV) -> Seq<DiagV>
    decreases ov.len(),
{
    if ov.len() == 0 {
        Seq::empty()
    } else {
        let k = ov.last().0@;
        override_diags(names, t, ov.drop_last(), span) + if !names.contains(k) && k != "container"@ {
            seq![(Severity::Error, "URD308"@, msg_no_property(k, t), span, None)]
        } else {
            Seq::empty()
        }
    }
}

/// What resolving one frontmatter value does to the entity namespace, and
/// what it reports.
pub open spec fn fm_res_effect(file: Seq<char>, scope: Seq<Seq<char>>, types: Seq<(Seq<char>, TypeV)>,
    v: FrontmatterValue, ents: Seq<(Seq<char>, EntityV)>) -> (Seq<(Seq<char>, EntityV)>, Seq<DiagV>)
    decreases v, 1int,
{
    match v {
        FrontmatterValue::EntityDecl(ed) => {
            let t = ed.entity_type@;
            let span = span_view(ed.span);
            match type_scoped(scope, types, t) {
                Scoped::Found(tn) => (set_entity_type(ents, ed.id@, tn), match key_index(types, t) {
                    Some(k) => override_diags(types[k].1.1, t, ed.property_overrides@, span),
                    None => Seq::empty(),
                }),
                Scoped::NotVisible(f) => (ents, seq![(Severity::Error, "URD301"@, msg_unresolved_type(t), span,
                    Some(msg_not_imported("'"@, t, f, file)))]),
                Scoped::NotFound => (ents, seq![(Severity::Error, "URD307"@, msg_unknown_type(t, ed.id@), span,
                    match suggestion_of(t, keys_of(types)) {
                        Some(x) => Some(msg_mean(x)),
                        None => None,
                    })]),
            }
        },
        FrontmatterValue::Mapping(es) => fm_res_effects(file, scope, types, es@, ents),
        _ => (ents, Seq::empty()),
    }
}

pub open spec fn fm_res_effects(file: Seq<char>, scope: Seq<Seq<char>>, types: Seq<(Seq<char>, TypeV)>,
    es: Seq<FrontmatterEntry>, ents: Seq<(Seq<char>, EntityV)>) -> (Seq<(Seq<char>, EntityV)>, Seq<DiagV>)
    decreases es, 0int,
{
    if es.len() == 0 {
        (ents, Seq::empty())
    } else {
        let a = fm_res_effects(file, scope, types, es.subrange(0, es.len() - 1), ents);
        let b = fm_res_effect(file, scope, types, es[es.len() - 1].value, a.0);
        (b.0, a.1 + b.1)
    }
}

/// How resolution changes a frontmatter value: an entity declaration whose
/// type resolves gets its annotation (entity and type); nothing else
/// changes.
pub open spec fn fm_res(scope: Seq<Seq<char>>, types: Seq<(Seq<char>, TypeV)>, old: FrontmatterValue, new: FrontmatterValue) -> bool
    decreases old, 1int,
{
    match old {
        FrontmatterValue::EntityDecl(a) => match new {
            FrontmatterValue::EntityDecl(b) => b.id == a.id && b.entity_type == a.entity_type
                && b.property_overrides == a.property_overrides && b.span == a.span
                && match type_scoped(scope, types, a.entity_type@) {
                    Scoped::Found(tn) => slot_view(b.annotation) == Some(ann_of(Some(a.id@), Some(tn), None, None, None)),
                    _ => b.annotation == a.annotation,
                },
            _ => false,
        },
        FrontmatterValue::Mapping(xs) => match new {
            FrontmatterValue::Mapping(ys) => fm_entries_res(scope, types, xs@, ys@),
            _ => false,
        },
        _ => new == old,
    }
}

pub open spec fn fm_entries_res(scope: Seq<Seq<char>>, types: Seq<(Seq<char>, TypeV)>, old: Seq<FrontmatterEntry>, new: Seq<FrontmatterEntry>) -> bool
    decreases old, 0int,
{
    if old.len() == 0 {
        new.len() == 0
    } else {
        let a = old[old.len() - 1];
        let b = new[new.len() - 1];
        &&& new.len() == old.len()
        &&& fm_entries_res(scope, types, old.subrange(0, old.len() - 1), new.subrange(0, new.len() - 1))
        &&& b.key == a.key && b.span == a.span
        &&& fm_res(scope, types, a.value, b.value)
    }
}

/// Record the resolved type of entity `id`.
fn set_entity_type_exec(tables: &mut SymbolTable, id: &String, t: &String)
    ensures
        entity_entries(final(tables).entities) == set_entity_type(entity_entries(old(tables).entities), id@, t@),
        final(tables).types == old(tables).types,
        final(tables).locations == old(tables).locations,
        final(tables).sections == old(tables).sections,
        final(tables).actions == old(tables).actions,
        final(tables).rules == old(tables).rules,
        final(tables).sequences == old(tables).sequences,
        final(tables).duplicates == old(tables).duplicates,
        final(tables).world_start == old(tables).world_start,
        final(tables).world_entry == old(tables).world_entry,
{
    proof { lemma_key_index(entity_entries(tables.entities), id@); }
    let updated = match entity_get(&tables.entities, id.as_str()) {
        Some(e) => Some(EntitySymbol {
            id: e.id.clone(),
            entity_type: e.entity_type.clone(),
            type_symbol: Some(t.clone()),
            property_overrides: clone_value_pairs(&e.property_overrides),
            declared_in: e.declared_in.clone(),
        }),
        None => None,
    };
    match updated {
        Some(e2) => { entity_insert(&mut tables.entities, id.clone(), e2); },
        None => {},
    }
}

fn clone_value(v: &Value) -> (r: Value)
    ensures
        value_sv(r) == value_sv(*v),
    decreases v,
{
    match v {
        Value::String(t) => Value::String(t.clone()),
        Value::Integer(n) => Value::Integer(*n),
        Value::Number(t) => Value::Number(t.clone()),
        Value::Boolean(b) => Value::Boolean(*b),
        Value::EntityRef(t) => Value::EntityRef(t.clone()),
        Value::List(items) => {
            let mut out: Vec<Value> = Vec::new();
            let mut i: usize = 0;
            while i < items.len()
                invariant
                    i <= items.len(),
                    values_sv(out@) == values_sv(items@.take(i as int)),
                    *v == Value::List(*items),
                decreases items.len() - i,
            {
                proof {
                    assert(decreases_to!(*v => (*v)->List_0));
                    vstd::std_specs::vec::axiom_vec_index_decreases(*items, i as int);
                }
                let x = clone_value(&items[i]);
                proof {
                    assert(out@.push(x).subrange(0, out@.len() as int) =~= out@);
                    assert(items@.take(i + 1).subrange(0, i as int) =~= items@.take(i as int));
                }
                out.push(x);
                i += 1;
            }
            assert(items@.take(items.len() as int) =~= items@);
            Value::List(out)
        },
    }
}

fn clone_value_pairs(v: &Vec<(String, Value)>) -> (r: Vec<(String, Value)>)
    ensures
        value_pairs_sv(r@) == value_pairs_sv(v@),
{
    let mut out: Vec<(String, Value)> = Vec::new();
    let mut i: usize = 0;
    while i < v.len()
        invariant
            i <= v.len(),
            out@.len() == i,
            forall|j: int| 0 <= j < i ==> (#[trigger] out@[j]).0@ == v@[j].0@ && value_sv(out@[j].1) == value_sv(v@[j].1),
        decreases v.len() - i,
    {
        out.push((v[i].0.clone(), clone_value(&v[i].1)));
        i += 1;
    }
    assert(value_pairs_sv(out@) =~= value_pairs_sv(v@));
    out
}

/// Report the overrides of an entity declaration that name no property of
/// its type.
fn check_overrides(ed: &EntityDecl, ts: &TypeSymbol, diagnostics: &mut DiagnosticCollector)
    ensures
        logged(final(diagnostics)@, old(diagnostics)@,
            override_diags(property_names(ts.properties@), ed.entity_type@, ed.property_overrides@, span_view(ed.span))),
{
    let ghost names = property_names(ts.properties@);
    let ghost d0 = diagnostics@;
    proof {
        lemma_logged_empty(d0);
        assert(ed.property_overrides@.take(0) =~= Seq::<(String, Scalar)>::empty());
        reveal_strlit("container");
        reveal_strlit("URD308");
    }
    let mut i: usize = 0;
    while i < ed.property_overrides.len()
        invariant
            i <= ed.property_overrides.len(),
            names == property_names(ts.properties@),
            logged(diagnostics@, d0, override_diags(names, ed.entity_type@, ed.property_overrides@.take(i as int), span_view(ed.span))),
        decreases ed.property_overrides.len() - i,
    {
        let ghost d1 = diagnostics@;
        proof {
            assert(ed.property_overrides@.take(i + 1).drop_last() =~= ed.property_overrides@.take(i as int));
            assert(ed.property_overrides@.take(i + 1).last() == ed.property_overrides@[i as int]);
            lemma_logged_empty(d1);
        }
        let k = ed.property_overrides[i].0.as_str();
        if !has_property(&ts.properties, k) && !crate::text::str_equals(k, "container") {
            let message = cat5("Property '", k, "' does not exist on type '", ed.entity_type.as_str(), "'.");
            let d = diag_with("URD308", message, &ed.span, None);
            proof {
                reveal_strlit("Property '");
                reveal_strlit("' does not exist on type '");
                reveal_strlit("'.");
                lemma_logged_one(d1, d, (Severity::Error, "URD308"@, msg_no_property(k@, ed.entity_type@), span_view(ed.span), None));
            }
            diagnostics.emit(d);
        }
        proof {
            lemma_logged_trans(d0, d1, diagnostics@,
                override_diags(names, ed.entity_type@, ed.property_overrides@.take(i as int), span_view(ed.span)),
                if !names.contains(k@) && k@ != "container"@ {
                    seq![(Severity::Error, "URD308"@, msg_no_property(k@, ed.entity_type@), span_view(ed.span), None)]
                } else {
                    Seq::<DiagV>::empty()
                });
        }
        i += 1;
    }
    assert(ed.property_overrides@.take(ed.property_overrides.len() as int) =~= ed.property_overrides@);
}

/// Resolve an entity declaration's type: annotate the declaration and
/// record the type on the entity, or report the type as not imported
/// (URD301) or unknown (URD307); once the type resolves, check the
/// property overrides against it (URD308).
fn resolve_entity_decl(
    mut ed: EntityDecl,
    file_path: &str,
    visible_scope: &Vec<String>,
    symbol_table: &mut SymbolTable,
    diagnostics: &mut DiagnosticCollector,
) -> (r: EntityDecl)
    ensures
        fm_res(strings_view(visible_scope@), type_entries(old(symbol_table).types), FrontmatterValue::EntityDecl(ed),
            FrontmatterValue::EntityDecl(r)),
        entity_entries(final(symbol_table).entities) == fm_res_effect(file_path@, strings_view(visible_scope@),
            type_entries(old(symbol_table).types), FrontmatterValue::EntityDecl(ed), entity_entries(old(symbol_table).entities)).0,
        logged(final(diagnostics)@, old(diagnostics)@, fm_res_effect(file_path@, strings_view(visible_scope@),
            type_entries(old(symbol_table).types), FrontmatterValue::EntityDecl(ed), entity_entries(old(symbol_table).entities)).1),
        final(symbol_table).types == old(symbol_table).types,
        final(symbol_table).locations == old(symbol_table).locations,
        final(symbol_table).sections == old(symbol_table).sections,
        final(symbol_table).actions == old(symbol_table).actions,
        final(symbol_table).rules == old(symbol_table).rules,
        final(symbol_table).sequences == old(symbol_table).sequences,
        final(symbol_table).duplicates == old(symbol_table).duplicates,
        final(symbol_table).world_start == old(symbol_table).world_start,
        final(symbol_table).world_entry == old(symbol_table).world_entry,
{
    let ghost types = type_entries(symbol_table.types);
    let ghost eff = fm_res_effect(file_path@, strings_view(visible_scope@), types, FrontmatterValue::EntityDecl(ed),
        entity_entries(symbol_table.entities));
    proof { lemma_key_index(types, ed.entity_type@); }
    match type_get(&symbol_table.types, ed.entity_type.as_str()) {
        Some(ts) => {
            if in_scope(visible_scope, ts.declared_in.file.as_str()) {
                let tn = ts.name.clone();
                let ghost d0 = diagnostics@;
                check_overrides(&ed, ts, diagnostics);
                set_entity_type_exec(symbol_table, &ed.id, &tn);
                ed.annotation = Some(annotation(Some(ed.id.clone()), Some(tn), None, None, None));
                ed
            } else {
                let message = cat3("Unresolved type reference '", ed.entity_type.as_str(), "'.");
                let hint = text_not_imported("'", ed.entity_type.as_str(), ts.declared_in.file.as_str(), file_path);
                let d = diag_with("URD301", message, &ed.span, Some(hint));
                proof {
                    reveal_strlit("Unresolved type reference '");
                    reveal_strlit("'.");
                    reveal_strlit("URD301");
                    lemma_logged_one(diagnostics@, d, eff.1[0]);
                }
                diagnostics.emit(d);
                ed
            }
        },
        None => {
            let message = cat5("Unknown type '", ed.entity_type.as_str(), "' for entity '@", ed.id.as_str(), "'.");
            let names = type_keys(&symbol_table.types);
            let hint = match find_suggestion(ed.entity_type.as_str(), names.as_slice()) {
                Some(x) => Some(cat3("Did you mean '", x.as_str(), "'?")),
                None => None,
            };
            let d = diag_with("URD307", message, &ed.span, hint);
            proof {
                reveal_strlit("Unknown type '");
                reveal_strlit("' for entity '@");
                reveal_strlit("'.");
                reveal_strlit("Did you mean '");
                reveal_strlit("'?");
                reveal_strlit("URD307");
                lemma_logged_one(diagnostics@, d, eff.1[0]);
            }
            diagnostics.emit(d);
            ed
        },
    }
}

fn resolve_fm_value(
    v: FrontmatterValue,
    file_path: &str,
    visible_scope: &Vec<String>,
    symbol_table: &mut SymbolTable,
    diagnostics: &mut DiagnosticCollector,
) -> (r: FrontmatterValue)
    ensures
        fm_res(strings_view(visible_scope@), type_entries(old(symbol_table).types), v, r),
        entity_entries(final(symbol_table).entities) == fm_res_effect(file_path@, strings_view(visible_scope@),
            type_entries(old(symbol_table).types), v, entity_entries(old(symbol_table).entities)).0,
        logged(final(diagnostics)@, old(diagnostics)@, fm_res_effect(file_path@, strings_view(visible_scope@),
            type_entries(old(symbol_table).types), v, entity_entries(old(symbol_table).entities)).1),
        final(symbol_table).types == old(symbol_table).types,
        final(symbol_table).locations == old(symbol_table).locations,
        final(symbol_table).sections == old(symbol_table).sections,
        final(symbol_table).actions == old(symbol_table).actions,
        final(symbol_table).rules == old(symbol_table).rules,
        final(symbol_table).sequences == old(symbol_table).sequences,
        final(symbol_table).duplicates == old(symbol_table).duplicates,
        final(symbol_table).world_start == old(symbol_table).world_start,
        final(symbol_table).world_entry == old(symbol_table).world_entry,
    decreases v, 1int,
{
    match v {
        FrontmatterValue::EntityDecl(ed) => {
            FrontmatterValue::EntityDecl(resolve_entity_decl(ed, file_path, visible_scope, symbol_table, diagnostics))
        },
        FrontmatterValue::Mapping(entries) => {
            let mut entries = entries;
            resolve_fm_entries(&mut entries, file_path, visible_scope, symbol_table, diagnostics);
            FrontmatterValue::Mapping(entries)
        },
        other => {
            proof { lemma_logged_empty(diagnostics@); }
            other
        },
    }
}

fn resolve_fm_entries(
    v: &mut Vec<FrontmatterEntry>,
    file_path: &str,
    visible_scope: &Vec<String>,
    symbol_table: &mut SymbolTable,
    diagnostics: &mut DiagnosticCollector,
)
    ensures
        fm_entries_res(strings_view(visible_scope@), type_entries(old(symbol_table).types), old(v)@, final(v)@),
        entity_entries(final(symbol_table).entities) == fm_res_effects(file_path@, strings_view(visible_scope@),
            type_entries(old(symbol_table).types), old(v)@, entity_entries(old(symbol_table).entities)).0,
        logged(final(diagnostics)@, old(diagnostics)@, fm_res_effects(file_path@, strings_view(visible_scope@),
            type_entries(old(symbol_table).types), old(v)@, entity_entries(old(symbol_table).entities)).1),
        final(symbol_table).types == old(symbol_table).types,
        final(symbol_table).locations == old(symbol_table).locations,
        final(symbol_table).sections == old(symbol_table).sections,
        final(symbol_table).actions == old(symbol_table).actions,
        final(symbol_table).rules == old(symbol_table).rules,
        final(symbol_table).sequences == old(symbol_table).sequences,
        final(symbol_table).duplicates == old(symbol_table).duplicates,
        final(symbol_table).world_start == old(symbol_table).world_start,
        final(symbol_table).world_entry == old(symbol_table).world_entry,
    decreases old(v)@, 0int,
{
    let ghost scope = strings_view(visible_scope@);
    let ghost types = type_entries(symbol_table.types);
    let ghost e0 = entity_entries(symbol_table.entities);
    let ghost orig = v@;
    let ghost d0 = diagnostics@;
    proof {
        lemma_logged_empty(d0);
        assert(orig.take(0) =~= Seq::<FrontmatterEntry>::empty());
        assert(v@.take(0) =~= Seq::<FrontmatterEntry>::empty());
    }
    let mut i: usize = 0;
    while i < v.len()
        invariant
            orig == old(v)@,
            i <= v@.len() == orig.len(),
            types == type_entries(symbol_table.types),
            scope == strings_view(visible_scope@),
            forall|j: int| i <= j < orig.len() ==> v@[j] == orig[j],
            fm_entries_res(scope, types, orig.take(i as int), v@.take(i as int)),
            entity_entries(symbol_table.entities) == fm_res_effects(file_path@, scope, types, orig.take(i as int), e0).0,
            logged(diagnostics@, d0, fm_res_effects(file_path@, scope, types, orig.take(i as int), e0).1),
            symbol_table.types == old(symbol_table).types,
            symbol_table.locations == old(symbol_table).locations,
            symbol_table.sections == old(symbol_table).sections,
            symbol_table.actions == old(symbol_table).actions,
            symbol_table.rules == old(symbol_table).rules,
            symbol_table.sequences == old(symbol_table).sequences,
            symbol_table.duplicates == old(symbol_table).duplicates,
            symbol_table.world_start == old(symbol_table).world_start,
            symbol_table.world_entry == old(symbol_table).world_entry,
        decreases orig.len() - i,
    {
        let ghost d1 = diagnostics@;
        let ghost prev = v@;
        let ghost acc = fm_res_effects(file_path@, scope, types, orig.take(i as int), e0);
        let entry = v.remove(i);
        assert(entry == orig[i as int]);
        proof { assert(decreases_to!(orig => orig[i as int])); }
        let nv = resolve_fm_value(entry.value, file_path, visible_scope, symbol_table, diagnostics);
        let ghost ne = FrontmatterEntry { key: entry.key, value: nv, span: entry.span };
        v.insert(i, FrontmatterEntry { key: entry.key, value: nv, span: entry.span });
        proof {
            assert(v@[i as int] == ne);
            assert(v@.take(i + 1)[i as int] == ne);
            let p = orig.take(i + 1);
            assert(p.subrange(0, i as int) =~= orig.take(i as int));
            assert(p[i as int] == orig[i as int]);
            assert(v@.take(i + 1).subrange(0, i as int) =~= prev.take(i as int));
            lemma_logged_trans(d0, d1, diagnostics@, acc.1,
                fm_res_effect(file_path@, scope, types, orig[i as int].value, acc.0).1);
            assert forall|j: int| i + 1 <= j < orig.len() implies v@[j] == orig[j] by {
                assert(v@[j] == prev[j]);
            }
        }
        i += 1;
    }
    proof {
        assert(orig.take(orig.len() as int) =~= orig);
        assert(v@.take(v@.len() as int) =~= v@);
    }
}

/// Resolve references in a frontmatter entry: entity types (recursively
/// through `types:` and `entities:` blocks).
pub fn resolve_frontmatter_entry(
    value: &mut FrontmatterValue,
    file_path: &str,
    visible_scope: &Vec<String>,
    symbol_table: &mut SymbolTable,
    diagnostics: &mut DiagnosticCollector,
)
    ensures
        fm_res(strings_view(visible_scope@), type_entries(old(symbol_table).types), *old(value), *final(value)),
        entity_entries(final(symbol_table).entities) == fm_res_effect(file_path@, strings_view(visible_scope@),
            type_entries(old(symbol_table).types), *old(value), entity_entries(old(symbol_table).entities)).0,
        logged(final(diagnostics)@, old(diagnostics)@, fm_res_effect(file_path@, strings_view(visible_scope@),
            type_entries(old(symbol_table).types), *old(value), entity_entries(old(symbol_table).entities)).1),
        final(symbol_table).types == old(symbol_table).types,
        final(symbol_table).locations == old(symbol_table).locations,
        final(symbol_table).sections == old(symbol_table).sections,
        final(symbol_table).actions == old(symbol_table).actions,
        final(symbol_table).rules == old(symbol_table).rules,
        final(symbol_table).sequences == old(symbol_table).sequences,
        final(symbol_table).duplicates == old(symbol_table).duplicates,
        final(symbol_table).world_start == old(symbol_table).world_start,
        final(symbol_table).world_entry == old(symbol_table).world_entry,
{
    let mut taken = FrontmatterValue::Scalar(Scalar::Boolean(false));
    std::mem::swap(value, &mut taken);
    let resolved = resolve_fm_value(taken, file_path, visible_scope, symbol_table, diagnostics);
    *value = resolved;
}

// ── All files ──

/// What resolution changes in the symbol table: the entity namespace
/// (resolved types) and the location namespace (placed entities, exit
/// destinations).
pub struct ResV {
    pub ents: Seq<(Seq<char>, EntityV)>,
    pub locs: Seq<(Seq<char>, LocationV)>,
}

pub open spec fn res_of(t: SymbolTable) -> ResV {
    ResV { ents: entity_entries(t.entities), locs: location_entries(t.locations) }
}

/// Each file as resolution leaves it: the file at position `i` resolved
/// in the state the files before it left, or, with no context for it,
/// unchanged.
pub open spec fn files_resolved(old: Seq<FileNode>, ctxs: Seq<FileContext>, types: Seq<(Seq<char>, TypeV)>, r: ResV,
    new: Seq<FileNode>, n: int) -> bool
{
    forall|j: int| 0 <= j < n ==> if j < ctxs.len() {
        file_resolved(old[j], ctxs[j], types, files_resolve(old.take(j), ctxs, types, r).0, #[trigger] new[j])
    } else {
        new[j] == old[j]
    }
}

pub open spec fn file_env(path: Seq<char>, ctx: FileContext, ents: Seq<(Seq<char>, EntityV)>, types: Seq<(Seq<char>, TypeV)>) -> EnvV {
    EnvV {
        file_path: path,
        scope: strings_view(ctx.visible_scope@),
        sections: section_entries(ctx.local_sections),
        entities: ents,
        types,
    }
}

pub open spec fn fm_entries_of(ast: FileAst) -> Seq<FrontmatterEntry> {
    match ast.frontmatter {
        Some(fm) => fm.entries@,
        None => Seq::empty(),
    }
}

/// One file resolved: its frontmatter, then its content from outside any
/// location.
pub open spec fn file_resolve(node: FileNode, ctx: FileContext, types: Seq<(Seq<char>, TypeV)>, r: ResV) -> (ResV, Seq<DiagV>) {
    let path = node.path@;
    let fm = fm_res_effects(path, strings_view(ctx.visible_scope@), types, fm_entries_of(node.ast), r.ents);
    let env = file_env(path, ctx, fm.0, types);
    let st = StV { cur: None, locs: r.locs };
    (ResV { ents: fm.0, locs: nodes_next(env, st, node.ast.content@).locs }, fm.1 + nodes_diags(env, st, node.ast.content@))
}

/// How resolution changes one file: annotations only.
pub open spec fn file_resolved(node: FileNode, ctx: FileContext, types: Seq<(Seq<char>, TypeV)>, r: ResV, new: FileNode) -> bool {
    let path = node.path@;
    let scope = strings_view(ctx.visible_scope@);
    let fm = fm_res_effects(path, scope, types, fm_entries_of(node.ast), r.ents);
    &&& new.path == node.path
    &&& new.imports == node.imports
    &&& new.ast.path == node.ast.path
    &&& new.ast.span == node.ast.span
    &&& new.ast.slice_fault == node.ast.slice_fault
    &&& match node.ast.frontmatter {
        Some(a) => match new.ast.frontmatter {
            Some(b) => b.span == a.span && fm_entries_res(scope, types, a.entries@, b.entries@),
            None => false,
        },
        None => new.ast.frontmatter is None,
    }
    &&& nodes_res(file_env(path, ctx, fm.0, types), StV { cur: None, locs: r.locs }, node.ast.content@, new.ast.content@)
}

/// Files resolved in order, each with the context at its position (a file
/// with none is left as it is).
pub open spec fn files_resolve(nodes: Seq<FileNode>, ctxs: Seq<FileContext>, types: Seq<(Seq<char>, TypeV)>, r: ResV) -> (ResV, Seq<DiagV>)
    decreases nodes.len(),
{
    if nodes.len() == 0 {
        (r, Seq::empty())
    } else {
        let a = files_resolve(nodes.drop_last(), ctxs, types, r);
        let k = nodes.len() - 1;
        if k < ctxs.len() {
            let b = file_resolve(nodes[k], ctxs[k], types, a.0);
            (b.0, a.1 + b.1)
        } else {
            a
        }
    }
}

/// The world start after resolution: the location `world.start` names,
/// when it names one; otherwise as before.
pub open spec fn world_start_after(w: WorldConfig, locs: Seq<(Seq<char>, LocationV)>, before: Option<Seq<char>>) -> Option<Seq<char>> {
    match w.start {
        Some(p) => match world_start_of(locs, p.0@) {
            Some(x) => Some(x),
            None => before,
        },
        None => before,
    }
}

/// The world entry after resolution: the sequence `world.entry` names,
/// when one has that ID; otherwise as before.
pub open spec fn world_entry_after(w: WorldConfig, seqs: Seq<(Seq<char>, SequenceV)>, before: Option<Seq<char>>) -> Option<Seq<char>> {
    match w.entry {
        Some(p) => if key_index(seqs, p.0@) is Some { Some(p.0@) } else { before },
        None => before,
    }
}

/// Resolve one file in place.
fn resolve_file(
    node: FileNode,
    ctx: &FileContext,
    symbol_table: &mut SymbolTable,
    diagnostics: &mut DiagnosticCollector,
) -> (r: FileNode)
    ensures
        file_resolved(node, *ctx, type_entries(old(symbol_table).types),
            res_of(*old(symbol_table)), r),
        res_of(*final(symbol_table))
            == file_resolve(node, *ctx, type_entries(old(symbol_table).types),
                res_of(*old(symbol_table))).0,
        logged(final(diagnostics)@, old(diagnostics)@, file_resolve(node, *ctx, type_entries(old(symbol_table).types),
            res_of(*old(symbol_table))).1),
        final(symbol_table).types == old(symbol_table).types,
        final(symbol_table).sections == old(symbol_table).sections,
        final(symbol_table).actions == old(symbol_table).actions,
        final(symbol_table).rules == old(symbol_table).rules,
        final(symbol_table).sequences == old(symbol_table).sequences,
        final(symbol_table).duplicates == old(symbol_table).duplicates,
        final(symbol_table).world_start == old(symbol_table).world_start,
        final(symbol_table).world_entry == old(symbol_table).world_entry,
{
    let ghost d0 = diagnostics@;
    let ghost types = type_entries(symbol_table.types);
    let ghost ents0 = entity_entries(symbol_table.entities);
    let ghost locs0 = location_entries(symbol_table.locations);
    let ghost fm = fm_res_effects(node.path@, strings_view(ctx.visible_scope@), types, fm_entries_of(node.ast), ents0);
    let ast = node.ast;
    let frontmatter = match ast.frontmatter {
        Some(fm0) => {
            let mut entries = fm0.entries;
            resolve_fm_entries(&mut entries, node.path.as_str(), &ctx.visible_scope, symbol_table, diagnostics);
            Some(Frontmatter { entries, span: fm0.span })
        },
        None => {
            proof { lemma_logged_empty(d0); }
            None
        },
    };
    let ghost d1 = diagnostics@;
    let mut content = ast.content;
    resolve_file_content(&mut content, node.path.as_str(), ctx, symbol_table, diagnostics);
    proof {
        lemma_logged_trans(d0, d1, diagnostics@, fm.1,
            nodes_diags(file_env(node.path@, *ctx, fm.0, types), StV { cur: None, locs: locs0 }, ast.content@));
    }
    FileNode {
        path: node.path,
        ast: FileAst { path: ast.path, frontmatter, content, span: ast.span, slice_fault: ast.slice_fault },
        imports: node.imports,
    }
}

/// Run resolution over all files: `world.start` and `world.entry` first,
/// then each file in order with the context collection made for it.
pub fn resolve(
    nodes: &mut Vec<FileNode>,
    symbol_table: &mut SymbolTable,
    world_config: &WorldConfig,
    file_contexts: &Vec<FileContext>,
    diagnostics: &mut DiagnosticCollector,
)
    ensures
        final(nodes)@.len() == old(nodes)@.len(),
        opt_view(final(symbol_table).world_start)
            == world_start_after(*world_config, location_entries(old(symbol_table).locations), opt_view(old(symbol_table).world_start)),
        opt_view(final(symbol_table).world_entry)
            == world_entry_after(*world_config, sequence_entries(old(symbol_table).sequences), opt_view(old(symbol_table).world_entry)),
        res_of(*final(symbol_table))
            == files_resolve(old(nodes)@, file_contexts@, type_entries(old(symbol_table).types),
                res_of(*old(symbol_table))).0,
        logged(final(diagnostics)@, old(diagnostics)@, files_resolve(old(nodes)@, file_contexts@, type_entries(old(symbol_table).types),
            res_of(*old(symbol_table))).1),
        forall|i: int| 0 <= i < old(nodes)@.len() ==> if i < file_contexts@.len() {
            file_resolved(old(nodes)@[i], file_contexts@[i], type_entries(old(symbol_table).types),
                files_resolve(old(nodes)@.take(i), file_contexts@, type_entries(old(symbol_table).types),
                    res_of(*old(symbol_table))).0,
                #[trigger] final(nodes)@[i])
        } else {
            final(nodes)@[i] == old(nodes)@[i]
        },
        final(symbol_table).types == old(symbol_table).types,
        final(symbol_table).sections == old(symbol_table).sections,
        final(symbol_table).actions == old(symbol_table).actions,
        final(symbol_table).rules == old(symbol_table).rules,
        final(symbol_table).sequences == old(symbol_table).sequences,
        final(symbol_table).duplicates == old(symbol_table).duplicates,
{
    // world.start and world.entry.
    match &world_config.start {
        Some(p) => {
            match resolve_world_start(p.0.as_str(), symbol_table) {
                Some(slug) => { symbol_table.world_start = Some(slug); },
                None => {},
            }
        },
        None => {},
    }
    match &world_config.entry {
        Some(p) => {
            proof { lemma_key_index(sequence_entries(symbol_table.sequences), p.0@); }
            if sequence_get(&symbol_table.sequences, p.0.as_str()).is_some() {
                symbol_table.world_entry = Some(p.0.clone());
            }
        },
        None => {},
    }
    let ghost types = type_entries(symbol_table.types);
    let ghost r0 = res_of(*symbol_table);
    let ghost orig = nodes@;
    let ghost d0 = diagnostics@;
    let ghost ws = symbol_table.world_start;
    let ghost we = symbol_table.world_entry;
    proof {
        lemma_logged_empty(d0);
        assert(orig.take(0) =~= Seq::<FileNode>::empty());
    }
    let mut i: usize = 0;
    while i < nodes.len()
        invariant
            orig == old(nodes)@,
            i <= nodes@.len() == orig.len(),
            types == type_entries(old(symbol_table).types),
            r0 == (res_of(*old(symbol_table))),
            symbol_table.types == old(symbol_table).types,
            symbol_table.sections == old(symbol_table).sections,
            symbol_table.actions == old(symbol_table).actions,
            symbol_table.rules == old(symbol_table).rules,
            symbol_table.sequences == old(symbol_table).sequences,
            symbol_table.duplicates == old(symbol_table).duplicates,
            symbol_table.world_start == ws,
            symbol_table.world_entry == we,
            forall|j: int| i <= j < orig.len() ==> nodes@[j] == orig[j],
            files_resolved(orig, file_contexts@, types, r0, nodes@, i as int),
            res_of(*symbol_table)
                == files_resolve(orig.take(i as int), file_contexts@, types, r0).0,
            logged(diagnostics@, d0, files_resolve(orig.take(i as int), file_contexts@, types, r0).1),
        decreases orig.len() - i,
    {
        proof {
            assert(orig.take(i + 1).drop_last() =~= orig.take(i as int));
            assert(orig.take(i + 1).last() == orig[i as int]);
        }
        if i < file_contexts.len() {
            let ghost d1 = diagnostics@;
            let ghost acc = files_resolve(orig.take(i as int), file_contexts@, types, r0);
            let ghost prev = nodes@;
            let node = nodes.remove(i);
            assert(node == orig[i as int]);
            let r = resolve_file(node, &file_contexts[i], symbol_table, diagnostics);
            nodes.insert(i, r);
            proof {
                lemma_logged_trans(d0, d1, diagnostics@, acc.1, file_resolve(orig[i as int], file_contexts@[i as int], types, acc.0).1);
                assert forall|j: int| i + 1 <= j < orig.len() implies nodes@[j] == orig[j] by {
                    assert(nodes@[j] == prev[j]);
                }
                assert forall|j: int| 0 <= j < i + 1 implies (if j < file_contexts@.len() {
                    file_resolved(orig[j], file_contexts@[j], types, files_resolve(orig.take(j), file_contexts@, types, r0).0, #[trigger] nodes@[j])
                } else {
                    nodes@[j] == orig[j]
                }) by {
                    if j < i {
                        assert(nodes@[j] == prev[j]);
                    }
                }
                assert(files_resolved(orig, file_contexts@, types, r0, nodes@, i + 1));
            }
        }
        i += 1;
    }
    proof {
        assert(orig.take(orig.len() as int) =~= orig);
    }
}

/// An entity's type resolves only to a type declared in a file the
/// declaring file can see: a type declared elsewhere leaves the entity
/// unresolved and is reported as not imported (URD301), and a type
/// declared nowhere as unknown (URD307).
pub proof fn lemma_entity_type_respects_scope(file: Seq<char>, scope: Seq<Seq<char>>, types: Seq<(Seq<char>, TypeV)>,
    ed: EntityDecl, ents: Seq<(Seq<char>, EntityV)>)
    ensures
        match key_index(types, ed.entity_type@) {
            Some(i) => !scope.contains(types[i].1.0) ==> {
                &&& fm_res_effect(file, scope, types, FrontmatterValue::EntityDecl(ed), ents).0 == ents
                &&& fm_res_effect(file, scope, types, FrontmatterValue::EntityDecl(ed), ents).1.len() == 1
                &&& fm_res_effect(file, scope, types, FrontmatterValue::EntityDecl(ed), ents).1[0].1 == "URD301"@
            },
            None => {
                &&& fm_res_effect(file, scope, types, FrontmatterValue::EntityDecl(ed), ents).0 == ents
                &&& fm_res_effect(file, scope, types, FrontmatterValue::EntityDecl(ed), ents).1.len() == 1
                &&& fm_res_effect(file, scope, types, FrontmatterValue::EntityDecl(ed), ents).1[0].1 == "URD307"@
            },
        },
{
}

} // verus!
