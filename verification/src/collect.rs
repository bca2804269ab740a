//! LINK, first pass: every declaration registered in the symbol table.
//!
//! Files are walked in dependency order. Frontmatter contributes types,
//! entities and the world block's references; content contributes
//! locations and their exits, sections and their choices (each choice also
//! an action), sequences and their phases, and rules. A name declared
//! twice keeps its first declaration; the second is reported and recorded
//! as a duplicate.

use vstd::prelude::*;
use crate::ast::{
    FileAst, opt_scalar_view, opt_strings_view, opt_view, scalar_view, scalars_view, select_view, strings_view, Choice,
    ContentNode, EntityDecl, ExitDeclaration, FrontmatterEntry, FrontmatterValue, LocationHeading, PhaseHeading,
    PropertyDef, RuleBlock, Scalar, ScalarV, TypeDef, Annotation, ContainerKind, DestinationKind, ConditionExpr,
    PropertyComparison, ContainmentCheck, ExhaustionCheck,
};
use crate::checks::report;
use crate::diagnostics::{appended, lemma_appended_empty, lemma_appended_trans, DiagnosticCollector, PlainDiag, Severity};
use crate::link::{
    clone_opt_string, clone_strings, entity_entries, entity_get, entity_insert, entity_view, key_index, lemma_key_index,
    map_put, opt_value_sv, parse_property_type, prop_view, property_names, property_type_of, type_entries, type_get,
    type_insert, type_view, value_sv, values_sv, EntityV, PropRest, PropV, TypeV, location_entries, section_symbol_entries,
    action_entries, rule_entries, sequence_entries, LocationV, SectionV, ActionV, RuleV, SequenceV, PhaseV, ExitV, ExitRest,
    ChoiceV, choice_sym_view, section_view, rule_view, phase_view, sequence_view, exit_view, exit_rest, exits_view,
    location_get, location_insert, section_symbol_get, section_symbol_insert, action_get, action_insert,
    location_view, section_entries, section_get, section_insert, sequence_get, sequence_insert, rule_get, rule_insert,
    FileContext, section_table_new,
};
use crate::graph::{file_stem, file_stem_of, FileNode};
use crate::resolve::exit_index;
use crate::slugify::{slugify, spec_slugify};
use crate::span::{Span, SpanV, span_view};
use crate::symbol_table::{
    ActionSymbol, AstNodeRef, ChoiceSymbol, LocationSymbol, Duplicate, EntitySymbol, ExitSymbol, PhaseSymbol, PropertySymbol, RuleSymbol, SectionSymbol,
    SelectDef, SequenceSymbol, SymbolTable, TypeSymbol, Value, Visibility,
};
use crate::text::{decimal, decimal_chars, push_chars, push_str, str_equals, string_from_chars};

verus! {

broadcast use vstd::string::group_string_axioms;

/// `world.start` and `world.entry` as written, each with the span of the
/// world block, for resolution in the second pass.
#[derive(Debug)]
pub struct WorldConfig {
    pub start: Option<(String, Span)>,
    pub entry: Option<(String, Span)>,
}

impl WorldConfig {
    pub fn new() -> (w: Self)
        ensures
            w.start is None,
            w.entry is None,
    {
        WorldConfig { start: None, entry: None }
    }
}

pub open spec fn world_ref_view(o: Option<(String, Span)>) -> Option<(Seq<char>, SpanV)> {
    match o {
        Some(p) => Some((p.0@, span_view(p.1))),
        None => None,
    }
}

/// A duplicate by its texts: namespace, name, span.
pub type DupV = (Seq<char>, Seq<char>, SpanV);

pub open spec fn dup_view(d: Duplicate) -> DupV {
    (d.namespace@, d.name@, span_view(d.declared_in))
}

pub open spec fn dups_view(v: Seq<Duplicate>) -> Seq<DupV> {
    v.map_values(|d: Duplicate| dup_view(d))
}

// ── Frontmatter ──

/// What frontmatter collection reads and writes.
pub struct FmSt {
    pub types: Seq<(Seq<char>, TypeV)>,
    pub entities: Seq<(Seq<char>, EntityV)>,
    pub dups: Seq<DupV>,
    pub start: Option<(Seq<char>, SpanV)>,
    pub entry: Option<(Seq<char>, SpanV)>,
}

pub open spec fn fm_state(t: SymbolTable, w: WorldConfig) -> FmSt {
    FmSt {
        types: type_entries(t.types),
        entities: entity_entries(t.entities),
        dups: dups_view(t.duplicates@),
        start: world_ref_view(w.start),
        entry: world_ref_view(w.entry),
    }
}

/// `file:line` of a span.
pub open spec fn at_line(s: SpanV) -> Seq<char> {
    s.0 + ":"@ + decimal(s.1 as nat)
}

/// The message for a name declared a second time: `lead`, the name, and
/// where each declaration stands.
pub open spec fn dup_declared(lead: Seq<char>, name: Seq<char>, first: SpanV, here: SpanV) -> Seq<char> {
    lead + name + "' declared in "@ + at_line(first) + " and "@ + at_line(here) + "."@
}

/// A property's visibility: hidden only when written `hidden`.
pub open spec fn visibility_of(o: Option<Seq<char>>) -> Visibility {
    match o {
        Some(v) => if v == "hidden"@ { Visibility::Hidden } else { Visibility::Visible },
        None => Visibility::Visible,
    }
}

/// The symbol a property definition makes.
pub open spec fn prop_of(p: PropertyDef) -> PropV {
    (p.name@, property_type_of(p.property_type@), opt_strings_view(p.values), visibility_of(opt_view(p.visibility)),
        PropRest {
            default: opt_scalar_view(p.default),
            ref_type: opt_view(p.ref_type),
            element_type: match p.element_type {
                Some(t) => Some(property_type_of(t@)),
                None => None,
            },
            element_values: opt_strings_view(p.element_values),
            element_ref_type: opt_view(p.element_ref_type),
            description: opt_view(p.description),
            span: span_view(p.span),
            raw_type: p.property_type@,
        })
}

/// Properties keyed by name.
pub open spec fn named(ps: Seq<PropV>) -> Seq<(Seq<char>, PropV)> {
    ps.map_values(|p: PropV| (p.0, p))
}

/// A property added by name: one already there of that name is replaced
/// in place.
pub open spec fn prop_put(ps: Seq<PropV>, p: PropV) -> Seq<PropV> {
    match key_index(named(ps), p.0) {
        Some(i) => ps.update(i, p),
        None => ps.push(p),
    }
}

/// The properties of a type, from its definitions in order.
pub open spec fn props_of(defs: Seq<PropertyDef>) -> Seq<PropV>
    decreases defs.len(),
{
    if defs.len() == 0 {
        Seq::empty()
    } else {
        prop_put(props_of(defs.drop_last()), prop_of(defs.last()))
    }
}

/// The symbol a type definition makes.
pub open spec fn type_of(td: TypeDef) -> TypeV {
    let ps = props_of(td.properties@);
    (td.span.file@, ps.map_values(|p: PropV| p.0), strings_view(td.traits@), ps, span_view(td.span), td.name@)
}

/// Property overrides keyed by name, a later one replacing an earlier.
pub open spec fn overrides_of(v: Seq<(String, Scalar)>) -> Seq<(Seq<char>, ScalarV)>
    decreases v.len(),
{
    if v.len() == 0 {
        Seq::empty()
    } else {
        map_put(overrides_of(v.drop_last()), v.last().0@, scalar_view(v.last().1))
    }
}

/// The symbol an entity declaration makes; its type is resolved later.
pub open spec fn entity_of(ed: EntityDecl) -> EntityV {
    (ed.id@, ed.span.file@, None, span_view(ed.span), ed.entity_type@, overrides_of(ed.property_overrides@))
}

/// The world block's `start` and `entry` fields (string values only)
/// recorded with the block's span, a later field replacing an earlier.
pub open spec fn world_fields_step(fields: Seq<(String, Scalar)>, span: SpanV, st: FmSt) -> FmSt
    decreases fields.len(),
{
    if fields.len() == 0 {
        st
    } else {
        let a = world_fields_step(fields.drop_last(), span, st);
        let f = fields.last();
        match f.1 {
            Scalar::String(s) => if f.0@ == "start"@ {
                FmSt { start: Some((s@, span)), ..a }
            } else if f.0@ == "entry"@ {
                FmSt { entry: Some((s@, span)), ..a }
            } else {
                a
            },
            _ => a,
        }
    }
}

/// One frontmatter value collected: the new state and what is reported.
pub open spec fn fm_step(v: FrontmatterValue, st: FmSt) -> (FmSt, Seq<PlainDiag>)
    decreases v, 1int,
{
    match v {
        FrontmatterValue::TypeDef(td) => match key_index(st.types, td.name@) {
            Some(i) => (
                FmSt { dups: st.dups.push(("types"@, td.name@, span_view(td.span))), ..st },
                seq![(Severity::Error, "URD303"@,
                    dup_declared("Duplicate type name '"@, td.name@, st.types[i].1.4, span_view(td.span)), span_view(td.span))],
            ),
            None => (FmSt { types: st.types.push((td.name@, type_of(td))), ..st }, Seq::empty()),
        },
        FrontmatterValue::EntityDecl(ed) => match key_index(st.entities, ed.id@) {
            Some(i) => (
                FmSt { dups: st.dups.push(("entities"@, ed.id@, span_view(ed.span))), ..st },
                seq![(Severity::Error, "URD302"@,
                    dup_declared("Duplicate entity ID '@"@, ed.id@, st.entities[i].1.3, span_view(ed.span)), span_view(ed.span))],
            ),
            None => (FmSt { entities: st.entities.push((ed.id@, entity_of(ed))), ..st }, Seq::empty()),
        },
        FrontmatterValue::WorldBlock(wb) => (world_fields_step(wb.fields@, span_view(wb.span), st), Seq::empty()),
        FrontmatterValue::Mapping(es) => fm_steps(es@, st),
        _ => (st, Seq::empty()),
    }
}

/// Frontmatter entries collected in order.
pub open spec fn fm_steps(es: Seq<FrontmatterEntry>, st: FmSt) -> (FmSt, Seq<PlainDiag>)
    decreases es, 0int,
{
    if es.len() == 0 {
        (st, Seq::empty())
    } else {
        let a = fm_steps(es.subrange(0, es.len() - 1), st);
        let b = fm_step(es[es.len() - 1].value, a.0);
        (b.0, a.1 + b.1)
    }
}

pub proof fn lemma_values_sv_push(v: Seq<Value>, x: Value)
    ensures
        values_sv(v.push(x)) == values_sv(v).push(value_sv(x)),
{
    assert(v.push(x).subrange(0, v.len() as int) =~= v);
}

/// Convert a frontmatter scalar to a symbol-table value.
pub fn scalar_to_value(s: &Scalar) -> (v: Value)
    ensures
        value_sv(v) == scalar_view(*s),
    decreases s,
{
    match s {
        Scalar::String(t) => Value::String(t.clone()),
        Scalar::Integer(n) => Value::Integer(*n),
        Scalar::Number(t) => Value::Number(t.clone()),
        Scalar::Boolean(b) => Value::Boolean(*b),
        Scalar::EntityRef(t) => Value::EntityRef(t.clone()),
        Scalar::List(items) => {
            let mut out: Vec<Value> = Vec::new();
            let mut i: usize = 0;
            while i < items.len()
                invariant
                    i <= items.len(),
                    values_sv(out@) == scalars_view(items@.take(i as int)),
                    *s == Scalar::List(*items),
                decreases items.len() - i,
            {
                proof {
                    assert(*items == (*s)->List_0);
                    assert(decreases_to!(*s => (*s)->List_0));
                    vstd::std_specs::vec::axiom_vec_index_decreases(*items, i as int);
                }
                let x = scalar_to_value(&items[i]);
                proof {
                    lemma_values_sv_push(out@, x);
                    assert(items@.take(i + 1).subrange(0, i as int) =~= items@.take(i as int));
                }
                out.push(x);
                i += 1;
            }
            assert(items@.take(items.len() as int) =~= items@);
            Value::List(out)
        },
    }
}

pub(crate) fn clone_opt_strings(o: &Option<Vec<String>>) -> (r: Option<Vec<String>>)
    ensures
        opt_strings_view(r) == opt_strings_view(*o),
{
    match o {
        Some(v) => Some(clone_strings(v)),
        None => None,
    }
}

/// The symbol a property definition makes.
fn property_symbol(p: &PropertyDef) -> (r: PropertySymbol)
    ensures
        prop_view(r) == prop_of(*p),
{
    let default = match &p.default {
        Some(s) => Some(scalar_to_value(s)),
        None => None,
    };
    let visibility = match &p.visibility {
        Some(v) => if str_equals(v.as_str(), "hidden") { Visibility::Hidden } else { Visibility::Visible },
        None => Visibility::Visible,
    };
    let element_type = match &p.element_type {
        Some(t) => Some(parse_property_type(t.as_str())),
        None => None,
    };
    PropertySymbol {
        name: p.name.clone(),
        property_type: parse_property_type(p.property_type.as_str()),
        raw_type_string: p.property_type.clone(),
        default,
        visibility,
        values: clone_opt_strings(&p.values),
        ref_type: clone_opt_string(&p.ref_type),
        element_type,
        element_values: clone_opt_strings(&p.element_values),
        element_ref_type: clone_opt_string(&p.element_ref_type),
        description: clone_opt_string(&p.description),
        declared_in: p.span.clone(),
    }
}

pub open spec fn props_view(v: Seq<PropertySymbol>) -> Seq<PropV> {
    v.map_values(|p: PropertySymbol| prop_view(p))
}

/// The position of the first property named `name`.
pub(crate) fn prop_position(props: &Vec<PropertySymbol>, name: &str) -> (r: Option<usize>)
    ensures
        match r {
            Some(i) => key_index(named(props_view(props@)), name@) == Some(i as int) && i < props@.len(),
            None => key_index(named(props_view(props@)), name@) is None,
        },
{
    let ghost s = named(props_view(props@));
    let mut i: usize = 0;
    while i < props.len()
        invariant
            i <= props.len(),
            s == named(props_view(props@)),
            s.len() == props@.len(),
            forall|j: int| 0 <= j < i ==> (#[trigger] s[j]).0 != name@,
        decreases props.len() - i,
    {
        assert(s[i as int].0 == props@[i as int].name@);
        if str_equals(props[i].name.as_str(), name) {
            proof { crate::link::lemma_key_index_first(s, name@, i as int); }
            return Some(i);
        }
        i += 1;
    }
    proof { crate::link::lemma_key_index_none(s, name@); }
    None
}

/// The symbol a type definition makes.
fn type_symbol(td: &TypeDef) -> (r: TypeSymbol)
    ensures
        type_view(r) == type_of(*td),
{
    let mut props: Vec<PropertySymbol> = Vec::new();
    let mut i: usize = 0;
    while i < td.properties.len()
        invariant
            i <= td.properties.len(),
            props_view(props@) == props_of(td.properties@.take(i as int)),
        decreases td.properties.len() - i,
    {
        let sym = property_symbol(&td.properties[i]);
        proof {
            assert(td.properties@.take(i + 1).drop_last() =~= td.properties@.take(i as int));
            assert(td.properties@.take(i + 1).last() == td.properties@[i as int]);
        }
        match prop_position(&props, sym.name.as_str()) {
            Some(k) => {
                let ghost before = props@;
                props.set(k, sym);
                assert(props_view(props@) =~= props_view(before).update(k as int, prop_view(sym)));
            },
            None => {
                let ghost before = props@;
                props.push(sym);
                assert(props_view(props@) =~= props_view(before).push(prop_view(sym)));
            },
        }
        i += 1;
    }
    assert(td.properties@.take(td.properties.len() as int) =~= td.properties@);
    assert(property_names(props@) =~= props_view(props@).map_values(|p: PropV| p.0));
    assert(props@.map_values(|p: PropertySymbol| prop_view(p)) == props_view(props@));
    TypeSymbol {
        name: td.name.clone(),
        traits: clone_strings(&td.traits),
        properties: props,
        declared_in: td.span.clone(),
    }
}

/// The position of the first override named `name`.
fn override_position(v: &Vec<(String, Value)>, name: &str) -> (r: Option<usize>)
    ensures
        match r {
            Some(i) => key_index(crate::link::value_pairs_sv(v@), name@) == Some(i as int) && i < v@.len(),
            None => key_index(crate::link::value_pairs_sv(v@), name@) is None,
        },
{
    let ghost s = crate::link::value_pairs_sv(v@);
    let mut i: usize = 0;
    while i < v.len()
        invariant
            i <= v.len(),
            s == crate::link::value_pairs_sv(v@),
            s.len() == v@.len(),
            forall|j: int| 0 <= j < i ==> (#[trigger] s[j]).0 != name@,
        decreases v.len() - i,
    {
        assert(s[i as int].0 == v@[i as int].0@);
        if str_equals(v[i].0.as_str(), name) {
            proof { crate::link::lemma_key_index_first(s, name@, i as int); }
            return Some(i);
        }
        i += 1;
    }
    proof { crate::link::lemma_key_index_none(s, name@); }
    None
}

/// The symbol an entity declaration makes.
fn entity_symbol(ed: &EntityDecl) -> (r: EntitySymbol)
    ensures
        entity_view(r) == entity_of(*ed),
{
    let mut overrides: Vec<(String, Value)> = Vec::new();
    let mut i: usize = 0;
    while i < ed.property_overrides.len()
        invariant
            i <= ed.property_overrides.len(),
            crate::link::value_pairs_sv(overrides@) == overrides_of(ed.property_overrides@.take(i as int)),
        decreases ed.property_overrides.len() - i,
    {
        let key = ed.property_overrides[i].0.clone();
        let val = scalar_to_value(&ed.property_overrides[i].1);
        proof {
            assert(ed.property_overrides@.take(i + 1).drop_last() =~= ed.property_overrides@.take(i as int));
            assert(ed.property_overrides@.take(i + 1).last() == ed.property_overrides@[i as int]);
        }
        let ghost before = overrides@;
        match override_position(&overrides, key.as_str()) {
            Some(k) => {
                overrides.set(k, (key, val));
                assert(crate::link::value_pairs_sv(overrides@)
                    =~= crate::link::value_pairs_sv(before).update(k as int, (ed.property_overrides@[i as int].0@, value_sv(val))));
            },
            None => {
                overrides.push((key, val));
                assert(crate::link::value_pairs_sv(overrides@)
                    =~= crate::link::value_pairs_sv(before).push((ed.property_overrides@[i as int].0@, value_sv(val))));
            },
        }
        i += 1;
    }
    assert(ed.property_overrides@.take(ed.property_overrides.len() as int) =~= ed.property_overrides@);
    EntitySymbol {
        id: ed.id.clone(),
        entity_type: ed.entity_type.clone(),
        type_symbol: None,
        property_overrides: overrides,
        declared_in: ed.span.clone(),
    }
}

/// Appends `file:line` of a span.
fn push_at_line(v: &mut Vec<char>, s: &Span)
    ensures
        final(v)@ == old(v)@ + at_line(span_view(*s)),
{
    push_str(v, s.file.as_str());
    push_str(v, ":");
    let d = decimal_chars(s.start_line as u64);
    push_chars(v, &d);
    proof { reveal_strlit(":"); }
    assert(final(v)@ =~= old(v)@ + at_line(span_view(*s)));
}

/// The message for a name declared a second time.
fn dup_declared_message(lead: &str, name: &str, first: &Span, here: &Span) -> (m: String)
    ensures
        m@ == dup_declared(lead@, name@, span_view(*first), span_view(*here)),
{
    let mut v: Vec<char> = Vec::new();
    push_str(&mut v, lead);
    push_str(&mut v, name);
    push_str(&mut v, "' declared in ");
    push_at_line(&mut v, first);
    push_str(&mut v, " and ");
    push_at_line(&mut v, here);
    push_str(&mut v, ".");
    assert(v@ =~= dup_declared(lead@, name@, span_view(*first), span_view(*here)));
    string_from_chars(v)
}

/// Process a single frontmatter entry during collection: register a type
/// or an entity (the first of a name wins; a later one is reported and
/// recorded as a duplicate), store the world block's `start` and `entry`,
/// and descend into the entries of `types:` and `entities:` blocks.
pub fn collect_frontmatter_entry(
    value: &FrontmatterValue,
    file_stem: &str,
    file_path: &str,
    symbol_table: &mut SymbolTable,
    world_config: &mut WorldConfig,
    diagnostics: &mut DiagnosticCollector,
)
    ensures
        fm_state(*final(symbol_table), *final(world_config))
            == fm_step(*value, fm_state(*old(symbol_table), *old(world_config))).0,
        appended(final(diagnostics)@, old(diagnostics)@, fm_step(*value, fm_state(*old(symbol_table), *old(world_config))).1),
        final(symbol_table).sections == old(symbol_table).sections,
        final(symbol_table).locations == old(symbol_table).locations,
        final(symbol_table).actions == old(symbol_table).actions,
        final(symbol_table).rules == old(symbol_table).rules,
        final(symbol_table).sequences == old(symbol_table).sequences,
        final(symbol_table).world_start == old(symbol_table).world_start,
        final(symbol_table).world_entry == old(symbol_table).world_entry,
    decreases value,
{
    let ghost st = fm_state(*symbol_table, *world_config);
    let ghost d0 = diagnostics@;
    proof { lemma_appended_empty(d0); }
    match value {
        FrontmatterValue::TypeDef(td) => {
            proof { lemma_key_index(type_entries(symbol_table.types), td.name@); }
            match type_get(&symbol_table.types, td.name.as_str()) {
                Some(first) => {
                    let m = dup_declared_message("Duplicate type name '", td.name.as_str(), &first.declared_in, &td.span);
                    proof { reveal_strlit("Duplicate type name '"); }
                    report("URD303", false, m, &td.span, diagnostics, Ghost(fm_step(*value, st).1[0]));
                    let ghost before = symbol_table.duplicates@;
                    symbol_table.duplicates.push(Duplicate { namespace: "types", name: td.name.clone(), declared_in: td.span.clone() });
                    proof { reveal_strlit("types"); }
                    assert(dups_view(symbol_table.duplicates@) =~= dups_view(before).push(("types"@, td.name@, span_view(td.span))));
                },
                None => {
                    let sym = type_symbol(td);
                    type_insert(&mut symbol_table.types, td.name.clone(), sym);
                },
            }
        },
        FrontmatterValue::EntityDecl(ed) => {
            proof { lemma_key_index(entity_entries(symbol_table.entities), ed.id@); }
            match entity_get(&symbol_table.entities, ed.id.as_str()) {
                Some(first) => {
                    let m = dup_declared_message("Duplicate entity ID '@", ed.id.as_str(), &first.declared_in, &ed.span);
                    proof { reveal_strlit("Duplicate entity ID '@"); }
                    report("URD302", false, m, &ed.span, diagnostics, Ghost(fm_step(*value, st).1[0]));
                    let ghost before = symbol_table.duplicates@;
                    symbol_table.duplicates.push(Duplicate { namespace: "entities", name: ed.id.clone(), declared_in: ed.span.clone() });
                    proof { reveal_strlit("entities"); }
                    assert(dups_view(symbol_table.duplicates@) =~= dups_view(before).push(("entities"@, ed.id@, span_view(ed.span))));
                },
                None => {
                    let sym = entity_symbol(ed);
                    entity_insert(&mut symbol_table.entities, ed.id.clone(), sym);
                },
            }
        },
        FrontmatterValue::WorldBlock(wb) => {
            let ghost span = span_view(wb.span);
            proof {
                reveal_strlit("start");
                reveal_strlit("entry");
                assert(wb.fields@.take(0) =~= Seq::<(String, Scalar)>::empty());
            }
            let mut i: usize = 0;
            while i < wb.fields.len()
                invariant
                    i <= wb.fields.len(),
                    fm_state(*symbol_table, *world_config) == world_fields_step(wb.fields@.take(i as int), span, st),
                    span == span_view(wb.span),
                decreases wb.fields.len() - i,
            {
                proof {
                    assert(wb.fields@.take(i + 1).drop_last() =~= wb.fields@.take(i as int));
                    assert(wb.fields@.take(i + 1).last() == wb.fields@[i as int]);
                }
                match &wb.fields[i].1 {
                    Scalar::String(s) => {
                        if str_equals(wb.fields[i].0.as_str(), "start") {
                            world_config.start = Some((s.clone(), wb.span.clone()));
                        } else if str_equals(wb.fields[i].0.as_str(), "entry") {
                            world_config.entry = Some((s.clone(), wb.span.clone()));
                        }
                    },
                    _ => {},
                }
                i += 1;
            }
            assert(wb.fields@.take(wb.fields.len() as int) =~= wb.fields@);
        },
        FrontmatterValue::Mapping(entries) => {
            proof { assert(entries@.take(0) =~= Seq::<FrontmatterEntry>::empty()); }
            let mut i: usize = 0;
            while i < entries.len()
                invariant
                    i <= entries.len(),
                    fm_state(*symbol_table, *world_config) == fm_steps(entries@.take(i as int), st).0,
                    appended(diagnostics@, d0, fm_steps(entries@.take(i as int), st).1),
                    *value == FrontmatterValue::Mapping(*entries),
                    symbol_table.sections == old(symbol_table).sections,
                    symbol_table.locations == old(symbol_table).locations,
                    symbol_table.actions == old(symbol_table).actions,
                    symbol_table.rules == old(symbol_table).rules,
                    symbol_table.sequences == old(symbol_table).sequences,
                    symbol_table.world_start == old(symbol_table).world_start,
                    symbol_table.world_entry == old(symbol_table).world_entry,
                decreases entries.len() - i,
            {
                let ghost d1 = diagnostics@;
                proof {
                    assert(entries@.take(i + 1).subrange(0, i as int) =~= entries@.take(i as int));
                    assert(entries@.take(i + 1)[i as int] == entries@[i as int]);
                }
                proof {
                    assert(*entries == (*value)->Mapping_0);
                    assert(decreases_to!(*value => (*value)->Mapping_0));
                    vstd::std_specs::vec::axiom_vec_index_decreases(*entries, i as int);
                    assert(decreases_to!(entries[i as int] => entries[i as int].value));
                }
                collect_frontmatter_entry(&entries[i].value, file_stem, file_path, symbol_table, world_config, diagnostics);
                proof {
                    lemma_appended_trans(d0, d1, diagnostics@, fm_steps(entries@.take(i as int), st).1,
                        fm_step(entries@[i as int].value, fm_steps(entries@.take(i as int), st).0).1);
                }
                i += 1;
            }
            assert(entries@.take(entries.len() as int) =~= entries@);
        },
        _ => {},
    }
}

// ── Content ──

/// What content collection reads and writes of the symbol table, and the
/// current location, section and sequence.
pub struct CtSt {
    pub locations: Seq<(Seq<char>, LocationV)>,
    pub sections: Seq<(Seq<char>, SectionV)>,
    pub actions: Seq<(Seq<char>, ActionV)>,
    pub rules: Seq<(Seq<char>, RuleV)>,
    pub sequences: Seq<(Seq<char>, SequenceV)>,
    pub dups: Seq<DupV>,
    pub loc: Option<Seq<char>>,
    pub sec: Option<Seq<char>>,
    pub seq: Option<Seq<char>>,
}

pub open spec fn ct_state(t: SymbolTable, loc: Option<String>, sec: Option<String>, seq: Option<String>) -> CtSt {
    CtSt {
        locations: location_entries(t.locations),
        sections: section_symbol_entries(t.sections),
        actions: action_entries(t.actions),
        rules: rule_entries(t.rules),
        sequences: sequence_entries(t.sequences),
        dups: dups_view(t.duplicates@),
        loc: opt_view(loc),
        sec: opt_view(sec),
        seq: opt_view(seq),
    }
}

pub open spec fn msg_empty_id(heading: Seq<char>) -> Seq<char> {
    "Heading '"@ + heading + "' produces an empty ID after slugification."@
}

pub open spec fn msg_dup_location(id: Seq<char>, first: Seq<char>, here: Seq<char>) -> Seq<char> {
    "Duplicate location ID '"@ + id + "' \u{2014} locations '"@ + first + "' and '"@ + here + "' both slugify to '"@ + id + "'."@
}

pub open spec fn msg_dup_section(name: Seq<char>, file: Seq<char>) -> Seq<char> {
    "Duplicate section name '"@ + name + "' in "@ + file + ". Section names must be unique within a file."@
}

pub open spec fn msg_dup_sequence(id: Seq<char>, first: Seq<char>, here: Seq<char>) -> Seq<char> {
    "Duplicate sequence ID '"@ + id + "' \u{2014} sequences '"@ + first + "' and '"@ + here + "' both slugify to '"@ + id + "'."@
}

pub open spec fn msg_dup_choice(id: Seq<char>, section: Seq<char>, first: Seq<char>, here: Seq<char>) -> Seq<char> {
    "Duplicate choice ID '"@ + id + "' in section '"@ + section + "'. Choices '"@ + first + "' and '"@ + here
        + "' produce the same slugified ID."@
}

pub open spec fn msg_exit_outside() -> Seq<char> {
    "Exit construct outside of a location context."@
}

pub open spec fn msg_presence_outside() -> Seq<char> {
    "Entity presence construct outside of a location context."@
}

/// The symbol a location heading makes under `id`.
pub open spec fn location_of(h: LocationHeading, id: Seq<char>) -> LocationV {
    (h.span.file@, Seq::empty(), Seq::empty(), span_view(h.span), id, h.display_name@, Seq::empty())
}

/// The phase a phase heading makes under `id`.
pub open spec fn phase_of(h: PhaseHeading, id: Seq<char>) -> PhaseV {
    (id, if h.auto { "auto"@ } else { "manual"@ }, None, None, None, span_view(h.span))
}

/// The position of the first blocked message (`blocked`) or the first
/// condition (otherwise) among `v`.
pub open spec fn first_of_kind(v: Seq<ContentNode>, blocked: bool) -> Option<int>
    decreases v.len(),
{
    if v.len() == 0 {
        None
    } else {
        match first_of_kind(v.drop_last(), blocked) {
            Some(i) => Some(i),
            None => if (if blocked { v.last() is BlockedMessage } else { v.last() is Condition }) {
                Some(v.len() - 1)
            } else {
                None
            },
        }
    }
}

pub open spec fn node_ref_at(file: Seq<char>, i: Option<int>) -> Option<(Seq<char>, usize)> {
    match i {
        Some(k) => Some((file, k as usize)),
        None => None,
    }
}

/// The exit an exit declaration makes: unresolved, with references to its
/// first condition and first blocked message.
pub open spec fn exit_of(file: Seq<char>, x: ExitDeclaration) -> (ExitV, ExitRest) {
    ((x.direction@, None), (x.destination@,
        node_ref_at(file, first_of_kind(x.children@, false)),
        node_ref_at(file, first_of_kind(x.children@, true)),
        span_view(x.span)))
}

/// An exit added to location `l` by direction: one already there for the
/// direction is replaced in place.
pub open spec fn put_exit(locs: Seq<(Seq<char>, LocationV)>, l: Seq<char>, x: (ExitV, ExitRest)) -> Seq<(Seq<char>, LocationV)> {
    match key_index(locs, l) {
        Some(k) => {
            let v = locs[k].1;
            match key_index(v.1, x.0.0) {
                Some(j) => locs.update(k, (l, (v.0, v.1.update(j, x.0), v.2, v.3, v.4, v.5, v.6.update(j, x.1)))),
                None => locs.update(k, (l, (v.0, v.1.push(x.0), v.2, v.3, v.4, v.5, v.6.push(x.1)))),
            }
        },
        None => locs,
    }
}

/// The symbol a rule block makes.
pub open spec fn rule_of(r: RuleBlock) -> RuleV {
    (r.name@, r.actor@, r.trigger@, span_view(r.span), select_view(r.select))
}

/// What choice collection writes.
pub struct ChSt {
    pub sections: Seq<(Seq<char>, SectionV)>,
    pub actions: Seq<(Seq<char>, ActionV)>,
    pub dups: Seq<DupV>,
}

/// Choices keyed by compiled ID.
pub open spec fn choices_by_id(cs: Seq<ChoiceV>) -> Seq<(Seq<char>, ChoiceV)> {
    cs.map_values(|c: ChoiceV| (c.1, c))
}

/// A choice collected in section `sid`, then the choices nested in it:
/// the choice joins the section and becomes an action; a choice whose ID
/// the section already has is reported, and its nested choices are not
/// visited.
pub open spec fn choice_step(sid: Seq<char>, c: Choice, t: ChSt) -> (ChSt, Seq<PlainDiag>)
    decreases c, 1int,
{
    let span = span_view(c.span);
    let slug = spec_slugify(c.label@);
    if slug.len() == 0 {
        (t, seq![(Severity::Error, "URD313"@, msg_empty_id(c.label@), span)])
    } else {
        let cid = sid + "/"@ + slug;
        let found = match key_index(t.sections, sid) {
            Some(k) => match key_index(choices_by_id(t.sections[k].1.3), cid) {
                Some(j) => Some(t.sections[k].1.3[j].0),
                None => None,
            },
            None => None,
        };
        match found {
            Some(first) => (
                ChSt { dups: t.dups.push(("choices"@, cid, span)), ..t },
                seq![(Severity::Error, "URD306"@, msg_dup_choice(cid, sid, first, c.label@), span)],
            ),
            None => {
                let sections = match key_index(t.sections, sid) {
                    Some(k) => {
                        let v = t.sections[k].1;
                        t.sections.update(k, (sid, (v.0, v.1, v.2, v.3.push((c.label@, cid, c.sticky, span)), v.4)))
                    },
                    None => t.sections,
                };
                let t2 = match key_index(t.actions, cid) {
                    Some(_) => ChSt { sections, actions: t.actions, dups: t.dups.push(("actions"@, cid, span)) },
                    None => ChSt {
                        sections,
                        actions: t.actions.push((cid, (cid, opt_view(c.target), opt_view(c.target_type), span))),
                        dups: t.dups,
                    },
                };
                nested_choices(sid, c.content@, t2)
            },
        }
    }
}

/// The choices among `v` collected in order.
pub open spec fn nested_choices(sid: Seq<char>, v: Seq<ContentNode>, t: ChSt) -> (ChSt, Seq<PlainDiag>)
    decreases v, 0int,
{
    if v.len() == 0 {
        (t, Seq::empty())
    } else {
        let a = nested_choices(sid, v.subrange(0, v.len() - 1), t);
        match v[v.len() - 1] {
            ContentNode::Choice(c) => {
                let b = choice_step(sid, c, a.0);
                (b.0, a.1 + b.1)
            },
            _ => a,
        }
    }
}

/// One content node collected: the new state, the file's section table,
/// and what is reported.
pub open spec fn ct_step(stem: Seq<char>, file: Seq<char>, n: ContentNode, st: CtSt, local: Seq<(Seq<char>, Seq<char>)>)
    -> (CtSt, Seq<(Seq<char>, Seq<char>)>, Seq<PlainDiag>)
{
    match n {
        ContentNode::LocationHeading(h) => {
            let span = span_view(h.span);
            let id = spec_slugify(h.display_name@);
            if id.len() == 0 {
                (st, local, seq![(Severity::Error, "URD313"@, msg_empty_id(h.display_name@), span)])
            } else {
                match key_index(st.locations, id) {
                    Some(i) => (
                        CtSt { dups: st.dups.push(("locations"@, id, span)), loc: Some(id), sec: None, ..st },
                        local,
                        seq![(Severity::Error, "URD304"@, msg_dup_location(id, st.locations[i].1.5, h.display_name@), span)],
                    ),
                    None => (
                        CtSt { locations: st.locations.push((id, location_of(h, id))), loc: Some(id), sec: None, ..st },
                        local,
                        Seq::empty(),
                    ),
                }
            }
        },
        ContentNode::SectionLabel(l) => {
            let span = span_view(l.span);
            let cid = stem + "/"@ + l.name@;
            match key_index(local, l.name@) {
                Some(_) => (
                    CtSt { dups: st.dups.push(("sections"@, cid, span)), sec: Some(cid), ..st },
                    local,
                    seq![(Severity::Error, "URD305"@, msg_dup_section(l.name@, file), span)],
                ),
                None => (
                    CtSt { sections: map_put(st.sections, cid, (l.name@, cid, stem, Seq::empty(), span)), sec: Some(cid), ..st },
                    map_put(local, l.name@, cid),
                    Seq::empty(),
                ),
            }
        },
        ContentNode::SequenceHeading(h) => {
            let span = span_view(h.span);
            let id = spec_slugify(h.display_name@);
            if id.len() == 0 {
                (st, local, seq![(Severity::Error, "URD313"@, msg_empty_id(h.display_name@), span)])
            } else {
                match key_index(st.sequences, id) {
                    Some(i) => (
                        CtSt { dups: st.dups.push(("sequences"@, id, span)), seq: Some(id), ..st },
                        local,
                        seq![(Severity::Error, "URD313"@, msg_dup_sequence(id, st.sequences[i].1.0, h.display_name@), span)],
                    ),
                    None => (
                        CtSt { sequences: st.sequences.push((id, (id, Seq::empty(), span))), seq: Some(id), ..st },
                        local,
                        Seq::empty(),
                    ),
                }
            }
        },
        ContentNode::PhaseHeading(h) => {
            let id = spec_slugify(h.display_name@);
            if id.len() == 0 {
                (st, local, seq![(Severity::Error, "URD313"@, msg_empty_id(h.display_name@), span_view(h.span))])
            } else {
                match st.seq {
                    Some(q) => match key_index(st.sequences, q) {
                        Some(k) => {
                            let v = st.sequences[k].1;
                            (CtSt { sequences: st.sequences.update(k, (q, (v.0, v.1.push(phase_of(h, id)), v.2))), ..st }, local, Seq::empty())
                        },
                        None => (st, local, Seq::empty()),
                    },
                    None => (st, local, Seq::empty()),
                }
            }
        },
        ContentNode::Choice(c) => match st.sec {
            Some(sid) => {
                let r = choice_step(sid, c, ChSt { sections: st.sections, actions: st.actions, dups: st.dups });
                (CtSt { sections: r.0.sections, actions: r.0.actions, dups: r.0.dups, ..st }, local, r.1)
            },
            None => (st, local, Seq::empty()),
        },
        ContentNode::ExitDeclaration(x) => match st.loc {
            Some(l) => (CtSt { locations: put_exit(st.locations, l, exit_of(file, x)), ..st }, local, Seq::empty()),
            None => (st, local, seq![(Severity::Error, "URD314"@, msg_exit_outside(), span_view(x.span))]),
        },
        ContentNode::EntityPresence(p) => match st.loc {
            Some(_) => (st, local, Seq::empty()),
            None => (st, local, seq![(Severity::Error, "URD314"@, msg_presence_outside(), span_view(p.span))]),
        },
        ContentNode::RuleBlock(r) => {
            let x = rule_collect(r, st.rules, st.dups);
            (CtSt { rules: x.0, dups: x.1, ..st }, local, x.2)
        },
        _ => (st, local, Seq::empty()),
    }
}

fn clone_container_kind(k: &ContainerKind) -> (r: ContainerKind)
    ensures
        r == *k,
{
    match k {
        ContainerKind::KeywordPlayer => ContainerKind::KeywordPlayer,
        ContainerKind::KeywordHere => ContainerKind::KeywordHere,
        ContainerKind::EntityRef(t) => ContainerKind::EntityRef(t.clone()),
        ContainerKind::LocationRef(t) => ContainerKind::LocationRef(t.clone()),
    }
}

fn clone_destination_kind(k: &DestinationKind) -> (r: DestinationKind)
    ensures
        r == *k,
{
    match k {
        DestinationKind::KeywordPlayer => DestinationKind::KeywordPlayer,
        DestinationKind::KeywordHere => DestinationKind::KeywordHere,
        DestinationKind::EntityRef(t) => DestinationKind::EntityRef(t.clone()),
        DestinationKind::LocationRef(t) => DestinationKind::LocationRef(t.clone()),
    }
}

fn clone_opt_str(o: &Option<String>) -> (r: Option<String>)
    ensures
        r == *o,
{
    match o {
        Some(t) => Some(t.clone()),
        None => None,
    }
}

fn clone_opt_annotation(o: &Option<Annotation>) -> (r: Option<Annotation>)
    ensures
        r == *o,
{
    match o {
        Some(a) => Some(Annotation {
            resolved_entity: clone_opt_str(&a.resolved_entity),
            resolved_type: clone_opt_str(&a.resolved_type),
            resolved_section: clone_opt_str(&a.resolved_section),
            resolved_property: clone_opt_str(&a.resolved_property),
            resolved_location: clone_opt_str(&a.resolved_location),
            container_kind: match &a.container_kind {
                Some(k) => Some(clone_container_kind(k)),
                None => None,
            },
            destination_kind: match &a.destination_kind {
                Some(k) => Some(clone_destination_kind(k)),
                None => None,
            },
        }),
        None => None,
    }
}

fn clone_condition(c: &ConditionExpr) -> (r: ConditionExpr)
    ensures
        r == *c,
{
    match c {
        ConditionExpr::PropertyComparison(p) => ConditionExpr::PropertyComparison(PropertyComparison {
            entity_ref: p.entity_ref.clone(),
            property: p.property.clone(),
            operator: p.operator.clone(),
            value: p.value.clone(),
            annotation: clone_opt_annotation(&p.annotation),
            span: p.span.clone(),
        }),
        ConditionExpr::ContainmentCheck(p) => ConditionExpr::ContainmentCheck(ContainmentCheck {
            entity_ref: p.entity_ref.clone(),
            container_ref: p.container_ref.clone(),
            negated: p.negated,
            annotation: clone_opt_annotation(&p.annotation),
            span: p.span.clone(),
        }),
        ConditionExpr::ExhaustionCheck(p) => ConditionExpr::ExhaustionCheck(ExhaustionCheck {
            section_name: p.section_name.clone(),
            annotation: clone_opt_annotation(&p.annotation),
            span: p.span.clone(),
        }),
    }
}

fn clone_conditions(v: &Vec<ConditionExpr>) -> (r: Vec<ConditionExpr>)
    ensures
        r@ == v@,
{
    let mut out: Vec<ConditionExpr> = Vec::new();
    let mut i: usize = 0;
    while i < v.len()
        invariant
            i <= v.len(),
            out@ == v@.take(i as int),
        decreases v.len() - i,
    {
        out.push(clone_condition(&v[i]));
        assert(out@ =~= v@.take(i + 1));
        i += 1;
    }
    assert(v@.take(v.len() as int) =~= v@);
    out
}

/// The symbol a rule block makes.
fn rule_symbol(r: &RuleBlock) -> (s: RuleSymbol)
    ensures
        rule_view(s) == rule_of(*r),
{
    let select = match &r.select {
        Some(c) => Some(SelectDef {
            variable: c.variable.clone(),
            from: clone_strings(&c.entity_refs),
            where_clauses: clone_conditions(&c.where_clauses),
            span: c.span.clone(),
        }),
        None => None,
    };
    RuleSymbol { id: r.name.clone(), actor: r.actor.clone(), trigger: r.trigger.clone(), select, declared_in: r.span.clone() }
}

pub open spec fn choices_view(v: Seq<ChoiceSymbol>) -> Seq<ChoiceV> {
    v.map_values(|c: ChoiceSymbol| choice_sym_view(c))
}

/// A copy of a section symbol with the same texts.
fn section_copy(s: &SectionSymbol) -> (r: SectionSymbol)
    ensures
        section_view(r) == section_view(*s),
{
    let mut choices: Vec<ChoiceSymbol> = Vec::new();
    let mut i: usize = 0;
    while i < s.choices.len()
        invariant
            i <= s.choices.len(),
            choices_view(choices@) == choices_view(s.choices@.take(i as int)),
        decreases s.choices.len() - i,
    {
        let c = &s.choices[i];
        let ghost before = choices@;
        choices.push(ChoiceSymbol {
            label: c.label.clone(),
            compiled_id: c.compiled_id.clone(),
            sticky: c.sticky,
            declared_in: c.declared_in.clone(),
        });
        assert(choices_view(choices@) =~= choices_view(before).push(choice_sym_view(s.choices@[i as int])));
        assert(choices_view(s.choices@.take(i + 1)) =~= choices_view(s.choices@.take(i as int)).push(choice_sym_view(s.choices@[i as int])));
        i += 1;
    }
    assert(s.choices@.take(s.choices.len() as int) =~= s.choices@);
    SectionSymbol {
        local_name: s.local_name.clone(),
        compiled_id: s.compiled_id.clone(),
        file_stem: s.file_stem.clone(),
        choices,
        declared_in: s.declared_in.clone(),
    }
}

pub open spec fn phases_view(v: Seq<PhaseSymbol>) -> Seq<PhaseV> {
    v.map_values(|p: PhaseSymbol| phase_view(p))
}

/// A copy of a sequence symbol with the same texts.
fn sequence_copy(q: &SequenceSymbol) -> (r: SequenceSymbol)
    ensures
        sequence_view(r) == sequence_view(*q),
{
    let mut phases: Vec<PhaseSymbol> = Vec::new();
    let mut i: usize = 0;
    while i < q.phases.len()
        invariant
            i <= q.phases.len(),
            phases_view(phases@) == phases_view(q.phases@.take(i as int)),
        decreases q.phases.len() - i,
    {
        let p = &q.phases[i];
        let ghost before = phases@;
        phases.push(PhaseSymbol {
            id: p.id.clone(),
            advance: p.advance.clone(),
            action: clone_opt_string(&p.action),
            actions: clone_opt_strings(&p.actions),
            rule: clone_opt_string(&p.rule),
            declared_in: p.declared_in.clone(),
        });
        assert(phases_view(phases@) =~= phases_view(before).push(phase_view(q.phases@[i as int])));
        assert(phases_view(q.phases@.take(i + 1)) =~= phases_view(q.phases@.take(i as int)).push(phase_view(q.phases@[i as int])));
        i += 1;
    }
    assert(q.phases@.take(q.phases.len() as int) =~= q.phases@);
    SequenceSymbol { id: q.id.clone(), phases, declared_in: q.declared_in.clone() }
}

/// The position of the first condition (or blocked message) among `v`.
fn first_of_kind_exec(v: &Vec<ContentNode>, blocked: bool) -> (r: Option<usize>)
    ensures
        match r {
            Some(i) => first_of_kind(v@, blocked) == Some(i as int),
            None => first_of_kind(v@, blocked) is None,
        },
{
    let mut i: usize = 0;
    while i < v.len()
        invariant
            i <= v.len(),
            first_of_kind(v@.take(i as int), blocked) is None,
        decreases v.len() - i,
    {
        proof {
            assert(v@.take(i + 1).drop_last() =~= v@.take(i as int));
            assert(v@.take(i + 1).last() == v@[i as int]);
        }
        let hit = match &v[i] {
            ContentNode::Condition(_) => !blocked,
            ContentNode::BlockedMessage(_) => blocked,
            _ => false,
        };
        if hit {
            proof { lemma_first_of_kind_prefix(v@, blocked, i + 1); }
            return Some(i);
        }
        i += 1;
    }
    assert(v@.take(v.len() as int) =~= v@);
    None
}

/// Once found in a prefix, the first position stays the same in the whole.
proof fn lemma_first_of_kind_prefix(v: Seq<ContentNode>, blocked: bool, n: int)
    requires
        0 <= n <= v.len(),
        first_of_kind(v.take(n), blocked) is Some,
    ensures
        first_of_kind(v, blocked) == first_of_kind(v.take(n), blocked),
    decreases v.len() - n,
{
    if n < v.len() {
        assert(v.take(n + 1).drop_last() =~= v.take(n));
        lemma_first_of_kind_prefix(v, blocked, n + 1);
    } else {
        assert(v.take(n) =~= v);
    }
}

/// The exit an exit declaration makes.
fn exit_symbol(file_path: &str, x: &ExitDeclaration) -> (r: ExitSymbol)
    ensures
        (exit_view(r), exit_rest(r)) == exit_of(file_path@, *x),
{
    let condition_node = match first_of_kind_exec(&x.children, false) {
        Some(i) => Some(AstNodeRef { file: file_path.to_string(), node_index: i }),
        None => None,
    };
    let blocked_message_node = match first_of_kind_exec(&x.children, true) {
        Some(i) => Some(AstNodeRef { file: file_path.to_string(), node_index: i }),
        None => None,
    };
    ExitSymbol {
        direction: x.direction.clone(),
        destination: x.destination.clone(),
        resolved_destination: None,
        condition_node,
        blocked_message_node,
        declared_in: x.span.clone(),
    }
}

/// Record an exit in location `loc_id`, replacing one of the same
/// direction.
fn put_exit_exec(tables: &mut SymbolTable, loc_id: &String, x: ExitSymbol)
    ensures
        location_entries(final(tables).locations) == put_exit(location_entries(old(tables).locations), loc_id@, (exit_view(x), exit_rest(x))),
        final(tables).types == old(tables).types,
        final(tables).entities == old(tables).entities,
        final(tables).sections == old(tables).sections,
        final(tables).actions == old(tables).actions,
        final(tables).rules == old(tables).rules,
        final(tables).sequences == old(tables).sequences,
        final(tables).duplicates == old(tables).duplicates,
        final(tables).world_start == old(tables).world_start,
        final(tables).world_entry == old(tables).world_entry,
{
    let ghost locs = location_entries(tables.locations);
    proof { lemma_key_index(locs, loc_id@); }
    let updated = match location_get(&tables.locations, loc_id.as_str()) {
        Some(loc) => {
            let mut l2 = loc.duplicate();
            let ghost before = l2.exits@;
            proof { lemma_key_index(exits_view(before), x.direction@); }
            match exit_index(&l2.exits, x.direction.as_str()) {
                Some(j) => {
                    l2.exits.set(j, x);
                    assert(exits_view(l2.exits@) =~= exits_view(before).update(j as int, exit_view(x)));
                    assert(l2.exits@.map_values(|e: ExitSymbol| exit_rest(e))
                        =~= before.map_values(|e: ExitSymbol| exit_rest(e)).update(j as int, exit_rest(x)));
                },
                None => {
                    l2.exits.push(x);
                    assert(exits_view(l2.exits@) =~= exits_view(before).push(exit_view(x)));
                    assert(l2.exits@.map_values(|e: ExitSymbol| exit_rest(e))
                        =~= before.map_values(|e: ExitSymbol| exit_rest(e)).push(exit_rest(x)));
                },
            }
            Some(l2)
        },
        None => None,
    };
    match updated {
        Some(l2) => {
            location_insert(&mut tables.locations, loc_id.clone(), l2);
        },
        None => {},
    }
}

/// `a`, `b` and `c` joined.
pub(crate) fn join3(a: &str, b: &str, c: &str) -> (r: String)
    ensures
        r@ == a@ + b@ + c@,
{
    let mut v: Vec<char> = Vec::new();
    push_str(&mut v, a);
    push_str(&mut v, b);
    push_str(&mut v, c);
    assert(v@ =~= a@ + b@ + c@);
    string_from_chars(v)
}

/// `a`, `b`, `c`, `d`, `e` joined.
fn join5(a: &str, b: &str, c: &str, d: &str, e: &str) -> (r: String)
    ensures
        r@ == a@ + b@ + c@ + d@ + e@,
{
    let mut v: Vec<char> = Vec::new();
    push_str(&mut v, a);
    push_str(&mut v, b);
    push_str(&mut v, c);
    push_str(&mut v, d);
    push_str(&mut v, e);
    assert(v@ =~= a@ + b@ + c@ + d@ + e@);
    string_from_chars(v)
}

fn empty_id_message(heading: &str) -> (m: String)
    ensures
        m@ == msg_empty_id(heading@),
{
    proof {
        reveal_strlit("Heading '");
        reveal_strlit("' produces an empty ID after slugification.");
    }
    join3("Heading '", heading, "' produces an empty ID after slugification.")
}

/// The choice symbols keyed by compiled ID.
fn choice_position(choices: &Vec<ChoiceSymbol>, id: &str) -> (r: Option<usize>)
    ensures
        match r {
            Some(j) => key_index(choices_by_id(choices_view(choices@)), id@) == Some(j as int) && j < choices@.len(),
            None => key_index(choices_by_id(choices_view(choices@)), id@) is None,
        },
{
    let ghost s = choices_by_id(choices_view(choices@));
    let mut i: usize = 0;
    while i < choices.len()
        invariant
            i <= choices.len(),
            s == choices_by_id(choices_view(choices@)),
            s.len() == choices@.len(),
            forall|j: int| 0 <= j < i ==> (#[trigger] s[j]).0 != id@,
        decreases choices.len() - i,
    {
        assert(s[i as int].0 == choices@[i as int].compiled_id@);
        if str_equals(choices[i].compiled_id.as_str(), id) {
            proof { crate::link::lemma_key_index_first(s, id@, i as int); }
            return Some(i);
        }
        i += 1;
    }
    proof { crate::link::lemma_key_index_none(s, id@); }
    None
}

pub open spec fn ch_state(t: SymbolTable) -> ChSt {
    ChSt {
        sections: section_symbol_entries(t.sections),
        actions: action_entries(t.actions),
        dups: dups_view(t.duplicates@),
    }
}

/// A choice collected where the current section is `sec`: nothing outside
/// any section.
pub open spec fn choice_collect(sec: Option<Seq<char>>, c: Choice, t: ChSt) -> (ChSt, Seq<PlainDiag>) {
    match sec {
        Some(sid) => choice_step(sid, c, t),
        None => (t, Seq::empty()),
    }
}

/// Register a choice (and, recursively, the choices nested in it) in the
/// current section, each with its action.
fn collect_choice(
    choice: &Choice,
    file_path: &str,
    current_section_id: &Option<String>,
    symbol_table: &mut SymbolTable,
    diagnostics: &mut DiagnosticCollector,
)
    ensures
        ch_state(*final(symbol_table)) == choice_collect(opt_view(*current_section_id), *choice, ch_state(*old(symbol_table))).0,
        appended(final(diagnostics)@, old(diagnostics)@,
            choice_collect(opt_view(*current_section_id), *choice, ch_state(*old(symbol_table))).1),
        final(symbol_table).types == old(symbol_table).types,
        final(symbol_table).entities == old(symbol_table).entities,
        final(symbol_table).locations == old(symbol_table).locations,
        final(symbol_table).rules == old(symbol_table).rules,
        final(symbol_table).sequences == old(symbol_table).sequences,
        final(symbol_table).world_start == old(symbol_table).world_start,
        final(symbol_table).world_entry == old(symbol_table).world_entry,
    decreases choice,
{
    let ghost d0 = diagnostics@;
    let ghost t0 = ch_state(*symbol_table);
    proof { lemma_appended_empty(d0); }
    let section_id = match current_section_id {
        Some(id) => id.clone(),
        None => { return; },
    };
    let ghost sid = section_id@;
    let ghost r = choice_step(sid, *choice, t0);
    let slug = slugify(choice.label.as_str());
    if slug.as_str().is_empty() {
        let m = empty_id_message(choice.label.as_str());
        proof { reveal_strlit("URD313"); }
        report("URD313", false, m, &choice.span, diagnostics, Ghost(r.1[0]));
        return;
    }
    let choice_id = join3(section_id.as_str(), "/", slug.as_str());
    proof {
        reveal_strlit("/");
        lemma_key_index(section_symbol_entries(symbol_table.sections), sid);
    }
    let first_label: Option<String> = match section_symbol_get(&symbol_table.sections, section_id.as_str()) {
        Some(sec_sym) => {
            assert(choices_view(sec_sym.choices@) == sec_sym.choices@.map_values(|c: ChoiceSymbol| choice_sym_view(c)));
            match choice_position(&sec_sym.choices, choice_id.as_str()) {
                Some(j) => {
                    assert(choices_view(sec_sym.choices@)[j as int].0 == sec_sym.choices@[j as int].label@);
                    Some(sec_sym.choices[j].label.clone())
                },
                None => None,
            }
        },
        None => None,
    };
    match first_label {
        Some(first) => {
            let m = dup_choice_message(choice_id.as_str(), section_id.as_str(), first.as_str(), choice.label.as_str());
            proof { reveal_strlit("URD306"); }
            report("URD306", false, m, &choice.span, diagnostics, Ghost(r.1[0]));
            let ghost before = symbol_table.duplicates@;
            symbol_table.duplicates.push(Duplicate { namespace: "choices", name: choice_id, declared_in: choice.span.clone() });
            proof { reveal_strlit("choices"); }
            assert(dups_view(symbol_table.duplicates@) =~= dups_view(before).push(("choices"@, sid + "/"@ + spec_slugify(choice.label@), span_view(choice.span))));
            return;
        },
        None => {},
    }
    // Attach the choice to its section.
    let updated = match section_symbol_get(&symbol_table.sections, section_id.as_str()) {
        Some(sec_sym) => {
            let mut s2 = section_copy(sec_sym);
            let ghost before = s2.choices@;
            s2.choices.push(ChoiceSymbol {
                label: choice.label.clone(),
                compiled_id: choice_id.clone(),
                sticky: choice.sticky,
                declared_in: choice.span.clone(),
            });
            assert(s2.choices@.map_values(|c: ChoiceSymbol| choice_sym_view(c))
                =~= before.map_values(|c: ChoiceSymbol| choice_sym_view(c)).push((choice.label@, choice_id@, choice.sticky, span_view(choice.span))));
            Some(s2)
        },
        None => None,
    };
    match updated {
        Some(s2) => { section_symbol_insert(&mut symbol_table.sections, section_id.clone(), s2); },
        None => {},
    }
    // The corresponding action: the first of an ID wins.
    proof { lemma_key_index(action_entries(symbol_table.actions), choice_id@); }
    if action_get(&symbol_table.actions, choice_id.as_str()).is_some() {
        let ghost before = symbol_table.duplicates@;
        symbol_table.duplicates.push(Duplicate { namespace: "actions", name: choice_id, declared_in: choice.span.clone() });
        proof { reveal_strlit("actions"); }
        assert(dups_view(symbol_table.duplicates@) =~= dups_view(before).push(("actions"@, sid + "/"@ + spec_slugify(choice.label@), span_view(choice.span))));
    } else {
        let action = ActionSymbol {
            id: choice_id.clone(),
            target: clone_opt_string(&choice.target),
            target_type: clone_opt_string(&choice.target_type),
            declared_in: choice.span.clone(),
        };
        action_insert(&mut symbol_table.actions, choice_id, action);
    }
    // Nested choices.
    let ghost t1 = ch_state(*symbol_table);
    let ghost d1 = diagnostics@;
    proof {
        lemma_appended_empty(d1);
        assert(choice.content@.take(0) =~= Seq::<ContentNode>::empty());
    }
    let mut i: usize = 0;
    while i < choice.content.len()
        invariant
            i <= choice.content.len(),
            opt_view(*current_section_id) == Some(sid),
            ch_state(*symbol_table) == nested_choices(sid, choice.content@.take(i as int), t1).0,
            appended(diagnostics@, d1, nested_choices(sid, choice.content@.take(i as int), t1).1),
            symbol_table.types == old(symbol_table).types,
            symbol_table.entities == old(symbol_table).entities,
            symbol_table.locations == old(symbol_table).locations,
            symbol_table.rules == old(symbol_table).rules,
            symbol_table.sequences == old(symbol_table).sequences,
            symbol_table.world_start == old(symbol_table).world_start,
            symbol_table.world_entry == old(symbol_table).world_entry,
        decreases choice.content.len() - i,
    {
        proof {
            assert(choice.content@.take(i + 1).subrange(0, i as int) =~= choice.content@.take(i as int));
            assert(choice.content@.take(i + 1)[i as int] == choice.content@[i as int]);
        }
        match &choice.content[i] {
            ContentNode::Choice(sub) => {
                let ghost d2 = diagnostics@;
                proof {
                    vstd::std_specs::vec::axiom_vec_index_decreases(choice.content, i as int);
                    assert(decreases_to!(*choice => choice.content));
                }
                collect_choice(sub, file_path, current_section_id, symbol_table, diagnostics);
                proof {
                    lemma_appended_trans(d1, d2, diagnostics@, nested_choices(sid, choice.content@.take(i as int), t1).1,
                        choice_step(sid, *sub, nested_choices(sid, choice.content@.take(i as int), t1).0).1);
                }
            },
            _ => {},
        }
        i += 1;
    }
    proof {
        assert(choice.content@.take(choice.content.len() as int) =~= choice.content@);
        lemma_appended_trans(d0, d1, diagnostics@, Seq::empty(), nested_choices(sid, choice.content@, t1).1);
        assert(Seq::<PlainDiag>::empty() + nested_choices(sid, choice.content@, t1).1 =~= nested_choices(sid, choice.content@, t1).1);
    }
}

fn dup_choice_message(id: &str, section: &str, first: &str, here: &str) -> (m: String)
    ensures
        m@ == msg_dup_choice(id@, section@, first@, here@),
{
    let mut v: Vec<char> = Vec::new();
    push_str(&mut v, "Duplicate choice ID '");
    push_str(&mut v, id);
    push_str(&mut v, "' in section '");
    push_str(&mut v, section);
    push_str(&mut v, "'. Choices '");
    push_str(&mut v, first);
    push_str(&mut v, "' and '");
    push_str(&mut v, here);
    push_str(&mut v, "' produce the same slugified ID.");
    proof {
        reveal_strlit("Duplicate choice ID '");
        reveal_strlit("' in section '");
        reveal_strlit("'. Choices '");
        reveal_strlit("' and '");
        reveal_strlit("' produce the same slugified ID.");
    }
    assert(v@ =~= msg_dup_choice(id@, section@, first@, here@));
    string_from_chars(v)
}

fn dup_heading_message(id: &str, kind: &str, first: &str, here: &str) -> (m: String)
    ensures
        m@ == "Duplicate "@ + kind@ + " ID '"@ + id@ + "' \u{2014} "@ + kind@ + "s '"@ + first@ + "' and '"@ + here@
            + "' both slugify to '"@ + id@ + "'."@,
{
    let mut v: Vec<char> = Vec::new();
    push_str(&mut v, "Duplicate ");
    push_str(&mut v, kind);
    push_str(&mut v, " ID '");
    push_str(&mut v, id);
    push_str(&mut v, "' \u{2014} ");
    push_str(&mut v, kind);
    push_str(&mut v, "s '");
    push_str(&mut v, first);
    push_str(&mut v, "' and '");
    push_str(&mut v, here);
    push_str(&mut v, "' both slugify to '");
    push_str(&mut v, id);
    push_str(&mut v, "'.");
    assert(v@ =~= "Duplicate "@ + kind@ + " ID '"@ + id@ + "' \u{2014} "@ + kind@ + "s '"@ + first@ + "' and '"@ + here@
        + "' both slugify to '"@ + id@ + "'."@);
    string_from_chars(v)
}

fn dup_location_message(id: &str, first: &str, here: &str) -> (m: String)
    ensures
        m@ == msg_dup_location(id@, first@, here@),
{
    let m = dup_heading_message(id, "location", first, here);
    proof {
        reveal_strlit("location");
        reveal_strlit("Duplicate ");
        reveal_strlit(" ID '");
        reveal_strlit("' \u{2014} ");
        reveal_strlit("s '");
        reveal_strlit("' and '");
        reveal_strlit("' both slugify to '");
        reveal_strlit("'.");
        reveal_strlit("Duplicate location ID '");
        reveal_strlit("' \u{2014} locations '");
        assert(m@ =~= msg_dup_location(id@, first@, here@));
    }
    m
}

fn dup_sequence_message(id: &str, first: &str, here: &str) -> (m: String)
    ensures
        m@ == msg_dup_sequence(id@, first@, here@),
{
    let m = dup_heading_message(id, "sequence", first, here);
    proof {
        reveal_strlit("sequence");
        reveal_strlit("Duplicate ");
        reveal_strlit(" ID '");
        reveal_strlit("' \u{2014} ");
        reveal_strlit("s '");
        reveal_strlit("' and '");
        reveal_strlit("' both slugify to '");
        reveal_strlit("'.");
        reveal_strlit("Duplicate sequence ID '");
        reveal_strlit("' \u{2014} sequences '");
        assert(m@ =~= msg_dup_sequence(id@, first@, here@));
    }
    m
}

fn dup_section_message(name: &str, file: &str) -> (m: String)
    ensures
        m@ == msg_dup_section(name@, file@),
{
    let m = join5("Duplicate section name '", name, "' in ", file, ". Section names must be unique within a file.");
    proof {
        reveal_strlit("Duplicate section name '");
        reveal_strlit("' in ");
        reveal_strlit(". Section names must be unique within a file.");
    }
    m
}

/// The result of collecting one content node.
pub open spec fn ct_result(stem: Seq<char>, file: Seq<char>, n: ContentNode, t: SymbolTable, ctx: FileContext,
    loc: Option<String>, sec: Option<String>, seq: Option<String>) -> (CtSt, Seq<(Seq<char>, Seq<char>)>, Seq<PlainDiag>)
{
    ct_step(stem, file, n, ct_state(t, loc, sec, seq), section_entries(ctx.local_sections))
}

/// Process a single content node during collection: register a location,
/// section, sequence, phase, choice, exit or rule, tracking the current
/// location, section and sequence of the file.
#[verifier::spinoff_prover]
pub fn collect_content_node(
    node: &ContentNode,
    node_index: usize,
    file_path: &str,
    file_stem: &str,
    ctx: &mut FileContext,
    current_location_id: &mut Option<String>,
    current_section_id: &mut Option<String>,
    current_sequence_id: &mut Option<String>,
    symbol_table: &mut SymbolTable,
    diagnostics: &mut DiagnosticCollector,
)
    ensures
        ct_state(*final(symbol_table), *final(current_location_id), *final(current_section_id), *final(current_sequence_id))
            == ct_result(file_stem@, file_path@, *node, *old(symbol_table), *old(ctx), *old(current_location_id),
                *old(current_section_id), *old(current_sequence_id)).0,
        section_entries(final(ctx).local_sections)
            == ct_result(file_stem@, file_path@, *node, *old(symbol_table), *old(ctx), *old(current_location_id),
                *old(current_section_id), *old(current_sequence_id)).1,
        appended(final(diagnostics)@, old(diagnostics)@,
            ct_result(file_stem@, file_path@, *node, *old(symbol_table), *old(ctx), *old(current_location_id),
                *old(current_section_id), *old(current_sequence_id)).2),
        final(ctx).file_stem == old(ctx).file_stem,
        final(ctx).visible_scope == old(ctx).visible_scope,
        final(symbol_table).types == old(symbol_table).types,
        final(symbol_table).entities == old(symbol_table).entities,
        final(symbol_table).world_start == old(symbol_table).world_start,
        final(symbol_table).world_entry == old(symbol_table).world_entry,
{
    let ghost st = ct_state(*symbol_table, *current_location_id, *current_section_id, *current_sequence_id);
    let ghost local = section_entries(ctx.local_sections);
    let ghost r = ct_step(file_stem@, file_path@, *node, st, local);
    let ghost d0 = diagnostics@;
    proof {
        lemma_appended_empty(d0);
        reveal_strlit("URD313");
        reveal_strlit("/");
    }
    match node {
        ContentNode::LocationHeading(loc) => {
            let id = slugify(loc.display_name.as_str());
            if id.as_str().is_empty() {
                let m = empty_id_message(loc.display_name.as_str());
                report("URD313", false, m, &loc.span, diagnostics, Ghost(r.2[0]));
                return;
            }
            proof { lemma_key_index(location_entries(symbol_table.locations), id@); }
            let first_name: Option<String> = match location_get(&symbol_table.locations, id.as_str()) {
                Some(first) => Some(first.display_name.clone()),
                None => None,
            };
            match first_name {
                Some(first) => {
                    let m = dup_location_message(id.as_str(), first.as_str(), loc.display_name.as_str());
                    proof { reveal_strlit("URD304"); }
                    report("URD304", false, m, &loc.span, diagnostics, Ghost(r.2[0]));
                    let ghost before = symbol_table.duplicates@;
                    symbol_table.duplicates.push(Duplicate { namespace: "locations", name: id.clone(), declared_in: loc.span.clone() });
                    proof { reveal_strlit("locations"); }
                    assert(dups_view(symbol_table.duplicates@) =~= dups_view(before).push(("locations"@, id@, span_view(loc.span))));
                },
                None => {
                    let sym = LocationSymbol {
                        id: id.clone(),
                        display_name: loc.display_name.clone(),
                        exits: Vec::new(),
                        contains: Vec::new(),
                        declared_in: loc.span.clone(),
                    };
                    assert(location_view(sym) =~= location_of(*loc, id@));
                    location_insert(&mut symbol_table.locations, id.clone(), sym);
                },
            }
            *current_location_id = Some(id);
            *current_section_id = None;
        },
        ContentNode::SectionLabel(sec) => {
            let compiled_id = join3(file_stem, "/", sec.name.as_str());
            proof { lemma_key_index(local, sec.name@); }
            if section_get(&ctx.local_sections, sec.name.as_str()).is_some() {
                let m = dup_section_message(sec.name.as_str(), file_path);
                proof { reveal_strlit("URD305"); }
                report("URD305", false, m, &sec.span, diagnostics, Ghost(r.2[0]));
                let ghost before = symbol_table.duplicates@;
                symbol_table.duplicates.push(Duplicate { namespace: "sections", name: compiled_id.clone(), declared_in: sec.span.clone() });
                proof { reveal_strlit("sections"); }
                assert(dups_view(symbol_table.duplicates@) =~= dups_view(before).push(("sections"@, compiled_id@, span_view(sec.span))));
            } else {
                section_insert(&mut ctx.local_sections, sec.name.clone(), compiled_id.clone());
                let sym = SectionSymbol {
                    local_name: sec.name.clone(),
                    compiled_id: compiled_id.clone(),
                    file_stem: file_stem.to_string(),
                    choices: Vec::new(),
                    declared_in: sec.span.clone(),
                };
                assert(section_view(sym) =~= (sec.name@, compiled_id@, file_stem@, Seq::<ChoiceV>::empty(), span_view(sec.span)));
                section_symbol_insert(&mut symbol_table.sections, compiled_id.clone(), sym);
            }
            *current_section_id = Some(compiled_id);
        },
        ContentNode::SequenceHeading(sh) => {
            let id = slugify(sh.display_name.as_str());
            if id.as_str().is_empty() {
                let m = empty_id_message(sh.display_name.as_str());
                report("URD313", false, m, &sh.span, diagnostics, Ghost(r.2[0]));
                return;
            }
            proof { lemma_key_index(sequence_entries(symbol_table.sequences), id@); }
            let first_id: Option<String> = match sequence_get(&symbol_table.sequences, id.as_str()) {
                Some(first) => Some(first.id.clone()),
                None => None,
            };
            match first_id {
                Some(first) => {
                    let m = dup_sequence_message(id.as_str(), first.as_str(), sh.display_name.as_str());
                    report("URD313", false, m, &sh.span, diagnostics, Ghost(r.2[0]));
                    let ghost before = symbol_table.duplicates@;
                    symbol_table.duplicates.push(Duplicate { namespace: "sequences", name: id.clone(), declared_in: sh.span.clone() });
                    proof { reveal_strlit("sequences"); }
                    assert(dups_view(symbol_table.duplicates@) =~= dups_view(before).push(("sequences"@, id@, span_view(sh.span))));
                },
                None => {
                    let sym = SequenceSymbol { id: id.clone(), phases: Vec::new(), declared_in: sh.span.clone() };
                    assert(sequence_view(sym) =~= (id@, Seq::<PhaseV>::empty(), span_view(sh.span)));
                    sequence_insert(&mut symbol_table.sequences, id.clone(), sym);
                },
            }
            *current_sequence_id = Some(id);
        },
        ContentNode::PhaseHeading(ph) => {
            let id = slugify(ph.display_name.as_str());
            if id.as_str().is_empty() {
                let m = empty_id_message(ph.display_name.as_str());
                report("URD313", false, m, &ph.span, diagnostics, Ghost(r.2[0]));
                return;
            }
            match current_sequence_id {
                Some(seq_id) => {
                    proof { lemma_key_index(sequence_entries(symbol_table.sequences), seq_id@); }
                    let updated = match sequence_get(&symbol_table.sequences, seq_id.as_str()) {
                        Some(seq_sym) => {
                            let mut q2 = sequence_copy(seq_sym);
                            let ghost before = q2.phases@;
                            let advance = if ph.auto { "auto".to_string() } else { "manual".to_string() };
                            q2.phases.push(PhaseSymbol {
                                id,
                                advance,
                                action: None,
                                actions: None,
                                rule: None,
                                declared_in: ph.span.clone(),
                            });
                            proof {
                                reveal_strlit("auto");
                                reveal_strlit("manual");
                            }
                            assert(q2.phases@.map_values(|p: PhaseSymbol| phase_view(p))
                                =~= before.map_values(|p: PhaseSymbol| phase_view(p)).push(phase_of(*ph, spec_slugify(ph.display_name@))));
                            Some(q2)
                        },
                        None => None,
                    };
                    match updated {
                        Some(q2) => { sequence_insert(&mut symbol_table.sequences, seq_id.clone(), q2); },
                        None => {},
                    }
                },
                None => {},
            }
        },
        ContentNode::Choice(choice) => {
            collect_choice(choice, file_path, current_section_id, symbol_table, diagnostics);
        },
        ContentNode::ExitDeclaration(exit) => {
            match current_location_id {
                Some(loc_id) => {
                    let x = exit_symbol(file_path, exit);
                    put_exit_exec(symbol_table, loc_id, x);
                },
                None => {
                    let m = "Exit construct outside of a location context.".to_string();
                    proof {
                        reveal_strlit("URD314");
                        reveal_strlit("Exit construct outside of a location context.");
                    }
                    report("URD314", false, m, &exit.span, diagnostics, Ghost(r.2[0]));
                },
            }
        },
        ContentNode::EntityPresence(ep) => {
            if current_location_id.is_none() {
                let m = "Entity presence construct outside of a location context.".to_string();
                proof {
                    reveal_strlit("URD314");
                    reveal_strlit("Entity presence construct outside of a location context.");
                }
                report("URD314", false, m, &ep.span, diagnostics, Ghost(r.2[0]));
            }
        },
        ContentNode::RuleBlock(rule) => {
            collect_rule(rule, symbol_table, diagnostics);
        },
        _ => {},
    }
}

/// The result of collecting a rule block.
pub open spec fn rule_collect(r: RuleBlock, rules: Seq<(Seq<char>, RuleV)>, dups: Seq<DupV>)
    -> (Seq<(Seq<char>, RuleV)>, Seq<DupV>, Seq<PlainDiag>)
{
    let span = span_view(r.span);
    match key_index(rules, r.name@) {
        Some(i) => (rules, dups.push(("rules"@, r.name@, span)),
            seq![(Severity::Error, "URD302"@, dup_declared("Duplicate rule name '"@, r.name@, rules[i].1.3, span), span)]),
        None => (rules.push((r.name@, rule_of(r))), dups, Seq::empty()),
    }
}

/// Register a rule; the first of a name wins.
fn collect_rule(rule: &RuleBlock, symbol_table: &mut SymbolTable, diagnostics: &mut DiagnosticCollector)
    ensures
        rule_entries(final(symbol_table).rules) == rule_collect(*rule, rule_entries(old(symbol_table).rules), dups_view(old(symbol_table).duplicates@)).0,
        dups_view(final(symbol_table).duplicates@) == rule_collect(*rule, rule_entries(old(symbol_table).rules), dups_view(old(symbol_table).duplicates@)).1,
        appended(final(diagnostics)@, old(diagnostics)@,
            rule_collect(*rule, rule_entries(old(symbol_table).rules), dups_view(old(symbol_table).duplicates@)).2),
        final(symbol_table).types == old(symbol_table).types,
        final(symbol_table).entities == old(symbol_table).entities,
        final(symbol_table).sections == old(symbol_table).sections,
        final(symbol_table).locations == old(symbol_table).locations,
        final(symbol_table).actions == old(symbol_table).actions,
        final(symbol_table).sequences == old(symbol_table).sequences,
        final(symbol_table).world_start == old(symbol_table).world_start,
        final(symbol_table).world_entry == old(symbol_table).world_entry,
{
    let ghost r = rule_collect(*rule, rule_entries(symbol_table.rules), dups_view(symbol_table.duplicates@));
    let sym = rule_symbol(rule);
    proof { lemma_key_index(rule_entries(symbol_table.rules), rule.name@); }
    match rule_get(&symbol_table.rules, rule.name.as_str()) {
        Some(first) => {
            let m = dup_declared_message("Duplicate rule name '", rule.name.as_str(), &first.declared_in, &rule.span);
            proof {
                reveal_strlit("Duplicate rule name '");
                reveal_strlit("URD302");
            }
            report("URD302", false, m, &rule.span, diagnostics, Ghost(r.2[0]));
            let ghost before = symbol_table.duplicates@;
            symbol_table.duplicates.push(Duplicate { namespace: "rules", name: rule.name.clone(), declared_in: rule.span.clone() });
            proof { reveal_strlit("rules"); }
            assert(dups_view(symbol_table.duplicates@) =~= dups_view(before).push(("rules"@, rule.name@, span_view(rule.span))));
        },
        None => {
            proof { lemma_appended_empty(diagnostics@); }
            rule_insert(&mut symbol_table.rules, rule.name.clone(), sym);
        },
    }
}

// ── Files ──

/// Content nodes collected in order.
pub open spec fn ct_steps(stem: Seq<char>, file: Seq<char>, v: Seq<ContentNode>, st: CtSt, local: Seq<(Seq<char>, Seq<char>)>)
    -> (CtSt, Seq<(Seq<char>, Seq<char>)>, Seq<PlainDiag>)
    decreases v.len(),
{
    if v.len() == 0 {
        (st, local, Seq::empty())
    } else {
        let a = ct_steps(stem, file, v.drop_last(), st, local);
        let b = ct_step(stem, file, v.last(), a.0, a.1);
        (b.0, b.1, a.2 + b.2)
    }
}

/// The symbol table by its namespaces, with the world block's references.
pub struct TableV {
    pub types: Seq<(Seq<char>, TypeV)>,
    pub entities: Seq<(Seq<char>, EntityV)>,
    pub sections: Seq<(Seq<char>, SectionV)>,
    pub locations: Seq<(Seq<char>, LocationV)>,
    pub actions: Seq<(Seq<char>, ActionV)>,
    pub rules: Seq<(Seq<char>, RuleV)>,
    pub sequences: Seq<(Seq<char>, SequenceV)>,
    pub dups: Seq<DupV>,
    pub start: Option<(Seq<char>, SpanV)>,
    pub entry: Option<(Seq<char>, SpanV)>,
}

pub open spec fn table_view(t: SymbolTable, w: WorldConfig) -> TableV {
    TableV {
        types: type_entries(t.types),
        entities: entity_entries(t.entities),
        sections: section_symbol_entries(t.sections),
        locations: location_entries(t.locations),
        actions: action_entries(t.actions),
        rules: rule_entries(t.rules),
        sequences: sequence_entries(t.sequences),
        dups: dups_view(t.duplicates@),
        start: world_ref_view(w.start),
        entry: world_ref_view(w.entry),
    }
}

pub open spec fn frontmatter_entries(ast: FileAst) -> Seq<FrontmatterEntry> {
    match ast.frontmatter {
        Some(fm) => fm.entries@,
        None => Seq::empty(),
    }
}

/// One file collected: its frontmatter, then its content from outside any
/// location, section or sequence. The result is the new table, the
/// file's section table, and what is reported.
pub open spec fn file_collect(path: Seq<char>, ast: FileAst, tv: TableV) -> (TableV, Seq<(Seq<char>, Seq<char>)>, Seq<PlainDiag>) {
    let f = fm_steps(frontmatter_entries(ast),
        FmSt { types: tv.types, entities: tv.entities, dups: tv.dups, start: tv.start, entry: tv.entry });
    let c = ct_steps(file_stem_of(path), path, ast.content@,
        CtSt {
            locations: tv.locations, sections: tv.sections, actions: tv.actions, rules: tv.rules, sequences: tv.sequences,
            dups: f.0.dups, loc: None, sec: None, seq: None,
        },
        Seq::empty());
    (TableV {
        types: f.0.types, entities: f.0.entities, start: f.0.start, entry: f.0.entry,
        locations: c.0.locations, sections: c.0.sections, actions: c.0.actions, rules: c.0.rules,
        sequences: c.0.sequences, dups: c.0.dups,
    }, c.1, f.1 + c.2)
}

/// Files collected in order: the table, each file's section table, and
/// what is reported.
pub open spec fn files_collect(nodes: Seq<FileNode>, tv: TableV) -> (TableV, Seq<Seq<(Seq<char>, Seq<char>)>>, Seq<PlainDiag>)
    decreases nodes.len(),
{
    if nodes.len() == 0 {
        (tv, Seq::empty(), Seq::empty())
    } else {
        let a = files_collect(nodes.drop_last(), tv);
        let b = file_collect(nodes.last().path@, nodes.last().ast, a.0);
        (b.0, a.1.push(b.1), a.2 + b.2)
    }
}

/// The files a file can see: itself and its direct imports.
pub fn visible_scope(file_path: &str, imports: &Vec<String>) -> (scope: Vec<String>)
    ensures
        strings_view(scope@) == seq![file_path@] + strings_view(imports@),
{
    let mut scope: Vec<String> = Vec::new();
    scope.push(file_path.to_string());
    let mut i: usize = 0;
    while i < imports.len()
        invariant
            i <= imports.len(),
            strings_view(scope@) == seq![file_path@] + strings_view(imports@.take(i as int)),
        decreases imports.len() - i,
    {
        let ghost before = scope@;
        scope.push(imports[i].clone());
        assert(strings_view(scope@) =~= strings_view(before).push(imports@[i as int]@));
        assert(strings_view(imports@.take(i + 1)) =~= strings_view(imports@.take(i as int)).push(imports@[i as int]@));
        assert(strings_view(scope@) =~= seq![file_path@] + strings_view(imports@.take(i + 1)));
        i += 1;
    }
    assert(imports@.take(imports.len() as int) =~= imports@);
    scope
}

/// Collect one file: its frontmatter declarations, then its content, in
/// order. Returns the file's context for resolution.
#[verifier::spinoff_prover]
pub fn collect_file(
    node: &FileNode,
    symbol_table: &mut SymbolTable,
    world_config: &mut WorldConfig,
    diagnostics: &mut DiagnosticCollector,
) -> (ctx: FileContext)
    ensures
        table_view(*final(symbol_table), *final(world_config))
            == file_collect(node.path@, node.ast, table_view(*old(symbol_table), *old(world_config))).0,
        section_entries(ctx.local_sections)
            == file_collect(node.path@, node.ast, table_view(*old(symbol_table), *old(world_config))).1,
        appended(final(diagnostics)@, old(diagnostics)@,
            file_collect(node.path@, node.ast, table_view(*old(symbol_table), *old(world_config))).2),
        ctx.file_stem@ == file_stem_of(node.path@),
        strings_view(ctx.visible_scope@) == seq![node.path@] + strings_view(node.imports@),
        final(symbol_table).world_start == old(symbol_table).world_start,
        final(symbol_table).world_entry == old(symbol_table).world_entry,
{
    let ghost tv = table_view(*symbol_table, *world_config);
    let ghost d0 = diagnostics@;
    let ghost entries = frontmatter_entries(node.ast);
    let ghost fst = FmSt { types: tv.types, entities: tv.entities, dups: tv.dups, start: tv.start, entry: tv.entry };
    let file_path = node.path.as_str();
    let stem = file_stem(file_path);
    let scope = visible_scope(file_path, &node.imports);
    let mut ctx = FileContext { file_stem: stem.clone(), visible_scope: scope, local_sections: section_table_new() };
    let mut current_location_id: Option<String> = None;
    let mut current_section_id: Option<String> = None;
    let mut current_sequence_id: Option<String> = None;
    proof {
        lemma_appended_empty(d0);
        assert(entries.take(0) =~= Seq::<FrontmatterEntry>::empty());
    }
    // Frontmatter.
    match &node.ast.frontmatter {
        Some(fm) => {
            let mut i: usize = 0;
            while i < fm.entries.len()
                invariant
                    i <= fm.entries.len(),
                    entries == fm.entries@,
                    fm_state(*symbol_table, *world_config) == fm_steps(entries.take(i as int), fst).0,
                    appended(diagnostics@, d0, fm_steps(entries.take(i as int), fst).1),
                    section_symbol_entries(symbol_table.sections) == tv.sections,
                    location_entries(symbol_table.locations) == tv.locations,
                    action_entries(symbol_table.actions) == tv.actions,
                    rule_entries(symbol_table.rules) == tv.rules,
                    sequence_entries(symbol_table.sequences) == tv.sequences,
                    symbol_table.world_start == old(symbol_table).world_start,
                    symbol_table.world_entry == old(symbol_table).world_entry,
                decreases fm.entries.len() - i,
            {
                let ghost d1 = diagnostics@;
                proof {
                    assert(entries.take(i + 1).subrange(0, i as int) =~= entries.take(i as int));
                    assert(entries.take(i + 1)[i as int] == entries[i as int]);
                }
                collect_frontmatter_entry(&fm.entries[i].value, ctx.file_stem.as_str(), file_path, symbol_table,
                    world_config, diagnostics);
                proof {
                    lemma_appended_trans(d0, d1, diagnostics@, fm_steps(entries.take(i as int), fst).1,
                        fm_step(entries[i as int].value, fm_steps(entries.take(i as int), fst).0).1);
                }
                i += 1;
            }
            assert(entries.take(entries.len() as int) =~= entries);
        },
        None => {},
    }
    let ghost f = fm_steps(entries, fst);
    let ghost d1 = diagnostics@;
    let ghost cst = ct_state(*symbol_table, current_location_id, current_section_id, current_sequence_id);
    let ghost content = node.ast.content@;
    proof {
        lemma_appended_empty(d1);
        assert(content.take(0) =~= Seq::<ContentNode>::empty());
        assert(section_entries(ctx.local_sections) == Seq::<(Seq<char>, Seq<char>)>::empty());
    }
    // Content.
    let mut i: usize = 0;
    while i < node.ast.content.len()
        invariant
            i <= node.ast.content.len(),
            content == node.ast.content@,
            ctx.file_stem@ == file_stem_of(node.path@),
            stem@ == file_stem_of(node.path@),
            strings_view(ctx.visible_scope@) == seq![node.path@] + strings_view(node.imports@),
            file_path@ == node.path@,
            ct_state(*symbol_table, current_location_id, current_section_id, current_sequence_id)
                == ct_steps(file_stem_of(node.path@), node.path@, content.take(i as int), cst, Seq::empty()).0,
            section_entries(ctx.local_sections)
                == ct_steps(file_stem_of(node.path@), node.path@, content.take(i as int), cst, Seq::empty()).1,
            appended(diagnostics@, d1, ct_steps(file_stem_of(node.path@), node.path@, content.take(i as int), cst, Seq::empty()).2),
            type_entries(symbol_table.types) == f.0.types,
            entity_entries(symbol_table.entities) == f.0.entities,
            world_ref_view(world_config.start) == f.0.start,
            world_ref_view(world_config.entry) == f.0.entry,
            symbol_table.world_start == old(symbol_table).world_start,
            symbol_table.world_entry == old(symbol_table).world_entry,
        decreases node.ast.content.len() - i,
    {
        let ghost d2 = diagnostics@;
        let ghost prev = ct_steps(file_stem_of(node.path@), node.path@, content.take(i as int), cst, Seq::empty());
        proof {
            assert(content.take(i + 1).drop_last() =~= content.take(i as int));
            assert(content.take(i + 1).last() == content[i as int]);
        }
        collect_content_node(&node.ast.content[i], i, file_path, stem.as_str(), &mut ctx,
            &mut current_location_id, &mut current_section_id, &mut current_sequence_id, symbol_table, diagnostics);
        proof {
            lemma_appended_trans(d1, d2, diagnostics@, prev.2,
                ct_step(file_stem_of(node.path@), node.path@, content[i as int], prev.0, prev.1).2);
        }
        i += 1;
    }
    proof {
        assert(content.take(content.len() as int) =~= content);
        lemma_appended_trans(d0, d1, diagnostics@, f.1,
            ct_steps(file_stem_of(node.path@), node.path@, content, cst, Seq::empty()).2);
    }
    ctx
}

/// Run collection over all files, in the order given (dependencies
/// first). Returns each file's context, in the same order.
pub fn collect(
    nodes: &Vec<FileNode>,
    symbol_table: &mut SymbolTable,
    world_config: &mut WorldConfig,
    diagnostics: &mut DiagnosticCollector,
) -> (contexts: Vec<FileContext>)
    ensures
        table_view(*final(symbol_table), *final(world_config))
            == files_collect(nodes@, table_view(*old(symbol_table), *old(world_config))).0,
        contexts@.map_values(|c: FileContext| section_entries(c.local_sections))
            == files_collect(nodes@, table_view(*old(symbol_table), *old(world_config))).1,
        appended(final(diagnostics)@, old(diagnostics)@,
            files_collect(nodes@, table_view(*old(symbol_table), *old(world_config))).2),
        contexts@.len() == nodes@.len(),
        forall|i: int| 0 <= i < nodes@.len() ==> {
            &&& (#[trigger] contexts@[i]).file_stem@ == file_stem_of(nodes@[i].path@)
            &&& strings_view(contexts@[i].visible_scope@) == seq![nodes@[i].path@] + strings_view(nodes@[i].imports@)
        },
        final(symbol_table).world_start == old(symbol_table).world_start,
        final(symbol_table).world_entry == old(symbol_table).world_entry,
{
    let ghost tv = table_view(*symbol_table, *world_config);
    let ghost d0 = diagnostics@;
    let mut contexts: Vec<FileContext> = Vec::new();
    proof {
        lemma_appended_empty(d0);
        assert(nodes@.take(0) =~= Seq::<FileNode>::empty());
    }
    let mut i: usize = 0;
    while i < nodes.len()
        invariant
            i <= nodes.len(),
            contexts@.len() == i,
            table_view(*symbol_table, *world_config) == files_collect(nodes@.take(i as int), tv).0,
            contexts@.map_values(|c: FileContext| section_entries(c.local_sections)) == files_collect(nodes@.take(i as int), tv).1,
            appended(diagnostics@, d0, files_collect(nodes@.take(i as int), tv).2),
            forall|j: int| 0 <= j < i ==> {
                &&& (#[trigger] contexts@[j]).file_stem@ == file_stem_of(nodes@[j].path@)
                &&& strings_view(contexts@[j].visible_scope@) == seq![nodes@[j].path@] + strings_view(nodes@[j].imports@)
            },
            symbol_table.world_start == old(symbol_table).world_start,
            symbol_table.world_entry == old(symbol_table).world_entry,
        decreases nodes.len() - i,
    {
        let ghost d1 = diagnostics@;
        let ghost prev = files_collect(nodes@.take(i as int), tv);
        let ghost before = contexts@;
        proof {
            assert(nodes@.take(i + 1).drop_last() =~= nodes@.take(i as int));
            assert(nodes@.take(i + 1).last() == nodes@[i as int]);
        }
        let ctx = collect_file(&nodes[i], symbol_table, world_config, diagnostics);
        contexts.push(ctx);
        proof {
            lemma_appended_trans(d0, d1, diagnostics@, prev.2, file_collect(nodes@[i as int].path@, nodes@[i as int].ast, prev.0).2);
            assert(contexts@.map_values(|c: FileContext| section_entries(c.local_sections))
                =~= before.map_values(|c: FileContext| section_entries(c.local_sections)).push(section_entries(ctx.local_sections)));
        }
        i += 1;
    }
    assert(nodes@.take(nodes.len() as int) =~= nodes@);
    contexts
}

// ── Laws ──

proof fn lemma_key_present_after_push<V>(s: Seq<(Seq<char>, V)>, k: Seq<char>, v: V)
    ensures
        key_index(s.push((k, v)), k) is Some,
{
    lemma_key_index(s.push((k, v)), k);
    assert(s.push((k, v))[s.len() as int].0 == k);
}

/// Every type and entity declared in frontmatter is registered: after
/// collection its name is a key of its namespace (the first declaration
/// of the name, or this one).
pub proof fn lemma_frontmatter_declaration_registered(v: FrontmatterValue, st: FmSt)
    ensures
        v matches FrontmatterValue::TypeDef(td) ==> key_index(fm_step(v, st).0.types, td.name@) is Some,
        v matches FrontmatterValue::EntityDecl(ed) ==> key_index(fm_step(v, st).0.entities, ed.id@) is Some,
{
    match v {
        FrontmatterValue::TypeDef(td) => {
            lemma_key_index(st.types, td.name@);
            if key_index(st.types, td.name@) is None {
                lemma_key_present_after_push(st.types, td.name@, type_of(td));
            }
        },
        FrontmatterValue::EntityDecl(ed) => {
            lemma_key_index(st.entities, ed.id@);
            if key_index(st.entities, ed.id@) is None {
                lemma_key_present_after_push(st.entities, ed.id@, entity_of(ed));
            }
        },
        _ => {},
    }
}

/// The first declaration of a type or entity name wins: a later one
/// leaves the namespace as it was, is recorded as a duplicate, and is
/// reported once (URD303 for a type, URD302 for an entity).
pub proof fn lemma_first_declaration_wins(v: FrontmatterValue, st: FmSt)
    ensures
        v matches FrontmatterValue::TypeDef(td) ==> (key_index(st.types, td.name@) is Some ==> {
            &&& fm_step(v, st).0.types == st.types
            &&& fm_step(v, st).0.dups == st.dups.push(("types"@, td.name@, span_view(td.span)))
            &&& fm_step(v, st).1.len() == 1
            &&& fm_step(v, st).1[0].1 == "URD303"@
        }),
        v matches FrontmatterValue::EntityDecl(ed) ==> (key_index(st.entities, ed.id@) is Some ==> {
            &&& fm_step(v, st).0.entities == st.entities
            &&& fm_step(v, st).0.dups == st.dups.push(("entities"@, ed.id@, span_view(ed.span)))
            &&& fm_step(v, st).1.len() == 1
            &&& fm_step(v, st).1[0].1 == "URD302"@
        }),
{
}

/// A location heading whose name slugifies to something is registered
/// and becomes the current location; a second heading with the same slug
/// leaves the namespace as it was, is recorded as a duplicate and is
/// reported (URD304).
pub proof fn lemma_location_registered_once(stem: Seq<char>, file: Seq<char>, h: LocationHeading, st: CtSt,
    local: Seq<(Seq<char>, Seq<char>)>)
    requires
        spec_slugify(h.display_name@).len() > 0,
    ensures
        key_index(ct_step(stem, file, ContentNode::LocationHeading(h), st, local).0.locations, spec_slugify(h.display_name@)) is Some,
        ct_step(stem, file, ContentNode::LocationHeading(h), st, local).0.loc == Some(spec_slugify(h.display_name@)),
        key_index(st.locations, spec_slugify(h.display_name@)) is Some ==> {
            &&& ct_step(stem, file, ContentNode::LocationHeading(h), st, local).0.locations == st.locations
            &&& ct_step(stem, file, ContentNode::LocationHeading(h), st, local).0.dups
                == st.dups.push(("locations"@, spec_slugify(h.display_name@), span_view(h.span)))
            &&& ct_step(stem, file, ContentNode::LocationHeading(h), st, local).2[0].1 == "URD304"@
        },
{
    let id = spec_slugify(h.display_name@);
    lemma_key_index(st.locations, id);
    if key_index(st.locations, id) is None {
        lemma_key_present_after_push(st.locations, id, location_of(h, id));
    }
}

// ── The phase ──

impl Default for SymbolTable {
    /// An empty symbol table: every namespace empty, no duplicates, no
    /// world start or entry.
    fn default() -> (t: Self)
        ensures
            table_view(t, WorldConfig { start: None, entry: None }) == (TableV {
                types: Seq::empty(), entities: Seq::empty(), sections: Seq::empty(), locations: Seq::empty(),
                actions: Seq::empty(), rules: Seq::empty(), sequences: Seq::empty(), dups: Seq::empty(),
                start: None, entry: None,
            }),
            t.world_start is None,
            t.world_entry is None,
    {
        let t = SymbolTable {
            types: crate::link::types_new(),
            entities: crate::link::entities_new(),
            sections: crate::link::sections_new(),
            locations: crate::link::locations_new(),
            actions: crate::link::actions_new(),
            rules: crate::link::rules_new(),
            sequences: crate::link::sequences_new(),
            duplicates: Vec::new(),
            world_start: None,
            world_entry: None,
        };
        assert(dups_view(t.duplicates@) =~= Seq::<DupV>::empty());
        t
    }
}

/// The contexts collection gives the files: each file sees itself and its
/// imports, with its local sections as collection found them.
pub open spec fn link_contexts(nodes: Seq<FileNode>, ctxs: Seq<crate::link::FileContext>,
    sections: Seq<Seq<(Seq<char>, Seq<char>)>>) -> bool {
    &&& ctxs.len() == nodes.len()
    &&& ctxs.map_values(|c: crate::link::FileContext| section_entries(c.local_sections)) == sections
    &&& forall|i: int| 0 <= i < nodes.len() ==>
        strings_view((#[trigger] ctxs[i]).visible_scope@) == seq![nodes[i].path@] + strings_view(nodes[i].imports@)
}

/// The empty table collection starts from.
pub open spec fn empty_table_v() -> TableV {
    TableV {
        types: Seq::empty(), entities: Seq::empty(), sections: Seq::empty(), locations: Seq::empty(),
        actions: Seq::empty(), rules: Seq::empty(), sequences: Seq::empty(), dups: Seq::empty(),
        start: None, entry: None,
    }
}

/// What LINK makes of the files `old_nodes` and the diagnostics `old_d`:
/// the files `new_nodes`, the symbol table `t` and the diagnostics `new_d`.
pub open spec fn link_post(old_nodes: Seq<FileNode>, new_nodes: Seq<FileNode>, t: SymbolTable, old_d: Seq<crate::diagnostics::Diagnostic>, new_d: Seq<crate::diagnostics::Diagnostic>) -> bool {
    &&& new_nodes.len() == old_nodes.len()
    &&& ({
            let c = files_collect(old_nodes, empty_table_v());
            let r0 = crate::resolve::ResV { ents: c.0.entities, locs: c.0.locations };
            exists|ctxs: Seq<crate::link::FileContext>| {
                &&& link_contexts(old_nodes, ctxs, c.1)
                &&& ({
                    let r = crate::resolve::files_resolve(old_nodes, ctxs, c.0.types, r0);
                    let mid = (old_d.len() + c.2.len()) as int;
                    &&& crate::resolve::res_of(t) == r.0
                    &&& new_d.len() >= mid
                    &&& appended(new_d.take(mid), old_d, c.2)
                    &&& crate::diagnostics::logged(new_d, new_d.take(mid), r.1)
                    &&& crate::resolve::files_resolved(old_nodes, ctxs, c.0.types, r0, new_nodes,
                        old_nodes.len() as int)
                })
            }
        })
    &&& ({
            let c = files_collect(old_nodes, TableV {
                types: Seq::empty(), entities: Seq::empty(), sections: Seq::empty(), locations: Seq::empty(),
                actions: Seq::empty(), rules: Seq::empty(), sequences: Seq::empty(), dups: Seq::empty(),
                start: None, entry: None,
            }).0;
            &&& type_entries(t.types) == c.types
            &&& section_symbol_entries(t.sections) == c.sections
            &&& action_entries(t.actions) == c.actions
            &&& rule_entries(t.rules) == c.rules
            &&& sequence_entries(t.sequences) == c.sequences
            &&& dups_view(t.duplicates@) == c.dups
            &&& opt_view(t.world_start) == match c.start {
                Some(p) => crate::resolve::world_start_of(c.locations, p.0),
                None => None,
            }
            &&& opt_view(t.world_entry) == match c.entry {
                Some(p) => if key_index(c.sequences, p.0) is Some { Some(p.0) } else { None },
                None => None,
            }
        })
}

/// LINK: collection over all files, then resolution, on a fresh symbol
/// table. The files are annotated in place; the table is returned.
pub fn link(nodes: &mut Vec<FileNode>, diagnostics: &mut DiagnosticCollector) -> (t: SymbolTable)
    ensures
        link_post(old(nodes)@, final(nodes)@, t, old(diagnostics)@, final(diagnostics)@),
{
    let mut t = SymbolTable::default();
    let mut w = WorldConfig::new();
    let ghost n0 = nodes@;
    let contexts = collect(nodes, &mut t, &mut w, diagnostics);
    let ghost d1 = diagnostics@;
    crate::resolve::resolve(nodes, &mut t, &w, &contexts, diagnostics);
    proof {
        let c = files_collect(n0, empty_table_v());
        let mid = (old(diagnostics)@.len() + c.2.len()) as int;
        assert(diagnostics@.take(mid) == d1);
        assert(link_contexts(n0, contexts@, c.1));
        assert forall|j: int| 0 <= j < n0.len() implies if j < contexts@.len() {
            crate::resolve::file_resolved(n0[j], contexts@[j], c.0.types,
                crate::resolve::files_resolve(n0.take(j), contexts@, c.0.types,
                    crate::resolve::ResV { ents: c.0.entities, locs: c.0.locations }).0, #[trigger] nodes@[j])
        } else {
            nodes@[j] == n0[j]
        } by {}
    }
    t
}

} // verus!
