//! VALIDATE, value checks: a property value against the property it is
//! written for (type defaults, entity overrides, conditions and effects),
//! and the type definitions themselves.
//!
//! A number is checked and shown as the text it was written with.

use vstd::prelude::*;
use crate::ast::{opt_strings_view, strings_view, ContentNode, ScalarV};
use crate::checks::report;
use crate::diagnostics::{appended, lemma_appended_empty, lemma_appended_trans, DiagnosticCollector, PlainDiag, Severity};
use crate::link::{
    entity_entries, entity_get, key_index, lemma_key_index, prop_view, value_sv, values_sv, EntityV, PropV,
};
use crate::span::{Span, SpanV, span_view};
use crate::symbol_table::{PropertySymbol, PropertyType, SymbolTable, Value, Visibility};
use crate::text::{push_chars, push_str, signed_decimal, signed_decimal_chars, string_from_chars};
use crate::validate::{format_property_type, property_type_name, CheckContext};

verus! {

broadcast use vstd::string::group_string_axioms;

/// What a value is checked against: the property's name, type, enum
/// values, referenced type, and for a list the same for its elements.
pub struct PShape {
    pub name: Seq<char>,
    pub ptype: PropertyType,
    pub values: Option<Seq<Seq<char>>>,
    pub ref_type: Option<Seq<char>>,
    pub elem: Option<(PropertyType, Option<Seq<Seq<char>>>, Option<Seq<char>>)>,
}

pub open spec fn shape_of(p: PropV) -> PShape {
    PShape {
        name: p.0,
        ptype: p.1,
        values: p.2,
        ref_type: p.4.ref_type,
        elem: match p.4.element_type {
            Some(t) => Some((t, p.4.element_values, p.4.element_ref_type)),
            None => None,
        },
    }
}

/// The shape list elements are checked against.
pub open spec fn elem_shape(p: PShape, e: (PropertyType, Option<Seq<Seq<char>>>, Option<Seq<char>>)) -> PShape {
    PShape { name: p.name, ptype: e.0, values: e.1, ref_type: e.2, elem: None }
}

pub open spec fn bool_text(b: bool) -> Seq<char> {
    if b { "true"@ } else { "false"@ }
}

/// A value as diagnostics show it.
pub open spec fn fmt_value(v: ScalarV) -> Seq<char>
    decreases v, 1int,
{
    match v {
        ScalarV::Str(s) => s,
        ScalarV::Int(i) => signed_decimal(i),
        ScalarV::Num(t) => t,
        ScalarV::Bool(b) => bool_text(b),
        ScalarV::Ref(s) => "@"@ + s,
        ScalarV::List(items) => "["@ + fmt_values(items) + "]"@,
    }
}

/// Values shown and joined with `, `.
pub open spec fn fmt_values(v: Seq<ScalarV>) -> Seq<char>
    decreases v, 0int,
{
    if v.len() == 0 {
        Seq::empty()
    } else if v.len() == 1 {
        fmt_value(v[0])
    } else {
        fmt_values(v.subrange(0, v.len() - 1)) + ", "@ + fmt_value(v[v.len() - 1])
    }
}

proof fn lemma_fmt_values_push(s: Seq<ScalarV>, x: ScalarV)
    ensures
        fmt_values(s.push(x)) == if s.len() == 0 { fmt_value(x) } else { fmt_values(s) + ", "@ + fmt_value(x) },
{
    assert(s.push(x).subrange(0, s.len() as int) =~= s);
}

/// Strings joined with `, `.
pub open spec fn join_names(v: Seq<Seq<char>>) -> Seq<char>
    decreases v.len(),
{
    if v.len() == 0 {
        Seq::empty()
    } else if v.len() == 1 {
        v[0]
    } else {
        join_names(v.drop_last()) + ", "@ + v.last()
    }
}

pub open spec fn msg_default_mismatch(shown: Seq<char>, prop: Seq<char>, tname: Seq<char>, pt: PropertyType) -> Seq<char> {
    "Default value '"@ + shown + "' for property '"@ + prop + "' on type '"@ + tname + "' does not match the declared type '"@
        + property_type_name(pt) + "'."@
}

pub open spec fn msg_type_mismatch(prop: Seq<char>, entity: Seq<char>, pt: PropertyType, shown: Seq<char>) -> Seq<char> {
    "Type mismatch: property '"@ + prop + "' on entity '@"@ + entity + "' expects "@ + property_type_name(pt) + " but got '"@
        + shown + "'."@
}

pub open spec fn msg_bad_enum(value: Seq<char>, prop: Seq<char>, entity: Seq<char>, values: Seq<Seq<char>>) -> Seq<char> {
    "Enum value '"@ + value + "' is not valid for property '"@ + prop + "' on entity '@"@ + entity + "'. Valid values: "@
        + join_names(values) + "."@
}

pub open spec fn msg_wrong_ref(prop: Seq<char>, entity: Seq<char>, expected: Seq<char>, r: Seq<char>, actual: Seq<char>) -> Seq<char> {
    "Property '"@ + prop + "' on entity '@"@ + entity + "' requires a reference to type '"@ + expected + "' but '@"@ + r
        + "' has type '"@ + actual + "'."@
}

/// A value of the wrong kind: URD413 for a default, URD401 otherwise.
pub open spec fn mismatch(v: ScalarV, p: PShape, entity: Seq<char>, tname: Seq<char>, ctx: CheckContext, span: SpanV) -> PlainDiag {
    if ctx == CheckContext::Default {
        (Severity::Error, "URD413"@, msg_default_mismatch(fmt_value(v), p.name, tname, p.ptype), span)
    } else {
        (Severity::Error, "URD401"@, msg_type_mismatch(p.name, entity, p.ptype, fmt_value(v)), span)
    }
}

/// A string that is not one of an enum's values, reported as the context
/// asks.
pub open spec fn bad_enum(s: Seq<char>, values: Seq<Seq<char>>, p: PShape, entity: Seq<char>, tname: Seq<char>,
    ctx: CheckContext, span: SpanV) -> PlainDiag
{
    match ctx {
        CheckContext::Override => (Severity::Error, "URD402"@, msg_bad_enum(s, p.name, entity, values), span),
        CheckContext::Default => (Severity::Error, "URD413"@, msg_default_mismatch(s, p.name, tname, p.ptype), span),
        CheckContext::ConditionOrEffect => (Severity::Error, "URD401"@, msg_type_mismatch(p.name, entity, p.ptype, s), span),
    }
}

/// A reference to an entity whose type is not the one the property asks
/// for (an unknown entity or one of unresolved type is left alone).
pub open spec fn ref_reports(r: Seq<char>, p: PShape, entity: Seq<char>, ents: Seq<(Seq<char>, EntityV)>, span: SpanV) -> Seq<PlainDiag> {
    match p.ref_type {
        Some(expected) => match key_index(ents, r) {
            Some(k) => match ents[k].1.2 {
                Some(actual) => if actual != expected {
                    seq![(Severity::Error, "URD419"@, msg_wrong_ref(p.name, entity, expected, r, actual), span)]
                } else {
                    Seq::empty()
                },
                None => Seq::empty(),
            },
            None => Seq::empty(),
        },
        None => Seq::empty(),
    }
}

/// Whether a value fits the property, and what is reported.
pub open spec fn check_sv(v: ScalarV, p: PShape, entity: Seq<char>, tname: Seq<char>, ctx: CheckContext,
    ents: Seq<(Seq<char>, EntityV)>, span: SpanV) -> (bool, Seq<PlainDiag>)
    decreases v, 1int,
{
    let wrong = (false, seq![mismatch(v, p, entity, tname, ctx, span)]);
    match p.ptype {
        PropertyType::Boolean => if v is Bool { (true, Seq::empty()) } else { wrong },
        PropertyType::Integer => if v is Int { (true, Seq::empty()) } else { wrong },
        PropertyType::Number => if v is Num || v is Int { (true, Seq::empty()) } else { wrong },
        PropertyType::String => if v is Str { (true, Seq::empty()) } else { wrong },
        PropertyType::Enum => match v {
            ScalarV::Str(s) => match p.values {
                Some(vals) => if vals.contains(s) {
                    (true, Seq::empty())
                } else {
                    (false, seq![bad_enum(s, vals, p, entity, tname, ctx, span)])
                },
                None => (true, Seq::empty()),
            },
            _ => wrong,
        },
        PropertyType::Ref => match v {
            ScalarV::Ref(r) => (true, ref_reports(r, p, entity, ents, span)),
            ScalarV::Str(r) => (true, ref_reports(r, p, entity, ents, span)),
            _ => wrong,
        },
        PropertyType::List => match v {
            ScalarV::List(items) => (true, match p.elem {
                Some(e) => items_reports(items, elem_shape(p, e), entity, tname, ctx, ents, span),
                None => Seq::empty(),
            }),
            _ => wrong,
        },
    }
}

/// The reports for each list element, in order.
pub open spec fn items_reports(items: Seq<ScalarV>, p: PShape, entity: Seq<char>, tname: Seq<char>, ctx: CheckContext,
    ents: Seq<(Seq<char>, EntityV)>, span: SpanV) -> Seq<PlainDiag>
    decreases items, 0int,
{
    if items.len() == 0 {
        Seq::empty()
    } else {
        items_reports(items.subrange(0, items.len() - 1), p, entity, tname, ctx, ents, span)
            + check_sv(items[items.len() - 1], p, entity, tname, ctx, ents, span).1
    }
}

/// Format a value for diagnostic messages.
pub fn format_value(value: &Value) -> (s: String)
    ensures
        s@ == fmt_value(value_sv(*value)),
    decreases value,
{
    match value {
        Value::String(t) => t.clone(),
        Value::Integer(i) => string_from_chars(signed_decimal_chars(*i)),
        Value::Number(t) => t.clone(),
        Value::Boolean(b) => {
            proof {
                reveal_strlit("true");
                reveal_strlit("false");
            }
            if *b { "true".to_string() } else { "false".to_string() }
        },
        Value::EntityRef(t) => {
            let mut v: Vec<char> = Vec::new();
            push_str(&mut v, "@");
            push_str(&mut v, t.as_str());
            proof { reveal_strlit("@"); }
            assert(v@ =~= "@"@ + t@);
            string_from_chars(v)
        },
        Value::List(items) => {
            let mut v: Vec<char> = Vec::new();
            let mut i: usize = 0;
            proof { reveal_strlit(", "); }
            while i < items.len()
                invariant
                    i <= items.len(),
                    *value == Value::List(*items),
                    v@ == fmt_values(values_sv(items@.take(i as int))),
                decreases items.len() - i,
            {
                proof {
                    assert(decreases_to!(*value => (*value)->List_0));
                    vstd::std_specs::vec::axiom_vec_index_decreases(*items, i as int);
                    crate::collect::lemma_values_sv_push(items@.take(i as int), items@[i as int]);
                    assert(items@.take(i + 1) =~= items@.take(i as int).push(items@[i as int]));
                    lemma_fmt_values_push(values_sv(items@.take(i as int)), value_sv(items@[i as int]));
                }
                let x = format_value(&items[i]);
                if i > 0 {
                    push_str(&mut v, ", ");
                }
                let c = crate::text::chars_of(x.as_str());
                push_chars(&mut v, &c);
                i += 1;
            }
            let mut out: Vec<char> = Vec::new();
            push_str(&mut out, "[");
            push_chars(&mut out, &v);
            push_str(&mut out, "]");
            proof {
                reveal_strlit("[");
                reveal_strlit("]");
                assert(items@.take(items.len() as int) =~= items@);
            }
            assert(out@ =~= "["@ + fmt_values(values_sv(items@)) + "]"@);
            string_from_chars(out)
        },
    }
}

fn join_strings(v: &Vec<String>) -> (r: Vec<char>)
    ensures
        r@ == join_names(strings_view(v@)),
{
    let mut out: Vec<char> = Vec::new();
    let mut i: usize = 0;
    proof { reveal_strlit(", "); }
    while i < v.len()
        invariant
            i <= v.len(),
            out@ == join_names(strings_view(v@.take(i as int))),
        decreases v.len() - i,
    {
        proof {
            assert(strings_view(v@.take(i + 1)) =~= strings_view(v@.take(i as int)).push(v@[i as int]@));
            assert(strings_view(v@.take(i + 1)).drop_last() =~= strings_view(v@.take(i as int)));
        }
        if i > 0 {
            push_str(&mut out, ", ");
        }
        push_str(&mut out, v[i].as_str());
        i += 1;
    }
    assert(v@.take(v.len() as int) =~= v@);
    out
}

fn default_mismatch_message(shown: &str, prop: &str, tname: &str, pt: &PropertyType) -> (m: String)
    ensures
        m@ == msg_default_mismatch(shown@, prop@, tname@, *pt),
{
    let mut v: Vec<char> = Vec::new();
    push_str(&mut v, "Default value '");
    push_str(&mut v, shown);
    push_str(&mut v, "' for property '");
    push_str(&mut v, prop);
    push_str(&mut v, "' on type '");
    push_str(&mut v, tname);
    push_str(&mut v, "' does not match the declared type '");
    push_str(&mut v, format_property_type(pt));
    push_str(&mut v, "'.");
    proof {
        reveal_strlit("Default value '");
        reveal_strlit("' for property '");
        reveal_strlit("' on type '");
        reveal_strlit("' does not match the declared type '");
        reveal_strlit("'.");
    }
    assert(v@ =~= msg_default_mismatch(shown@, prop@, tname@, *pt));
    string_from_chars(v)
}

fn type_mismatch_message(prop: &str, entity: &str, pt: &PropertyType, shown: &str) -> (m: String)
    ensures
        m@ == msg_type_mismatch(prop@, entity@, *pt, shown@),
{
    let mut v: Vec<char> = Vec::new();
    push_str(&mut v, "Type mismatch: property '");
    push_str(&mut v, prop);
    push_str(&mut v, "' on entity '@");
    push_str(&mut v, entity);
    push_str(&mut v, "' expects ");
    push_str(&mut v, format_property_type(pt));
    push_str(&mut v, " but got '");
    push_str(&mut v, shown);
    push_str(&mut v, "'.");
    proof {
        reveal_strlit("Type mismatch: property '");
        reveal_strlit("' on entity '@");
        reveal_strlit("' expects ");
        reveal_strlit(" but got '");
        reveal_strlit("'.");
    }
    assert(v@ =~= msg_type_mismatch(prop@, entity@, *pt, shown@));
    string_from_chars(v)
}

fn bad_enum_message(value: &str, prop: &str, entity: &str, values: &Vec<String>) -> (m: String)
    ensures
        m@ == msg_bad_enum(value@, prop@, entity@, strings_view(values@)),
{
    let mut v: Vec<char> = Vec::new();
    push_str(&mut v, "Enum value '");
    push_str(&mut v, value);
    push_str(&mut v, "' is not valid for property '");
    push_str(&mut v, prop);
    push_str(&mut v, "' on entity '@");
    push_str(&mut v, entity);
    push_str(&mut v, "'. Valid values: ");
    let j = join_strings(values);
    push_chars(&mut v, &j);
    push_str(&mut v, ".");
    proof {
        reveal_strlit("Enum value '");
        reveal_strlit("' is not valid for property '");
        reveal_strlit("' on entity '@");
        reveal_strlit("'. Valid values: ");
        reveal_strlit(".");
    }
    assert(v@ =~= msg_bad_enum(value@, prop@, entity@, strings_view(values@)));
    string_from_chars(v)
}

fn wrong_ref_message(prop: &str, entity: &str, expected: &str, r: &str, actual: &str) -> (m: String)
    ensures
        m@ == msg_wrong_ref(prop@, entity@, expected@, r@, actual@),
{
    let mut v: Vec<char> = Vec::new();
    push_str(&mut v, "Property '");
    push_str(&mut v, prop);
    push_str(&mut v, "' on entity '@");
    push_str(&mut v, entity);
    push_str(&mut v, "' requires a reference to type '");
    push_str(&mut v, expected);
    push_str(&mut v, "' but '@");
    push_str(&mut v, r);
    push_str(&mut v, "' has type '");
    push_str(&mut v, actual);
    push_str(&mut v, "'.");
    proof {
        reveal_strlit("Property '");
        reveal_strlit("' on entity '@");
        reveal_strlit("' requires a reference to type '");
        reveal_strlit("' but '@");
        reveal_strlit("' has type '");
        reveal_strlit("'.");
    }
    assert(v@ =~= msg_wrong_ref(prop@, entity@, expected@, r@, actual@));
    string_from_chars(v)
}

/// Report a value of the wrong kind: URD413 for a default, URD401
/// otherwise.
fn emit_type_mismatch(
    value: &Value,
    prop: &PropertySymbol,
    entity_id: &str,
    owner_type: &str,
    is_default: bool,
    span: &Span,
    diagnostics: &mut DiagnosticCollector,
)
    ensures
        appended(final(diagnostics)@, old(diagnostics)@, seq![mismatch(value_sv(*value), shape_of(prop_view(*prop)),
            entity_id@, owner_type@, if is_default { CheckContext::Default } else { CheckContext::ConditionOrEffect }, span_view(*span))]),
{
    let shown = format_value(value);
    if is_default {
        let m = default_mismatch_message(shown.as_str(), prop.name.as_str(), owner_type, &prop.property_type);
        proof { reveal_strlit("URD413"); }
        report("URD413", false, m, span, diagnostics, Ghost((Severity::Error, "URD413"@,
            msg_default_mismatch(shown@, prop.name@, owner_type@, prop.property_type), span_view(*span))));
    } else {
        let m = type_mismatch_message(prop.name.as_str(), entity_id, &prop.property_type, shown.as_str());
        proof { reveal_strlit("URD401"); }
        report("URD401", false, m, span, diagnostics, Ghost((Severity::Error, "URD401"@,
            msg_type_mismatch(prop.name@, entity_id@, prop.property_type, shown@), span_view(*span))));
    }
}

/// Report a reference to an entity whose type is not the one the property
/// asks for.
fn check_ref_type(
    ref_id: &str,
    prop: &PropertySymbol,
    entity_id: &str,
    symbol_table: &SymbolTable,
    span: &Span,
    diagnostics: &mut DiagnosticCollector,
)
    ensures
        appended(final(diagnostics)@, old(diagnostics)@,
            ref_reports(ref_id@, shape_of(prop_view(*prop)), entity_id@, entity_entries(symbol_table.entities), span_view(*span))),
{
    proof { lemma_appended_empty(diagnostics@); }
    match &prop.ref_type {
        Some(expected) => {
            proof { lemma_key_index(entity_entries(symbol_table.entities), ref_id@); }
            match entity_get(&symbol_table.entities, ref_id) {
                Some(ref_entity) => match &ref_entity.type_symbol {
                    Some(actual) => {
                        if !crate::text::str_equals(actual.as_str(), expected.as_str()) {
                            let m = wrong_ref_message(prop.name.as_str(), entity_id, expected.as_str(), ref_id, actual.as_str());
                            proof { reveal_strlit("URD419"); }
                            report("URD419", false, m, span, diagnostics, Ghost((Severity::Error, "URD419"@,
                                msg_wrong_ref(prop.name@, entity_id@, expected@, ref_id@, actual@), span_view(*span))));
                        }
                    },
                    None => {},
                },
                None => {},
            }
        },
        None => {},
    }
}

proof fn lemma_items_reports_push(items: Seq<ScalarV>, x: ScalarV, p: PShape, entity: Seq<char>, tname: Seq<char>,
    ctx: CheckContext, ents: Seq<(Seq<char>, EntityV)>, span: SpanV)
    ensures
        items_reports(items.push(x), p, entity, tname, ctx, ents, span)
            == items_reports(items, p, entity, tname, ctx, ents, span) + check_sv(x, p, entity, tname, ctx, ents, span).1,
{
    assert(items.push(x).subrange(0, items.len() as int) =~= items);
}

/// Validate a single value against a property definition, reporting what
/// does not fit. Returns whether the value fits.
pub fn check_value(
    value: &Value,
    prop: &PropertySymbol,
    entity_id: &str,
    owner_type: &str,
    context: CheckContext,
    symbol_table: &SymbolTable,
    span: &Span,
    diagnostics: &mut DiagnosticCollector,
) -> (ok: bool)
    ensures
        ok == check_sv(value_sv(*value), shape_of(prop_view(*prop)), entity_id@, owner_type@, context,
            entity_entries(symbol_table.entities), span_view(*span)).0,
        appended(final(diagnostics)@, old(diagnostics)@, check_sv(value_sv(*value), shape_of(prop_view(*prop)), entity_id@,
            owner_type@, context, entity_entries(symbol_table.entities), span_view(*span)).1),
    decreases value,
{
    let is_default = context == CheckContext::Default;
    let ghost d0 = diagnostics@;
    let ghost ents = entity_entries(symbol_table.entities);
    let ghost shape = shape_of(prop_view(*prop));
    proof { lemma_appended_empty(d0); }
    match &prop.property_type {
        PropertyType::Boolean => {
            if !matches!(value, Value::Boolean(_)) {
                emit_type_mismatch(value, prop, entity_id, owner_type, is_default, span, diagnostics);
                return false;
            }
        },
        PropertyType::Integer => {
            if !matches!(value, Value::Integer(_)) {
                emit_type_mismatch(value, prop, entity_id, owner_type, is_default, span, diagnostics);
                return false;
            }
        },
        PropertyType::Number => {
            if !matches!(value, Value::Number(_)) && !matches!(value, Value::Integer(_)) {
                emit_type_mismatch(value, prop, entity_id, owner_type, is_default, span, diagnostics);
                return false;
            }
        },
        PropertyType::String => {
            if !matches!(value, Value::String(_)) {
                emit_type_mismatch(value, prop, entity_id, owner_type, is_default, span, diagnostics);
                return false;
            }
        },
        PropertyType::Enum => {
            match value {
                Value::String(s) => match &prop.values {
                    Some(values) => {
                        if !crate::link::in_scope(values, s.as_str()) {
                            match context {
                                CheckContext::Override => {
                                    let m = bad_enum_message(s.as_str(), prop.name.as_str(), entity_id, values);
                                    proof { reveal_strlit("URD402"); }
                                    report("URD402", false, m, span, diagnostics, Ghost(check_sv(value_sv(*value), shape,
                                        entity_id@, owner_type@, context, ents, span_view(*span)).1[0]));
                                },
                                CheckContext::Default => {
                                    let m = default_mismatch_message(s.as_str(), prop.name.as_str(), owner_type, &prop.property_type);
                                    proof { reveal_strlit("URD413"); }
                                    report("URD413", false, m, span, diagnostics, Ghost(check_sv(value_sv(*value), shape,
                                        entity_id@, owner_type@, context, ents, span_view(*span)).1[0]));
                                },
                                CheckContext::ConditionOrEffect => {
                                    let m = type_mismatch_message(prop.name.as_str(), entity_id, &prop.property_type, s.as_str());
                                    proof { reveal_strlit("URD401"); }
                                    report("URD401", false, m, span, diagnostics, Ghost(check_sv(value_sv(*value), shape,
                                        entity_id@, owner_type@, context, ents, span_view(*span)).1[0]));
                                },
                            }
                            return false;
                        }
                    },
                    None => {},
                },
                _ => {
                    emit_type_mismatch(value, prop, entity_id, owner_type, is_default, span, diagnostics);
                    return false;
                },
            }
        },
        PropertyType::Ref => {
            match value {
                Value::EntityRef(ref_id) => {
                    check_ref_type(ref_id.as_str(), prop, entity_id, symbol_table, span, diagnostics);
                },
                Value::String(ref_id) => {
                    check_ref_type(ref_id.as_str(), prop, entity_id, symbol_table, span, diagnostics);
                },
                _ => {
                    emit_type_mismatch(value, prop, entity_id, owner_type, is_default, span, diagnostics);
                    return false;
                },
            }
        },
        PropertyType::List => {
            match value {
                Value::List(items) => {
                    match &prop.element_type {
                        Some(elem_type) => {
                            let elem_prop = PropertySymbol {
                                name: prop.name.clone(),
                                property_type: *elem_type,
                                raw_type_string: prop.raw_type_string.clone(),
                                default: None,
                                visibility: Visibility::Visible,
                                values: crate::collect::clone_opt_strings(&prop.element_values),
                                ref_type: crate::link::clone_opt_string(&prop.element_ref_type),
                                element_type: None,
                                element_values: None,
                                element_ref_type: None,
                                description: None,
                                declared_in: prop.declared_in.clone(),
                            };
                            let ghost es = shape_of(prop_view(elem_prop));
                            assert(es == elem_shape(shape, shape.elem.unwrap()));
                            let mut i: usize = 0;
                            proof { assert(values_sv(items@.take(0)) =~= Seq::<ScalarV>::empty()); }
                            while i < items.len()
                                invariant
                                    i <= items.len(),
                                    *value == Value::List(*items),
                                    es == shape_of(prop_view(elem_prop)),
                                    ents == entity_entries(symbol_table.entities),
                                    appended(diagnostics@, d0, items_reports(values_sv(items@.take(i as int)), es, entity_id@,
                                        owner_type@, context, ents, span_view(*span))),
                                decreases items.len() - i,
                            {
                                proof {
                                    assert(decreases_to!(*value => (*value)->List_0));
                                    vstd::std_specs::vec::axiom_vec_index_decreases(*items, i as int);
                                    crate::collect::lemma_values_sv_push(items@.take(i as int), items@[i as int]);
                                    assert(items@.take(i + 1) =~= items@.take(i as int).push(items@[i as int]));
                                    lemma_items_reports_push(values_sv(items@.take(i as int)), value_sv(items@[i as int]), es,
                                        entity_id@, owner_type@, context, ents, span_view(*span));
                                }
                                let ghost d1 = diagnostics@;
                                check_value(&items[i], &elem_prop, entity_id, owner_type, context, symbol_table, span, diagnostics);
                                proof {
                                    lemma_appended_trans(d0, d1, diagnostics@,
                                        items_reports(values_sv(items@.take(i as int)), es, entity_id@, owner_type@, context, ents, span_view(*span)),
                                        check_sv(value_sv(items@[i as int]), es, entity_id@, owner_type@, context, ents, span_view(*span)).1);
                                }
                                i += 1;
                            }
                            assert(items@.take(items.len() as int) =~= items@);
                        },
                        None => {},
                    }
                },
                _ => {
                    emit_type_mismatch(value, prop, entity_id, owner_type, is_default, span, diagnostics);
                    return false;
                },
            }
        },
    }
    true
}

// ── Type definitions and entity overrides ──

pub open spec fn msg_empty_enum(prop: Seq<char>, tname: Seq<char>) -> Seq<char> {
    "Enum property '"@ + prop + "' on type '"@ + tname + "' declares an empty values list."@
}

pub open spec fn msg_unknown_ref_type(prop: Seq<char>, tname: Seq<char>, rt: Seq<char>) -> Seq<char> {
    "Property '"@ + prop + "' on type '"@ + tname + "' references unknown type '"@ + rt + "'."@
}

pub open spec fn msg_unrecognised_type(raw: Seq<char>, prop: Seq<char>, tname: Seq<char>) -> Seq<char> {
    "Unrecognised property type '"@ + raw + "' on property '"@ + prop + "' of type '"@ + tname
        + "'. Valid types: bool, int, num, str, enum, ref, list (and their long forms). Treating as 'string'."@
}

/// What one property of type `tname` reports: a default that does not fit
/// (URD413 and kin), an empty enum values list (URD414), a reference to
/// an unknown type (URD415), an unrecognised type keyword (URD429
/// warning).
pub open spec fn prop_reports(tname: Seq<char>, p: PropV, types: Seq<(Seq<char>, crate::link::TypeV)>,
    ents: Seq<(Seq<char>, EntityV)>, span: SpanV) -> Seq<PlainDiag>
{
    (match p.4.default {
        Some(d) => check_sv(d, shape_of(p), tname, tname, CheckContext::Default, ents, span).1,
        None => Seq::empty(),
    })
    + (if p.1 == PropertyType::Enum && (match p.2 { Some(vs) => vs.len() == 0, None => false }) {
        seq![(Severity::Error, "URD414"@, msg_empty_enum(p.0, tname), span)]
    } else {
        Seq::empty()
    })
    + (if p.1 == PropertyType::Ref {
        match p.4.ref_type {
            Some(rt) => if key_index(types, rt) is None {
                seq![(Severity::Error, "URD415"@, msg_unknown_ref_type(p.0, tname, rt), span)]
            } else {
                Seq::empty()
            },
            None => Seq::empty(),
        }
    } else {
        Seq::empty()
    })
    + (if !crate::validate::recognised_type(p.4.raw_type) {
        seq![(Severity::Warning, "URD429"@, msg_unrecognised_type(p.4.raw_type, p.0, tname), span)]
    } else {
        Seq::empty()
    })
}

pub open spec fn props_reports(tname: Seq<char>, ps: Seq<PropV>, types: Seq<(Seq<char>, crate::link::TypeV)>,
    ents: Seq<(Seq<char>, EntityV)>, span: SpanV) -> Seq<PlainDiag>
    decreases ps.len(),
{
    if ps.len() == 0 {
        Seq::empty()
    } else {
        props_reports(tname, ps.drop_last(), types, ents, span) + prop_reports(tname, ps.last(), types, ents, span)
    }
}

/// What the type definitions among `entries` report, in order.
pub open spec fn types_reports(entries: Seq<(Seq<char>, crate::link::TypeV)>, types: Seq<(Seq<char>, crate::link::TypeV)>,
    ents: Seq<(Seq<char>, EntityV)>) -> Seq<PlainDiag>
    decreases entries.len(),
{
    if entries.len() == 0 {
        Seq::empty()
    } else {
        let e = entries.last();
        types_reports(entries.drop_last(), types, ents) + props_reports(e.0, e.1.3, types, ents, e.1.4)
    }
}

fn three_part_message(a: &str, x: &str, b: &str, y: &str, c: &str) -> (m: String)
    ensures
        m@ == a@ + x@ + b@ + y@ + c@,
{
    let mut v: Vec<char> = Vec::new();
    push_str(&mut v, a);
    push_str(&mut v, x);
    push_str(&mut v, b);
    push_str(&mut v, y);
    push_str(&mut v, c);
    assert(v@ =~= a@ + x@ + b@ + y@ + c@);
    string_from_chars(v)
}

/// Check one property of type `tname`.
fn check_property_definition(
    tname: &str,
    prop: &PropertySymbol,
    span: &Span,
    symbol_table: &SymbolTable,
    diagnostics: &mut DiagnosticCollector,
)
    ensures
        appended(final(diagnostics)@, old(diagnostics)@, prop_reports(tname@, prop_view(*prop),
            crate::link::type_entries(symbol_table.types), entity_entries(symbol_table.entities), span_view(*span))),
{
    let ghost p = prop_view(*prop);
    let ghost ents = entity_entries(symbol_table.entities);
    let ghost types = crate::link::type_entries(symbol_table.types);
    let ghost sp = span_view(*span);
    let ghost d0 = diagnostics@;
    proof { lemma_appended_empty(d0); }
    // a. The default.
    match &prop.default {
        Some(d) => { check_value(d, prop, tname, tname, CheckContext::Default, symbol_table, span, diagnostics); },
        None => {},
    }
    let ghost ra = match p.4.default {
        Some(d) => check_sv(d, shape_of(p), tname@, tname@, CheckContext::Default, ents, sp).1,
        None => Seq::<PlainDiag>::empty(),
    };
    let ghost d1 = diagnostics@;
    proof { lemma_appended_empty(d1); }
    // b. An empty enum values list.
    let ghost mut rb: Seq<PlainDiag> = Seq::empty();
    if prop.property_type == PropertyType::Enum {
        match &prop.values {
            Some(values) => {
                if values.len() == 0 {
                    let m = three_part_message("Enum property '", prop.name.as_str(), "' on type '", tname,
                        "' declares an empty values list.");
                    proof {
                        reveal_strlit("Enum property '");
                        reveal_strlit("' on type '");
                        reveal_strlit("' declares an empty values list.");
                        reveal_strlit("URD414");
                    }
                    let ghost e = (Severity::Error, "URD414"@, msg_empty_enum(p.0, tname@), sp);
                    report("URD414", false, m, span, diagnostics, Ghost(e));
                    proof { rb = seq![e]; }
                }
            },
            None => {},
        }
    }
    proof { lemma_appended_trans(d0, d1, diagnostics@, ra, rb); }
    let ghost d2 = diagnostics@;
    proof { lemma_appended_empty(d2); }
    // c. A reference to an unknown type.
    let ghost mut rc: Seq<PlainDiag> = Seq::empty();
    if prop.property_type == PropertyType::Ref {
        match &prop.ref_type {
            Some(rt) => {
                proof { lemma_key_index(types, rt@); }
                if crate::link::type_get(&symbol_table.types, rt.as_str()).is_none() {
                    let mut v: Vec<char> = Vec::new();
                    push_str(&mut v, "Property '");
                    push_str(&mut v, prop.name.as_str());
                    push_str(&mut v, "' on type '");
                    push_str(&mut v, tname);
                    push_str(&mut v, "' references unknown type '");
                    push_str(&mut v, rt.as_str());
                    push_str(&mut v, "'.");
                    proof {
                        reveal_strlit("Property '");
                        reveal_strlit("' on type '");
                        reveal_strlit("' references unknown type '");
                        reveal_strlit("'.");
                        reveal_strlit("URD415");
                    }
                    assert(v@ =~= msg_unknown_ref_type(p.0, tname@, rt@));
                    let m = string_from_chars(v);
                    let ghost e = (Severity::Error, "URD415"@, msg_unknown_ref_type(p.0, tname@, rt@), sp);
                    report("URD415", false, m, span, diagnostics, Ghost(e));
                    proof { rc = seq![e]; }
                }
            },
            None => {},
        }
    }
    proof { lemma_appended_trans(d0, d2, diagnostics@, ra + rb, rc); }
    let ghost d3 = diagnostics@;
    proof { lemma_appended_empty(d3); }
    // f. An unrecognised type keyword.
    let ghost mut rf: Seq<PlainDiag> = Seq::empty();
    if !crate::validate::is_recognised_type(prop.raw_type_string.as_str()) {
        let m = three_part_message("Unrecognised property type '", prop.raw_type_string.as_str(), "' on property '",
            prop.name.as_str(), "");
        let m2 = three_part_message(m.as_str(), "", "' of type '", tname,
            "'. Valid types: bool, int, num, str, enum, ref, list (and their long forms). Treating as 'string'.");
        proof {
            reveal_strlit("Unrecognised property type '");
            reveal_strlit("' on property '");
            reveal_strlit("");
            reveal_strlit("' of type '");
            reveal_strlit("'. Valid types: bool, int, num, str, enum, ref, list (and their long forms). Treating as 'string'.");
            reveal_strlit("URD429");
        }
        assert(m2@ =~= msg_unrecognised_type(p.4.raw_type, p.0, tname@));
        let ghost e = (Severity::Warning, "URD429"@, msg_unrecognised_type(p.4.raw_type, p.0, tname@), sp);
        report("URD429", true, m2, span, diagnostics, Ghost(e));
        proof { rf = seq![e]; }
    }
    proof {
        lemma_appended_trans(d0, d3, diagnostics@, ra + rb + rc, rf);
        assert(ra + rb + rc + rf == prop_reports(tname@, p, types, ents, sp));
    }
}

/// Validate all type definitions, in insertion order, property by
/// property.
pub fn validate_types(symbol_table: &SymbolTable, diagnostics: &mut DiagnosticCollector)
    ensures
        appended(final(diagnostics)@, old(diagnostics)@, types_reports(crate::link::type_entries(symbol_table.types),
            crate::link::type_entries(symbol_table.types), entity_entries(symbol_table.entities))),
{
    let ghost types = crate::link::type_entries(symbol_table.types);
    let ghost ents = entity_entries(symbol_table.entities);
    let ghost d0 = diagnostics@;
    let names = crate::link::type_keys(&symbol_table.types);
    proof {
        lemma_appended_empty(d0);
        assert(types.take(0) =~= Seq::<(Seq<char>, crate::link::TypeV)>::empty());
    }
    let mut i: usize = 0;
    while i < names.len()
        invariant
            i <= names.len(),
            types == crate::link::type_entries(symbol_table.types),
            ents == entity_entries(symbol_table.entities),
            strings_view(names@) == crate::link::keys_of(types),
            strings_view(names@).no_duplicates(),
            appended(diagnostics@, d0, types_reports(types.take(i as int), types, ents)),
        decreases names.len() - i,
    {
        proof {
            assert(strings_view(names@).len() == types.len());
            assert(crate::link::keys_of(types)[i as int] == types[i as int].0);
            crate::link::lemma_key_index_unique(types, i as int);
            assert(types.take(i + 1).drop_last() =~= types.take(i as int));
            assert(types.take(i + 1).last() == types[i as int]);
        }
        let ts = crate::link::type_get(&symbol_table.types, names[i].as_str()).unwrap();
        let ghost tv = types[i as int].1;
        let ghost d1 = diagnostics@;
        proof {
            lemma_appended_empty(d1);
            assert(tv.3.take(0) =~= Seq::<PropV>::empty());
        }
        let mut j: usize = 0;
        while j < ts.properties.len()
            invariant
                j <= ts.properties.len(),
                i < names.len(),
                tv == crate::link::type_view(*ts),
                types == crate::link::type_entries(symbol_table.types),
                ents == entity_entries(symbol_table.entities),
                names@[i as int]@ == types[i as int].0,
                appended(diagnostics@, d1, props_reports(names@[i as int]@, tv.3.take(j as int), types, ents, tv.4)),
            decreases ts.properties.len() - j,
        {
            proof {
                assert(tv.3[j as int] == prop_view(ts.properties@[j as int]));
                assert(tv.3.take(j + 1).drop_last() =~= tv.3.take(j as int));
                assert(tv.3.take(j + 1).last() == tv.3[j as int]);
            }
            let ghost d2 = diagnostics@;
            check_property_definition(names[i].as_str(), &ts.properties[j], &ts.declared_in, symbol_table, diagnostics);
            proof {
                lemma_appended_trans(d1, d2, diagnostics@, props_reports(names@[i as int]@, tv.3.take(j as int), types, ents, tv.4),
                    prop_reports(names@[i as int]@, tv.3[j as int], types, ents, tv.4));
            }
            j += 1;
        }
        proof {
            assert(tv.3.take(tv.3.len() as int) =~= tv.3);
            lemma_appended_trans(d0, d1, diagnostics@, types_reports(types.take(i as int), types, ents),
                props_reports(types[i as int].0, tv.3, types, ents, tv.4));
        }
        i += 1;
    }
    proof {
        assert(strings_view(names@).len() == types.len());
        assert(types.take(types.len() as int) =~= types);
    }
}

/// What the overrides of entity `id` (of type `tname`, whose properties
/// are `props`) report, in order: each that names a property of the type
/// is checked against it.
pub open spec fn overrides_reports(id: Seq<char>, tname: Seq<char>, ov: Seq<(Seq<char>, ScalarV)>, props: Seq<PropV>,
    ents: Seq<(Seq<char>, EntityV)>, span: SpanV) -> Seq<PlainDiag>
    decreases ov.len(),
{
    if ov.len() == 0 {
        Seq::empty()
    } else {
        overrides_reports(id, tname, ov.drop_last(), props, ents, span) + match key_index(crate::collect::named(props), ov.last().0) {
            Some(j) => check_sv(ov.last().1, shape_of(props[j]), id, tname, CheckContext::Override, ents, span).1,
            None => Seq::empty(),
        }
    }
}

/// What the entities among `entries` report, in order: the overrides of
/// each entity whose type resolved.
pub open spec fn entities_reports(entries: Seq<(Seq<char>, EntityV)>, types: Seq<(Seq<char>, crate::link::TypeV)>,
    ents: Seq<(Seq<char>, EntityV)>) -> Seq<PlainDiag>
    decreases entries.len(),
{
    if entries.len() == 0 {
        Seq::empty()
    } else {
        let e = entries.last();
        entities_reports(entries.drop_last(), types, ents) + match e.1.2 {
            Some(tn) => match key_index(types, tn) {
                Some(k) => overrides_reports(e.0, tn, e.1.5, types[k].1.3, ents, e.1.3),
                None => Seq::empty(),
            },
            None => Seq::empty(),
        }
    }
}

/// The overrides of one entity checked against its type.
fn check_overrides_of(
    id: &str,
    tname: &str,
    overrides: &Vec<(String, Value)>,
    props: &Vec<PropertySymbol>,
    span: &Span,
    symbol_table: &SymbolTable,
    diagnostics: &mut DiagnosticCollector,
)
    ensures
        appended(final(diagnostics)@, old(diagnostics)@, overrides_reports(id@, tname@, crate::link::value_pairs_sv(overrides@),
            crate::collect::props_view(props@), entity_entries(symbol_table.entities), span_view(*span))),
{
    let ghost ov = crate::link::value_pairs_sv(overrides@);
    let ghost ps = crate::collect::props_view(props@);
    let ghost ents = entity_entries(symbol_table.entities);
    let ghost d0 = diagnostics@;
    proof {
        lemma_appended_empty(d0);
        assert(ov.take(0) =~= Seq::<(Seq<char>, ScalarV)>::empty());
    }
    let mut i: usize = 0;
    while i < overrides.len()
        invariant
            i <= overrides.len(),
            ov == crate::link::value_pairs_sv(overrides@),
            ps == crate::collect::props_view(props@),
            ents == entity_entries(symbol_table.entities),
            appended(diagnostics@, d0, overrides_reports(id@, tname@, ov.take(i as int), ps, ents, span_view(*span))),
        decreases overrides.len() - i,
    {
        proof {
            assert(ov.take(i + 1).drop_last() =~= ov.take(i as int));
            assert(ov.take(i + 1).last() == ov[i as int]);
        }
        let ghost d1 = diagnostics@;
        match crate::collect::prop_position(props, overrides[i].0.as_str()) {
            Some(j) => {
                assert(ps[j as int] == prop_view(props@[j as int]));
                check_value(&overrides[i].1, &props[j], id, tname, CheckContext::Override, symbol_table, span, diagnostics);
            },
            None => { proof { lemma_appended_empty(d1); } },
        }
        proof {
            lemma_appended_trans(d0, d1, diagnostics@, overrides_reports(id@, tname@, ov.take(i as int), ps, ents, span_view(*span)),
                match key_index(crate::collect::named(ps), ov[i as int].0) {
                    Some(j) => check_sv(ov[i as int].1, shape_of(ps[j]), id@, tname@, CheckContext::Override, ents, span_view(*span)).1,
                    None => Seq::empty(),
                });
        }
        i += 1;
    }
    assert(ov.take(ov.len() as int) =~= ov);
}

/// Validate all entity property overrides, for each entity whose type
/// resolved (an unresolved type or an unknown property was reported by
/// LINK).
pub fn validate_entities(symbol_table: &SymbolTable, diagnostics: &mut DiagnosticCollector)
    ensures
        appended(final(diagnostics)@, old(diagnostics)@, entities_reports(entity_entries(symbol_table.entities),
            crate::link::type_entries(symbol_table.types), entity_entries(symbol_table.entities))),
{
    let ghost types = crate::link::type_entries(symbol_table.types);
    let ghost ents = entity_entries(symbol_table.entities);
    let ghost d0 = diagnostics@;
    let names = crate::link::entity_keys(&symbol_table.entities);
    proof {
        lemma_appended_empty(d0);
        assert(ents.take(0) =~= Seq::<(Seq<char>, EntityV)>::empty());
    }
    let mut i: usize = 0;
    while i < names.len()
        invariant
            i <= names.len(),
            types == crate::link::type_entries(symbol_table.types),
            ents == entity_entries(symbol_table.entities),
            strings_view(names@) == crate::link::keys_of(ents),
            strings_view(names@).no_duplicates(),
            appended(diagnostics@, d0, entities_reports(ents.take(i as int), types, ents)),
        decreases names.len() - i,
    {
        proof {
            assert(strings_view(names@).len() == ents.len());
            assert(crate::link::keys_of(ents)[i as int] == ents[i as int].0);
            crate::link::lemma_key_index_unique(ents, i as int);
            assert(ents.take(i + 1).drop_last() =~= ents.take(i as int));
            assert(ents.take(i + 1).last() == ents[i as int]);
        }
        let es = entity_get(&symbol_table.entities, names[i].as_str()).unwrap();
        let ghost d1 = diagnostics@;
        proof { lemma_appended_empty(d1); }
        match &es.type_symbol {
            Some(tn) => {
                proof { lemma_key_index(types, tn@); }
                match crate::link::type_get(&symbol_table.types, tn.as_str()) {
                    Some(ts) => {
                        check_overrides_of(names[i].as_str(), tn.as_str(), &es.property_overrides, &ts.properties,
                            &es.declared_in, symbol_table, diagnostics);
                    },
                    None => {},
                }
            },
            None => {},
        }
        proof {
            let e = ents[i as int];
            lemma_appended_trans(d0, d1, diagnostics@, entities_reports(ents.take(i as int), types, ents),
                match e.1.2 {
                    Some(tn) => match key_index(types, tn) {
                        Some(k) => overrides_reports(e.0, tn, e.1.5, types[k].1.3, ents, e.1.3),
                        None => Seq::empty(),
                    },
                    None => Seq::empty(),
                });
        }
        i += 1;
    }
    proof {
        assert(strings_view(names@).len() == ents.len());
        assert(ents.take(ents.len() as int) =~= ents);
    }
}

/// A raw value (of a comparison or an effect) read as the property's type
/// asks: `true`/`false` for a boolean, a decimal integer, a number as
/// `f64` parsing accepts it (kept as written), an entity ID for a
/// reference; anything else stays a string.
pub open spec fn parsed_value(raw: Seq<char>, pt: PropertyType) -> ScalarV {
    match pt {
        PropertyType::Boolean => if raw == "true"@ {
            ScalarV::Bool(true)
        } else if raw == "false"@ {
            ScalarV::Bool(false)
        } else {
            ScalarV::Str(raw)
        },
        PropertyType::Integer => match crate::text::spec_parse_i64(raw) {
            Some(i) => ScalarV::Int(i),
            None => ScalarV::Str(raw),
        },
        PropertyType::Number => if crate::text::is_float_text(raw) { ScalarV::Num(raw) } else { ScalarV::Str(raw) },
        PropertyType::Ref => ScalarV::Ref(raw),
        _ => ScalarV::Str(raw),
    }
}

/// Parse a raw string value into a `Value` given the expected property type.
pub fn parse_string_to_value(raw: &str, expected_type: &PropertyType) -> (v: Value)
    ensures
        value_sv(v) == parsed_value(raw@, *expected_type),
{
    proof {
        reveal_strlit("true");
        reveal_strlit("false");
    }
    match expected_type {
        PropertyType::Boolean => {
            if crate::text::str_equals(raw, "true") {
                Value::Boolean(true)
            } else if crate::text::str_equals(raw, "false") {
                Value::Boolean(false)
            } else {
                Value::String(raw.to_string())
            }
        },
        PropertyType::Integer => match crate::text::parse_i64(raw) {
            Some(i) => Value::Integer(i),
            None => Value::String(raw.to_string()),
        },
        PropertyType::Number => {
            if crate::text::is_float_literal(raw) {
                Value::Number(raw.to_string())
            } else {
                Value::String(raw.to_string())
            }
        },
        PropertyType::Ref => Value::EntityRef(raw.to_string()),
        _ => Value::String(raw.to_string()),
    }
}

// ── Effects ──

/// The property `pname` of type `tname`, if both are known.
pub open spec fn prop_lookup(types: Seq<(Seq<char>, crate::link::TypeV)>, tname: Seq<char>, pname: Seq<char>) -> Option<PropV> {
    match key_index(types, tname) {
        Some(k) => match key_index(crate::collect::named(types[k].1.3), pname) {
            Some(j) => Some(types[k].1.3[j]),
            None => None,
        },
        None => None,
    }
}

/// Whether type `tname` is known and has trait `t`.
pub open spec fn type_has_trait(types: Seq<(Seq<char>, crate::link::TypeV)>, tname: Seq<char>, t: Seq<char>) -> bool {
    match key_index(types, tname) {
        Some(k) => types[k].1.2.contains(t),
        None => false,
    }
}

/// The resolved type of entity `id`, if it has one.
pub open spec fn entity_type_of(ents: Seq<(Seq<char>, EntityV)>, id: Seq<char>) -> Option<Seq<char>> {
    match key_index(ents, id) {
        Some(k) => ents[k].1.2,
        None => None,
    }
}

pub open spec fn msg_arithmetic(op: Seq<char>, prop: Seq<char>, pt: PropertyType) -> Seq<char> {
    "Arithmetic operator '"@ + op + "' is not valid for property '"@ + prop + "' of type '"@ + property_type_name(pt)
        + "'. Arithmetic effects require integer or number properties."@
}

pub open spec fn msg_not_portable(id: Seq<char>, t: Seq<char>) -> Seq<char> {
    "Entity '@"@ + id + "' cannot be moved because its type '"@ + t + "' does not have the 'portable' trait."@
}

pub open spec fn msg_not_container(id: Seq<char>, t: Seq<char>) -> Seq<char> {
    "Entity '@"@ + id + "' is used as a container in move destination but its type '"@ + t
        + "' does not have the 'container' trait."@
}

pub open spec fn msg_not_hidden(prop: Seq<char>, id: Seq<char>) -> Seq<char> {
    "Property '"@ + prop + "' on entity '@"@ + id + "' is not hidden. Reveal has no effect."@
}

/// What an assignment to a resolved property reports: an arithmetic
/// operator on a non-numeric property (URD424) or with a non-numeric
/// value (URD401); otherwise the value checked against the property.
pub open spec fn assign_reports(op: Seq<char>, value_expr: Seq<char>, id: Seq<char>, tname: Seq<char>, p: PropV,
    ents: Seq<(Seq<char>, EntityV)>, span: SpanV) -> Seq<PlainDiag>
{
    if op == "+"@ || op == "-"@ {
        if !(p.1 == PropertyType::Integer || p.1 == PropertyType::Number) {
            seq![(Severity::Error, "URD424"@, msg_arithmetic(op, p.0, p.1), span)]
        } else if parsed_value(value_expr, p.1) is Int || parsed_value(value_expr, p.1) is Num {
            Seq::empty()
        } else {
            seq![(Severity::Error, "URD401"@, msg_type_mismatch(p.0, id, p.1, value_expr), span)]
        }
    } else {
        check_sv(parsed_value(value_expr, p.1), shape_of(p), id, tname, CheckContext::ConditionOrEffect, ents, span).1
    }
}

/// What an effect reports, given its annotation (an effect whose
/// references did not resolve is left alone: LINK reported it).
pub open spec fn effect_reports(e: crate::ast::EffectV, ann: Option<crate::resolve::AnnV>,
    types: Seq<(Seq<char>, crate::link::TypeV)>, ents: Seq<(Seq<char>, EntityV)>, span: SpanV) -> Seq<PlainDiag>
{
    match ann {
        None => Seq::empty(),
        Some(a) => match e {
            crate::ast::EffectV::Assign { target_prop, operator, value_expr } => match (a.entity, a.property, a.typ) {
                (Some(id), Some(pn), Some(tn)) => match prop_lookup(types, tn, pn) {
                    Some(p) => assign_reports(operator, value_expr, id, tn, p, ents, span),
                    None => Seq::empty(),
                },
                _ => Seq::empty(),
            },
            crate::ast::EffectV::Move { entity_ref, destination_ref } => match a.entity {
                Some(id) => (match entity_type_of(ents, id) {
                    Some(t) => if !type_has_trait(types, t, "portable"@) {
                        seq![(Severity::Error, "URD425"@, msg_not_portable(id, t), span)]
                    } else {
                        Seq::empty()
                    },
                    None => Seq::empty(),
                }) + (match a.destination {
                    Some(crate::resolve::PlaceV::Entity(d)) => match entity_type_of(ents, d) {
                        Some(dt) => if !type_has_trait(types, dt, "container"@) {
                            seq![(Severity::Error, "URD422"@, msg_not_container(d, dt), span)]
                        } else {
                            Seq::empty()
                        },
                        None => Seq::empty(),
                    },
                    _ => Seq::empty(),
                }),
                None => Seq::empty(),
            },
            crate::ast::EffectV::Reveal { target_prop } => match (a.entity, a.property, a.typ) {
                (Some(id), Some(pn), Some(tn)) => match prop_lookup(types, tn, pn) {
                    Some(p) => if p.3 != Visibility::Hidden {
                        seq![(Severity::Warning, "URD426"@, msg_not_hidden(p.0, id), span)]
                    } else {
                        Seq::empty()
                    },
                    None => Seq::empty(),
                },
                _ => Seq::empty(),
            },
            crate::ast::EffectV::Destroy { entity_ref } => Seq::empty(),
        },
    }
}

/// The property `pname` of type `tname`.
fn lookup_property<'a>(symbol_table: &'a SymbolTable, tname: &str, pname: &str) -> (r: Option<&'a PropertySymbol>)
    ensures
        match prop_lookup(crate::link::type_entries(symbol_table.types), tname@, pname@) {
            Some(p) => r is Some && prop_view(*r.unwrap()) == p,
            None => r is None,
        },
{
    proof { lemma_key_index(crate::link::type_entries(symbol_table.types), tname@); }
    match crate::link::type_get(&symbol_table.types, tname) {
        Some(ts) => match crate::collect::prop_position(&ts.properties, pname) {
            Some(j) => {
                assert(crate::collect::props_view(ts.properties@)[j as int] == prop_view(ts.properties@[j as int]));
                Some(&ts.properties[j])
            },
            None => None,
        },
        None => None,
    }
}

/// Whether type `tname` is known and has trait `t`.
pub fn has_trait(tname: &str, t: &str, symbol_table: &SymbolTable) -> (b: bool)
    ensures
        b == type_has_trait(crate::link::type_entries(symbol_table.types), tname@, t@),
{
    proof { lemma_key_index(crate::link::type_entries(symbol_table.types), tname@); }
    match crate::link::type_get(&symbol_table.types, tname) {
        Some(ts) => crate::link::in_scope(&ts.traits, t),
        None => false,
    }
}

fn entity_type<'a>(symbol_table: &'a SymbolTable, id: &str) -> (r: Option<&'a String>)
    ensures
        crate::ast::opt_view(match r { Some(s) => Some(*s), None => None }) == entity_type_of(entity_entries(symbol_table.entities), id@),
{
    proof { lemma_key_index(entity_entries(symbol_table.entities), id@); }
    match entity_get(&symbol_table.entities, id) {
        Some(es) => match &es.type_symbol {
            Some(t) => Some(t),
            None => None,
        },
        None => None,
    }
}

fn assign_check(
    operator: &str,
    value_expr: &str,
    id: &str,
    tname: &str,
    prop: &PropertySymbol,
    span: &Span,
    symbol_table: &SymbolTable,
    diagnostics: &mut DiagnosticCollector,
)
    ensures
        appended(final(diagnostics)@, old(diagnostics)@, assign_reports(operator@, value_expr@, id@, tname@, prop_view(*prop),
            entity_entries(symbol_table.entities), span_view(*span))),
{
    proof {
        reveal_strlit("+");
        reveal_strlit("-");
    }
    if crate::text::str_equals(operator, "+") || crate::text::str_equals(operator, "-") {
        if !(prop.property_type == PropertyType::Integer || prop.property_type == PropertyType::Number) {
            let mut v: Vec<char> = Vec::new();
            push_str(&mut v, "Arithmetic operator '");
            push_str(&mut v, operator);
            push_str(&mut v, "' is not valid for property '");
            push_str(&mut v, prop.name.as_str());
            push_str(&mut v, "' of type '");
            push_str(&mut v, format_property_type(&prop.property_type));
            push_str(&mut v, "'. Arithmetic effects require integer or number properties.");
            proof {
                reveal_strlit("Arithmetic operator '");
                reveal_strlit("' is not valid for property '");
                reveal_strlit("' of type '");
                reveal_strlit("'. Arithmetic effects require integer or number properties.");
                reveal_strlit("URD424");
            }
            assert(v@ =~= msg_arithmetic(operator@, prop.name@, prop.property_type));
            report("URD424", false, string_from_chars(v), span, diagnostics, Ghost((Severity::Error, "URD424"@,
                msg_arithmetic(operator@, prop.name@, prop.property_type), span_view(*span))));
            return;
        }
        let value = parse_string_to_value(value_expr, &prop.property_type);
        match &value {
            Value::Integer(_) | Value::Number(_) => { proof { lemma_appended_empty(diagnostics@); } },
            _ => {
                let m = type_mismatch_message(prop.name.as_str(), id, &prop.property_type, value_expr);
                proof { reveal_strlit("URD401"); }
                report("URD401", false, m, span, diagnostics, Ghost((Severity::Error, "URD401"@,
                    msg_type_mismatch(prop.name@, id@, prop.property_type, value_expr@), span_view(*span))));
            },
        }
    } else {
        let value = parse_string_to_value(value_expr, &prop.property_type);
        check_value(&value, prop, id, tname, CheckContext::ConditionOrEffect, symbol_table, span, diagnostics);
    }
}

/// Validate one effect against the symbol table: assignment values and
/// operators, moves of non-portable entities or into non-containers, and
/// reveals of visible properties.
pub fn validate_effect(
    effect_type: &crate::ast::EffectType,
    annotation: &Option<crate::ast::Annotation>,
    span: &Span,
    symbol_table: &SymbolTable,
    diagnostics: &mut DiagnosticCollector,
)
    ensures
        appended(final(diagnostics)@, old(diagnostics)@, effect_reports(crate::ast::effect_type_view(*effect_type),
            crate::resolve::slot_view(*annotation), crate::link::type_entries(symbol_table.types),
            entity_entries(symbol_table.entities), span_view(*span))),
{
    let ghost d0 = diagnostics@;
    proof { lemma_appended_empty(d0); }
    let ann = match annotation {
        Some(a) => a,
        None => { return; },
    };
    match effect_type {
        crate::ast::EffectType::Assign { target_prop: _, operator, value_expr } => {
            match (&ann.resolved_entity, &ann.resolved_property, &ann.resolved_type) {
                (Some(id), Some(pn), Some(tn)) => match lookup_property(symbol_table, tn.as_str(), pn.as_str()) {
                    Some(prop) => {
                        assign_check(operator.as_str(), value_expr.as_str(), id.as_str(), tn.as_str(), prop, span, symbol_table,
                            diagnostics);
                    },
                    None => {},
                },
                _ => {},
            }
        },
        crate::ast::EffectType::Move { entity_ref: _, destination_ref: _ } => {
            let id = match &ann.resolved_entity {
                Some(id) => id,
                None => { return; },
            };
            proof {
                reveal_strlit("portable");
                reveal_strlit("container");
            }
            let ghost ra: Seq<PlainDiag> = match entity_type_of(entity_entries(symbol_table.entities), id@) {
                Some(t) => if !type_has_trait(crate::link::type_entries(symbol_table.types), t, "portable"@) {
                    seq![(Severity::Error, "URD425"@, msg_not_portable(id@, t), span_view(*span))]
                } else {
                    Seq::empty()
                },
                None => Seq::empty(),
            };
            match entity_type(symbol_table, id.as_str()) {
                Some(t) => {
                    if !has_trait(t.as_str(), "portable", symbol_table) {
                        let mut v: Vec<char> = Vec::new();
                        push_str(&mut v, "Entity '@");
                        push_str(&mut v, id.as_str());
                        push_str(&mut v, "' cannot be moved because its type '");
                        push_str(&mut v, t.as_str());
                        push_str(&mut v, "' does not have the 'portable' trait.");
                        proof {
                            reveal_strlit("Entity '@");
                            reveal_strlit("' cannot be moved because its type '");
                            reveal_strlit("' does not have the 'portable' trait.");
                            reveal_strlit("URD425");
                        }
                        assert(v@ =~= msg_not_portable(id@, t@));
                        report("URD425", false, string_from_chars(v), span, diagnostics, Ghost(ra[0]));
                    }
                },
                None => {},
            }
            let ghost d1 = diagnostics@;
            proof { lemma_appended_empty(d1); }
            let ghost rb: Seq<PlainDiag> = match crate::resolve::slot_view(*annotation).unwrap().destination {
                Some(crate::resolve::PlaceV::Entity(d)) => match entity_type_of(entity_entries(symbol_table.entities), d) {
                    Some(dt) => if !type_has_trait(crate::link::type_entries(symbol_table.types), dt, "container"@) {
                        seq![(Severity::Error, "URD422"@, msg_not_container(d, dt), span_view(*span))]
                    } else {
                        Seq::empty()
                    },
                    None => Seq::empty(),
                },
                _ => Seq::empty(),
            };
            match &ann.destination_kind {
                Some(crate::ast::DestinationKind::EntityRef(dest_id)) => {
                    match entity_type(symbol_table, dest_id.as_str()) {
                        Some(dt) => {
                            if !has_trait(dt.as_str(), "container", symbol_table) {
                                let mut v: Vec<char> = Vec::new();
                                push_str(&mut v, "Entity '@");
                                push_str(&mut v, dest_id.as_str());
                                push_str(&mut v, "' is used as a container in move destination but its type '");
                                push_str(&mut v, dt.as_str());
                                push_str(&mut v, "' does not have the 'container' trait.");
                                proof {
                                    reveal_strlit("Entity '@");
                                    reveal_strlit("' is used as a container in move destination but its type '");
                                    reveal_strlit("' does not have the 'container' trait.");
                                    reveal_strlit("URD422");
                                }
                                assert(v@ =~= msg_not_container(dest_id@, dt@));
                                report("URD422", false, string_from_chars(v), span, diagnostics, Ghost(rb[0]));
                            }
                        },
                        None => {},
                    }
                },
                _ => {},
            }
            proof { lemma_appended_trans(d0, d1, diagnostics@, ra, rb); }
        },
        crate::ast::EffectType::Reveal { target_prop: _ } => {
            match (&ann.resolved_entity, &ann.resolved_property, &ann.resolved_type) {
                (Some(id), Some(pn), Some(tn)) => match lookup_property(symbol_table, tn.as_str(), pn.as_str()) {
                    Some(prop) => {
                        if prop.visibility != Visibility::Hidden {
                            let mut v: Vec<char> = Vec::new();
                            push_str(&mut v, "Property '");
                            push_str(&mut v, prop.name.as_str());
                            push_str(&mut v, "' on entity '@");
                            push_str(&mut v, id.as_str());
                            push_str(&mut v, "' is not hidden. Reveal has no effect.");
                            proof {
                                reveal_strlit("Property '");
                                reveal_strlit("' on entity '@");
                                reveal_strlit("' is not hidden. Reveal has no effect.");
                                reveal_strlit("URD426");
                            }
                            assert(v@ =~= msg_not_hidden(prop.name@, id@));
                            report("URD426", true, string_from_chars(v), span, diagnostics, Ghost((Severity::Warning,
                                "URD426"@, msg_not_hidden(prop.name@, id@), span_view(*span))));
                        }
                    },
                    None => {},
                },
                _ => {},
            }
        },
        crate::ast::EffectType::Destroy { entity_ref: _ } => {},
    }
}

// ── Conditions ──

pub open spec fn msg_not_container_check(id: Seq<char>, t: Seq<char>) -> Seq<char> {
    "Entity '@"@ + id + "' is used as a container in containment check but its type '"@ + t
        + "' does not have the 'container' trait."@
}

pub open spec fn msg_foreign_exhaustion(s: Seq<char>) -> Seq<char> {
    "Exhaustion check references section '"@ + s + "' which is not declared in this file."@
}

/// A compared value of the wrong kind for the property (URD401).
pub open spec fn comparison_value_reports(v: ScalarV, p: PropV, id: Seq<char>, span: SpanV) -> Seq<PlainDiag> {
    let wrong = seq![(Severity::Error, "URD401"@, msg_type_mismatch(p.0, id, p.1, fmt_value(v)), span)];
    match p.1 {
        PropertyType::Boolean => if v is Bool { Seq::empty() } else { wrong },
        PropertyType::Integer => if v is Int { Seq::empty() } else { wrong },
        PropertyType::Number => if v is Num || v is Int { Seq::empty() } else { wrong },
        PropertyType::Enum => match v {
            ScalarV::Str(s) => match p.2 {
                Some(vals) => if vals.contains(s) { Seq::empty() } else { wrong },
                None => Seq::empty(),
            },
            _ => Seq::empty(),
        },
        _ => Seq::empty(),
    }
}

/// What a condition reports (one whose references did not resolve is left
/// alone): a comparison's operator and value against the property, a
/// containment in an entity that is not a container (URD422), an
/// exhaustion check of a section not declared in this file (URD423).
pub open spec fn cond_reports(c: crate::ast::ConditionExpr, local: Seq<Seq<char>>, types: Seq<(Seq<char>, crate::link::TypeV)>,
    ents: Seq<(Seq<char>, EntityV)>) -> Seq<PlainDiag>
{
    match c {
        crate::ast::ConditionExpr::PropertyComparison(pc) => match crate::resolve::slot_view(pc.annotation) {
            Some(a) => match (a.entity, a.property, a.typ) {
                (Some(id), Some(pn), Some(tn)) => match prop_lookup(types, tn, pn) {
                    Some(p) => crate::validate::operator_report(pc.operator@, p.0, p.1, pc.span)
                        + comparison_value_reports(parsed_value(pc.value@, p.1), p, id, span_view(pc.span)),
                    None => Seq::empty(),
                },
                _ => Seq::empty(),
            },
            None => Seq::empty(),
        },
        crate::ast::ConditionExpr::ContainmentCheck(cc) => match crate::resolve::slot_view(cc.annotation) {
            Some(a) => if a.entity is Some {
                match a.container {
                    Some(crate::resolve::PlaceV::Entity(cid)) => match entity_type_of(ents, cid) {
                        Some(t) => if !type_has_trait(types, t, "container"@) {
                            seq![(Severity::Error, "URD422"@, msg_not_container_check(cid, t), span_view(cc.span))]
                        } else {
                            Seq::empty()
                        },
                        None => Seq::empty(),
                    },
                    _ => Seq::empty(),
                }
            } else {
                Seq::empty()
            },
            None => Seq::empty(),
        },
        crate::ast::ConditionExpr::ExhaustionCheck(ec) => match crate::resolve::slot_view(ec.annotation) {
            Some(a) => if a.section is Some && !local.contains(ec.section_name@) {
                seq![(Severity::Error, "URD423"@, msg_foreign_exhaustion(ec.section_name@), span_view(ec.span))]
            } else {
                Seq::empty()
            },
            None => Seq::empty(),
        },
    }
}

pub open spec fn conds_reports(v: Seq<crate::ast::ConditionExpr>, local: Seq<Seq<char>>,
    types: Seq<(Seq<char>, crate::link::TypeV)>, ents: Seq<(Seq<char>, EntityV)>) -> Seq<PlainDiag>
    decreases v.len(),
{
    if v.len() == 0 {
        Seq::empty()
    } else {
        conds_reports(v.drop_last(), local, types, ents) + cond_reports(v.last(), local, types, ents)
    }
}

fn comparison_value_check(value: &Value, prop: &PropertySymbol, id: &str, span: &Span, diagnostics: &mut DiagnosticCollector)
    ensures
        appended(final(diagnostics)@, old(diagnostics)@, comparison_value_reports(value_sv(*value), prop_view(*prop), id@,
            span_view(*span))),
{
    let wrong = match &prop.property_type {
        PropertyType::Boolean => !matches!(value, Value::Boolean(_)),
        PropertyType::Integer => !matches!(value, Value::Integer(_)),
        PropertyType::Number => !matches!(value, Value::Number(_)) && !matches!(value, Value::Integer(_)),
        PropertyType::Enum => match value {
            Value::String(s) => match &prop.values {
                Some(values) => !crate::link::in_scope(values, s.as_str()),
                None => false,
            },
            _ => false,
        },
        _ => false,
    };
    if wrong {
        let shown = format_value(value);
        let m = type_mismatch_message(prop.name.as_str(), id, &prop.property_type, shown.as_str());
        proof { reveal_strlit("URD401"); }
        report("URD401", false, m, span, diagnostics, Ghost((Severity::Error, "URD401"@,
            msg_type_mismatch(prop.name@, id@, prop.property_type, shown@), span_view(*span))));
    } else {
        proof { lemma_appended_empty(diagnostics@); }
    }
}

/// Validate one condition against the symbol table; `local_section_ids`
/// are the local names of the sections of the file it stands in.
pub fn validate_condition_expr(
    expr: &crate::ast::ConditionExpr,
    local_section_ids: &Vec<String>,
    symbol_table: &SymbolTable,
    diagnostics: &mut DiagnosticCollector,
)
    ensures
        appended(final(diagnostics)@, old(diagnostics)@, cond_reports(*expr, strings_view(local_section_ids@),
            crate::link::type_entries(symbol_table.types), entity_entries(symbol_table.entities))),
{
    proof { lemma_appended_empty(diagnostics@); }
    match expr {
        crate::ast::ConditionExpr::PropertyComparison(pc) => {
            let ann = match &pc.annotation {
                Some(a) => a,
                None => { return; },
            };
            match (&ann.resolved_entity, &ann.resolved_property, &ann.resolved_type) {
                (Some(id), Some(pn), Some(tn)) => match lookup_property(symbol_table, tn.as_str(), pn.as_str()) {
                    Some(prop) => {
                        let ghost d0 = diagnostics@;
                        crate::validate::validate_operator(pc.operator.as_str(), prop.name.as_str(), prop.property_type,
                            &pc.span, diagnostics);
                        let ghost d1 = diagnostics@;
                        let value = parse_string_to_value(pc.value.as_str(), &prop.property_type);
                        comparison_value_check(&value, prop, id.as_str(), &pc.span, diagnostics);
                        proof {
                            lemma_appended_trans(d0, d1, diagnostics@,
                                crate::validate::operator_report(pc.operator@, prop.name@, prop.property_type, pc.span),
                                comparison_value_reports(value_sv(value), prop_view(*prop), id@, span_view(pc.span)));
                        }
                    },
                    None => {},
                },
                _ => {},
            }
        },
        crate::ast::ConditionExpr::ContainmentCheck(cc) => {
            let ann = match &cc.annotation {
                Some(a) => a,
                None => { return; },
            };
            if ann.resolved_entity.is_none() {
                return;
            }
            match &ann.container_kind {
                Some(crate::ast::ContainerKind::EntityRef(cid)) => {
                    match entity_type(symbol_table, cid.as_str()) {
                        Some(t) => {
                            proof { reveal_strlit("container"); }
                            if !has_trait(t.as_str(), "container", symbol_table) {
                                let mut v: Vec<char> = Vec::new();
                                push_str(&mut v, "Entity '@");
                                push_str(&mut v, cid.as_str());
                                push_str(&mut v, "' is used as a container in containment check but its type '");
                                push_str(&mut v, t.as_str());
                                push_str(&mut v, "' does not have the 'container' trait.");
                                proof {
                                    reveal_strlit("Entity '@");
                                    reveal_strlit("' is used as a container in containment check but its type '");
                                    reveal_strlit("' does not have the 'container' trait.");
                                    reveal_strlit("URD422");
                                }
                                assert(v@ =~= msg_not_container_check(cid@, t@));
                                report("URD422", false, string_from_chars(v), &cc.span, diagnostics, Ghost((Severity::Error,
                                    "URD422"@, msg_not_container_check(cid@, t@), span_view(cc.span))));
                            }
                        },
                        None => {},
                    }
                },
                _ => {},
            }
        },
        crate::ast::ConditionExpr::ExhaustionCheck(ec) => {
            let ann = match &ec.annotation {
                Some(a) => a,
                None => { return; },
            };
            if ann.resolved_section.is_none() {
                return;
            }
            if !crate::link::in_scope(local_section_ids, ec.section_name.as_str()) {
                let mut v: Vec<char> = Vec::new();
                push_str(&mut v, "Exhaustion check references section '");
                push_str(&mut v, ec.section_name.as_str());
                push_str(&mut v, "' which is not declared in this file.");
                proof {
                    reveal_strlit("Exhaustion check references section '");
                    reveal_strlit("' which is not declared in this file.");
                    reveal_strlit("URD423");
                }
                assert(v@ =~= msg_foreign_exhaustion(ec.section_name@));
                report("URD423", false, string_from_chars(v), &ec.span, diagnostics, Ghost((Severity::Error, "URD423"@,
                    msg_foreign_exhaustion(ec.section_name@), span_view(ec.span))));
            }
        },
    }
}

fn validate_conditions_in(
    v: &Vec<crate::ast::ConditionExpr>,
    local_section_ids: &Vec<String>,
    symbol_table: &SymbolTable,
    diagnostics: &mut DiagnosticCollector,
)
    ensures
        appended(final(diagnostics)@, old(diagnostics)@, conds_reports(v@, strings_view(local_section_ids@),
            crate::link::type_entries(symbol_table.types), entity_entries(symbol_table.entities))),
{
    let ghost local = strings_view(local_section_ids@);
    let ghost types = crate::link::type_entries(symbol_table.types);
    let ghost ents = entity_entries(symbol_table.entities);
    let ghost d0 = diagnostics@;
    proof {
        lemma_appended_empty(d0);
        assert(v@.take(0) =~= Seq::<crate::ast::ConditionExpr>::empty());
    }
    let mut i: usize = 0;
    while i < v.len()
        invariant
            i <= v.len(),
            local == strings_view(local_section_ids@),
            types == crate::link::type_entries(symbol_table.types),
            ents == entity_entries(symbol_table.entities),
            appended(diagnostics@, d0, conds_reports(v@.take(i as int), local, types, ents)),
        decreases v.len() - i,
    {
        proof {
            assert(v@.take(i + 1).drop_last() =~= v@.take(i as int));
            assert(v@.take(i + 1).last() == v@[i as int]);
        }
        let ghost d1 = diagnostics@;
        validate_condition_expr(&v[i], local_section_ids, symbol_table, diagnostics);
        proof {
            lemma_appended_trans(d0, d1, diagnostics@, conds_reports(v@.take(i as int), local, types, ents),
                cond_reports(v@[i as int], local, types, ents));
        }
        i += 1;
    }
    assert(v@.take(v.len() as int) =~= v@);
}

/// What the conditions in a content node report, nested content included.
pub open spec fn node_cond_reports(n: ContentNode, local: Seq<Seq<char>>, types: Seq<(Seq<char>, crate::link::TypeV)>,
    ents: Seq<(Seq<char>, EntityV)>) -> Seq<PlainDiag>
    decreases n, 1int,
{
    match n {
        ContentNode::Condition(c) => cond_reports(c.expr, local, types, ents),
        ContentNode::OrConditionBlock(b) => conds_reports(b.conditions@, local, types, ents),
        ContentNode::Choice(c) => nodes_cond_reports(c.content@, local, types, ents),
        ContentNode::ExitDeclaration(x) => nodes_cond_reports(x.children@, local, types, ents),
        ContentNode::RuleBlock(r) => conds_reports(r.where_clauses@, local, types, ents) + select_reports(r.select, local, types, ents),
        _ => Seq::empty(),
    }
}

pub open spec fn select_reports(o: Option<crate::ast::SelectClause>, local: Seq<Seq<char>>,
    types: Seq<(Seq<char>, crate::link::TypeV)>, ents: Seq<(Seq<char>, EntityV)>) -> Seq<PlainDiag>
{
    match o {
        Some(sel) => conds_reports(sel.where_clauses@, local, types, ents),
        None => Seq::empty(),
    }
}

pub open spec fn nodes_cond_reports(v: Seq<ContentNode>, local: Seq<Seq<char>>, types: Seq<(Seq<char>, crate::link::TypeV)>,
    ents: Seq<(Seq<char>, EntityV)>) -> Seq<PlainDiag>
    decreases v, 0int,
{
    if v.len() == 0 {
        Seq::empty()
    } else {
        nodes_cond_reports(v.subrange(0, v.len() - 1), local, types, ents) + node_cond_reports(v[v.len() - 1], local, types, ents)
    }
}

fn validate_content_conditions_all(
    v: &Vec<ContentNode>,
    local_section_ids: &Vec<String>,
    symbol_table: &SymbolTable,
    diagnostics: &mut DiagnosticCollector,
)
    ensures
        appended(final(diagnostics)@, old(diagnostics)@, nodes_cond_reports(v@, strings_view(local_section_ids@),
            crate::link::type_entries(symbol_table.types), entity_entries(symbol_table.entities))),
    decreases v@, 0int,
{
    let ghost local = strings_view(local_section_ids@);
    let ghost types = crate::link::type_entries(symbol_table.types);
    let ghost ents = entity_entries(symbol_table.entities);
    let ghost d0 = diagnostics@;
    proof {
        lemma_appended_empty(d0);
        assert(v@.take(0) =~= Seq::<ContentNode>::empty());
    }
    let mut i: usize = 0;
    while i < v.len()
        invariant
            i <= v.len(),
            local == strings_view(local_section_ids@),
            types == crate::link::type_entries(symbol_table.types),
            ents == entity_entries(symbol_table.entities),
            appended(diagnostics@, d0, nodes_cond_reports(v@.take(i as int), local, types, ents)),
        decreases v.len() - i,
    {
        proof {
            assert(v@.take(i + 1).subrange(0, i as int) =~= v@.take(i as int));
            assert(v@.take(i + 1)[i as int] == v@[i as int]);
            assert(decreases_to!(v@ => v@[i as int]));
        }
        let ghost d1 = diagnostics@;
        validate_content_conditions(&v[i], local_section_ids, symbol_table, diagnostics);
        proof {
            lemma_appended_trans(d0, d1, diagnostics@, nodes_cond_reports(v@.take(i as int), local, types, ents),
                node_cond_reports(v@[i as int], local, types, ents));
        }
        i += 1;
    }
    assert(v@.take(v.len() as int) =~= v@);
}

/// Validate the conditions in a content node, nested content included.
pub fn validate_content_conditions(
    node: &ContentNode,
    local_section_ids: &Vec<String>,
    symbol_table: &SymbolTable,
    diagnostics: &mut DiagnosticCollector,
)
    ensures
        appended(final(diagnostics)@, old(diagnostics)@, node_cond_reports(*node, strings_view(local_section_ids@),
            crate::link::type_entries(symbol_table.types), entity_entries(symbol_table.entities))),
    decreases *node, 1int,
{
    match node {
        ContentNode::Condition(c) => {
            validate_condition_expr(&c.expr, local_section_ids, symbol_table, diagnostics);
        },
        ContentNode::OrConditionBlock(b) => {
            validate_conditions_in(&b.conditions, local_section_ids, symbol_table, diagnostics);
        },
        ContentNode::Choice(c) => {
            proof { assert(decreases_to!(*node => c.content@)); }
            validate_content_conditions_all(&c.content, local_section_ids, symbol_table, diagnostics);
        },
        ContentNode::ExitDeclaration(x) => {
            proof { assert(decreases_to!(*node => x.children@)); }
            validate_content_conditions_all(&x.children, local_section_ids, symbol_table, diagnostics);
        },
        ContentNode::RuleBlock(r) => {
            let ghost d0 = diagnostics@;
            validate_conditions_in(&r.where_clauses, local_section_ids, symbol_table, diagnostics);
            let ghost d1 = diagnostics@;
            match &r.select {
                Some(sel) => { validate_conditions_in(&sel.where_clauses, local_section_ids, symbol_table, diagnostics); },
                None => { proof { lemma_appended_empty(d1); } },
            }
            proof {
                lemma_appended_trans(d0, d1, diagnostics@, conds_reports(r.where_clauses@, strings_view(local_section_ids@),
                    crate::link::type_entries(symbol_table.types), entity_entries(symbol_table.entities)),
                    select_reports(r.select, strings_view(local_section_ids@),
                        crate::link::type_entries(symbol_table.types), entity_entries(symbol_table.entities)));
            }
        },
        _ => { proof { lemma_appended_empty(diagnostics@); } },
    }
}

/// The local names of the sections declared in the file with stem
/// `stem`, in the order of the section namespace.
pub open spec fn local_names(secs: Seq<(Seq<char>, crate::link::SectionV)>, stem: Seq<char>) -> Seq<Seq<char>>
    decreases secs.len(),
{
    if secs.len() == 0 {
        Seq::empty()
    } else {
        let rest = local_names(secs.drop_last(), stem);
        if secs.last().1.2 == stem { rest.push(secs.last().1.0) } else { rest }
    }
}

fn local_section_ids(symbol_table: &SymbolTable, stem: &str) -> (ids: Vec<String>)
    ensures
        strings_view(ids@) == local_names(crate::link::section_symbol_entries(symbol_table.sections), stem@),
{
    let ghost secs = crate::link::section_symbol_entries(symbol_table.sections);
    let keys = crate::link::section_symbol_keys(&symbol_table.sections);
    let mut ids: Vec<String> = Vec::new();
    proof { assert(secs.take(0) =~= Seq::<(Seq<char>, crate::link::SectionV)>::empty()); }
    let mut i: usize = 0;
    while i < keys.len()
        invariant
            i <= keys.len(),
            secs == crate::link::section_symbol_entries(symbol_table.sections),
            strings_view(keys@) == crate::link::keys_of(secs),
            strings_view(keys@).no_duplicates(),
            strings_view(ids@) == local_names(secs.take(i as int), stem@),
        decreases keys.len() - i,
    {
        proof {
            assert(strings_view(keys@).len() == secs.len());
            assert(crate::link::keys_of(secs)[i as int] == secs[i as int].0);
            crate::link::lemma_key_index_unique(secs, i as int);
            assert(secs.take(i + 1).drop_last() =~= secs.take(i as int));
            assert(secs.take(i + 1).last() == secs[i as int]);
        }
        let sec = crate::link::section_symbol_get(&symbol_table.sections, keys[i].as_str()).unwrap();
        if crate::text::str_equals(sec.file_stem.as_str(), stem) {
            let ghost before = ids@;
            ids.push(sec.local_name.clone());
            assert(strings_view(ids@) =~= strings_view(before).push(sec.local_name@));
        }
        i += 1;
    }
    proof {
        assert(strings_view(keys@).len() == secs.len());
        assert(secs.take(secs.len() as int) =~= secs);
    }
    ids
}

/// What the conditions of `files` report, file by file.
pub open spec fn files_cond_reports(files: Seq<crate::graph::FileNode>, secs: Seq<(Seq<char>, crate::link::SectionV)>,
    types: Seq<(Seq<char>, crate::link::TypeV)>, ents: Seq<(Seq<char>, EntityV)>) -> Seq<PlainDiag>
    decreases files.len(),
{
    if files.len() == 0 {
        Seq::empty()
    } else {
        let f = files.last();
        files_cond_reports(files.drop_last(), secs, types, ents)
            + nodes_cond_reports(f.ast.content@, local_names(secs, crate::graph::file_stem_of(f.path@)), types, ents)
    }
}

/// Validate all conditions of the files, in order.
pub fn validate_conditions(files: &Vec<crate::graph::FileNode>, symbol_table: &SymbolTable, diagnostics: &mut DiagnosticCollector)
    ensures
        appended(final(diagnostics)@, old(diagnostics)@, files_cond_reports(files@,
            crate::link::section_symbol_entries(symbol_table.sections), crate::link::type_entries(symbol_table.types),
            entity_entries(symbol_table.entities))),
{
    let ghost secs = crate::link::section_symbol_entries(symbol_table.sections);
    let ghost types = crate::link::type_entries(symbol_table.types);
    let ghost ents = entity_entries(symbol_table.entities);
    let ghost d0 = diagnostics@;
    proof {
        lemma_appended_empty(d0);
        assert(files@.take(0) =~= Seq::<crate::graph::FileNode>::empty());
    }
    let mut i: usize = 0;
    while i < files.len()
        invariant
            i <= files.len(),
            secs == crate::link::section_symbol_entries(symbol_table.sections),
            types == crate::link::type_entries(symbol_table.types),
            ents == entity_entries(symbol_table.entities),
            appended(diagnostics@, d0, files_cond_reports(files@.take(i as int), secs, types, ents)),
        decreases files.len() - i,
    {
        proof {
            assert(files@.take(i + 1).drop_last() =~= files@.take(i as int));
            assert(files@.take(i + 1).last() == files@[i as int]);
        }
        let stem = crate::graph::file_stem(files[i].path.as_str());
        let ids = local_section_ids(symbol_table, stem.as_str());
        let ghost d1 = diagnostics@;
        validate_content_conditions_all(&files[i].ast.content, &ids, symbol_table, diagnostics);
        proof {
            lemma_appended_trans(d0, d1, diagnostics@, files_cond_reports(files@.take(i as int), secs, types, ents),
                nodes_cond_reports(files@[i as int].ast.content@, local_names(secs, crate::graph::file_stem_of(files@[i as int].path@)),
                    types, ents));
        }
        i += 1;
    }
    assert(files@.take(files.len() as int) =~= files@);
}

// ── Effect walks ──

pub open spec fn effect_line_reports(e: crate::ast::Effect, types: Seq<(Seq<char>, crate::link::TypeV)>,
    ents: Seq<(Seq<char>, EntityV)>) -> Seq<PlainDiag>
{
    effect_reports(crate::ast::effect_type_view(e.effect_type), crate::resolve::slot_view(e.annotation), types, ents,
        span_view(e.span))
}

pub open spec fn effects_reports(v: Seq<crate::ast::Effect>, types: Seq<(Seq<char>, crate::link::TypeV)>,
    ents: Seq<(Seq<char>, EntityV)>) -> Seq<PlainDiag>
    decreases v.len(),
{
    if v.len() == 0 {
        Seq::empty()
    } else {
        effects_reports(v.drop_last(), types, ents) + effect_line_reports(v.last(), types, ents)
    }
}

/// What the effects in a content node report, nested content included.
pub open spec fn node_effect_reports(n: ContentNode, types: Seq<(Seq<char>, crate::link::TypeV)>,
    ents: Seq<(Seq<char>, EntityV)>) -> Seq<PlainDiag>
    decreases n, 1int,
{
    match n {
        ContentNode::Effect(e) => effect_line_reports(e, types, ents),
        ContentNode::Choice(c) => nodes_effect_reports(c.content@, types, ents),
        ContentNode::ExitDeclaration(x) => nodes_effect_reports(x.children@, types, ents),
        ContentNode::RuleBlock(r) => effects_reports(r.effects@, types, ents),
        _ => Seq::empty(),
    }
}

pub open spec fn nodes_effect_reports(v: Seq<ContentNode>, types: Seq<(Seq<char>, crate::link::TypeV)>,
    ents: Seq<(Seq<char>, EntityV)>) -> Seq<PlainDiag>
    decreases v, 0int,
{
    if v.len() == 0 {
        Seq::empty()
    } else {
        nodes_effect_reports(v.subrange(0, v.len() - 1), types, ents) + node_effect_reports(v[v.len() - 1], types, ents)
    }
}

fn validate_effect_lines(v: &Vec<crate::ast::Effect>, symbol_table: &SymbolTable, diagnostics: &mut DiagnosticCollector)
    ensures
        appended(final(diagnostics)@, old(diagnostics)@, effects_reports(v@, crate::link::type_entries(symbol_table.types),
            entity_entries(symbol_table.entities))),
{
    let ghost types = crate::link::type_entries(symbol_table.types);
    let ghost ents = entity_entries(symbol_table.entities);
    let ghost d0 = diagnostics@;
    proof {
        lemma_appended_empty(d0);
        assert(v@.take(0) =~= Seq::<crate::ast::Effect>::empty());
    }
    let mut i: usize = 0;
    while i < v.len()
        invariant
            i <= v.len(),
            types == crate::link::type_entries(symbol_table.types),
            ents == entity_entries(symbol_table.entities),
            appended(diagnostics@, d0, effects_reports(v@.take(i as int), types, ents)),
        decreases v.len() - i,
    {
        proof {
            assert(v@.take(i + 1).drop_last() =~= v@.take(i as int));
            assert(v@.take(i + 1).last() == v@[i as int]);
        }
        let ghost d1 = diagnostics@;
        validate_effect(&v[i].effect_type, &v[i].annotation, &v[i].span, symbol_table, diagnostics);
        proof {
            lemma_appended_trans(d0, d1, diagnostics@, effects_reports(v@.take(i as int), types, ents),
                effect_line_reports(v@[i as int], types, ents));
        }
        i += 1;
    }
    assert(v@.take(v.len() as int) =~= v@);
}

fn validate_content_effects_all(v: &Vec<ContentNode>, symbol_table: &SymbolTable, diagnostics: &mut DiagnosticCollector)
    ensures
        appended(final(diagnostics)@, old(diagnostics)@, nodes_effect_reports(v@, crate::link::type_entries(symbol_table.types),
            entity_entries(symbol_table.entities))),
    decreases v@, 0int,
{
    let ghost types = crate::link::type_entries(symbol_table.types);
    let ghost ents = entity_entries(symbol_table.entities);
    let ghost d0 = diagnostics@;
    proof {
        lemma_appended_empty(d0);
        assert(v@.take(0) =~= Seq::<ContentNode>::empty());
    }
    let mut i: usize = 0;
    while i < v.len()
        invariant
            i <= v.len(),
            types == crate::link::type_entries(symbol_table.types),
            ents == entity_entries(symbol_table.entities),
            appended(diagnostics@, d0, nodes_effect_reports(v@.take(i as int), types, ents)),
        decreases v.len() - i,
    {
        proof {
            assert(v@.take(i + 1).subrange(0, i as int) =~= v@.take(i as int));
            assert(v@.take(i + 1)[i as int] == v@[i as int]);
            assert(decreases_to!(v@ => v@[i as int]));
        }
        let ghost d1 = diagnostics@;
        validate_content_effects(&v[i], symbol_table, diagnostics);
        proof {
            lemma_appended_trans(d0, d1, diagnostics@, nodes_effect_reports(v@.take(i as int), types, ents),
                node_effect_reports(v@[i as int], types, ents));
        }
        i += 1;
    }
    assert(v@.take(v.len() as int) =~= v@);
}

/// Validate the effects in a content node, nested content included.
pub fn validate_content_effects(node: &ContentNode, symbol_table: &SymbolTable, diagnostics: &mut DiagnosticCollector)
    ensures
        appended(final(diagnostics)@, old(diagnostics)@, node_effect_reports(*node, crate::link::type_entries(symbol_table.types),
            entity_entries(symbol_table.entities))),
    decreases *node, 1int,
{
    match node {
        ContentNode::Effect(e) => {
            validate_effect(&e.effect_type, &e.annotation, &e.span, symbol_table, diagnostics);
        },
        ContentNode::Choice(c) => {
            proof { assert(decreases_to!(*node => c.content@)); }
            validate_content_effects_all(&c.content, symbol_table, diagnostics);
        },
        ContentNode::ExitDeclaration(x) => {
            proof { assert(decreases_to!(*node => x.children@)); }
            validate_content_effects_all(&x.children, symbol_table, diagnostics);
        },
        ContentNode::RuleBlock(r) => {
            validate_effect_lines(&r.effects, symbol_table, diagnostics);
        },
        _ => { proof { lemma_appended_empty(diagnostics@); } },
    }
}

/// What the effects of `files` report, file by file.
pub open spec fn files_effect_reports(files: Seq<crate::graph::FileNode>, types: Seq<(Seq<char>, crate::link::TypeV)>,
    ents: Seq<(Seq<char>, EntityV)>) -> Seq<PlainDiag>
    decreases files.len(),
{
    if files.len() == 0 {
        Seq::empty()
    } else {
        files_effect_reports(files.drop_last(), types, ents) + nodes_effect_reports(files.last().ast.content@, types, ents)
    }
}

/// Validate all effects of the files, in order.
pub fn validate_effects(files: &Vec<crate::graph::FileNode>, symbol_table: &SymbolTable, diagnostics: &mut DiagnosticCollector)
    ensures
        appended(final(diagnostics)@, old(diagnostics)@, files_effect_reports(files@, crate::link::type_entries(symbol_table.types),
            entity_entries(symbol_table.entities))),
{
    let ghost types = crate::link::type_entries(symbol_table.types);
    let ghost ents = entity_entries(symbol_table.entities);
    let ghost d0 = diagnostics@;
    proof {
        lemma_appended_empty(d0);
        assert(files@.take(0) =~= Seq::<crate::graph::FileNode>::empty());
    }
    let mut i: usize = 0;
    while i < files.len()
        invariant
            i <= files.len(),
            types == crate::link::type_entries(symbol_table.types),
            ents == entity_entries(symbol_table.entities),
            appended(diagnostics@, d0, files_effect_reports(files@.take(i as int), types, ents)),
        decreases files.len() - i,
    {
        proof {
            assert(files@.take(i + 1).drop_last() =~= files@.take(i as int));
            assert(files@.take(i + 1).last() == files@[i as int]);
        }
        let ghost d1 = diagnostics@;
        validate_content_effects_all(&files[i].ast.content, symbol_table, diagnostics);
        proof {
            lemma_appended_trans(d0, d1, diagnostics@, files_effect_reports(files@.take(i as int), types, ents),
                nodes_effect_reports(files@[i as int].ast.content@, types, ents));
        }
        i += 1;
    }
    assert(files@.take(files.len() as int) =~= files@);
}

// ── Orphaned choices ──

pub open spec fn msg_orphaned(section: Seq<char>, file: Seq<char>, prop: Seq<char>, value: Seq<char>, tname: Seq<char>,
    values: Seq<Seq<char>>) -> Seq<char>
{
    "Choice in section '"@ + section + "' (file '"@ + file + "') may never be available. Condition requires '"@ + prop
        + "' == '"@ + value + "' but type '"@ + tname + "' only allows: ["@ + join_names(values) + "]."@
}

/// An `==` comparison of an enum property with a value the enum does not
/// allow, guarding a choice (URD432 warning at the choice).
pub open spec fn enum_cond_reports(pc: crate::ast::PropertyComparison, choice_span: SpanV, section: Seq<char>, file: Seq<char>,
    types: Seq<(Seq<char>, crate::link::TypeV)>) -> Seq<PlainDiag>
{
    match crate::resolve::slot_view(pc.annotation) {
        Some(a) => match (a.entity, a.typ, a.property) {
            (Some(_), Some(tn), Some(pn)) => if pc.operator@ != "=="@ {
                Seq::empty()
            } else {
                match prop_lookup(types, tn, pn) {
                    Some(p) => if p.1 == PropertyType::Enum {
                        match p.2 {
                            Some(vals) => if !vals.contains(pc.value@) {
                                seq![(Severity::Warning, "URD432"@, msg_orphaned(section, file, pn, pc.value@, tn, vals), choice_span)]
                            } else {
                                Seq::empty()
                            },
                            None => Seq::empty(),
                        }
                    } else {
                        Seq::empty()
                    },
                    None => Seq::empty(),
                }
            },
            _ => Seq::empty(),
        },
        None => Seq::empty(),
    }
}

pub open spec fn or_enum_reports(v: Seq<crate::ast::ConditionExpr>, choice_span: SpanV, section: Seq<char>, file: Seq<char>,
    types: Seq<(Seq<char>, crate::link::TypeV)>) -> Seq<PlainDiag>
    decreases v.len(),
{
    if v.len() == 0 {
        Seq::empty()
    } else {
        or_enum_reports(v.drop_last(), choice_span, section, file, types) + match v.last() {
            crate::ast::ConditionExpr::PropertyComparison(pc) => enum_cond_reports(pc, choice_span, section, file, types),
            _ => Seq::empty(),
        }
    }
}

/// What a choice's own conditions (and those of the choices nested in it)
/// report.
pub open spec fn choice_orphan_reports(c: crate::ast::Choice, section: Seq<char>, file: Seq<char>,
    types: Seq<(Seq<char>, crate::link::TypeV)>) -> Seq<PlainDiag>
    decreases c, 1int,
{
    kids_orphan_reports(span_view(c.span), c.content@, section, file, types)
}

pub open spec fn kids_orphan_reports(cspan: SpanV, v: Seq<ContentNode>, section: Seq<char>, file: Seq<char>,
    types: Seq<(Seq<char>, crate::link::TypeV)>) -> Seq<PlainDiag>
    decreases v, 0int,
{
    if v.len() == 0 {
        Seq::empty()
    } else {
        kids_orphan_reports(cspan, v.subrange(0, v.len() - 1), section, file, types) + match v[v.len() - 1] {
            ContentNode::Condition(cond) => match cond.expr {
                crate::ast::ConditionExpr::PropertyComparison(pc) => enum_cond_reports(pc, cspan, section, file, types),
                _ => Seq::empty(),
            },
            ContentNode::OrConditionBlock(b) => or_enum_reports(b.conditions@, cspan, section, file, types),
            ContentNode::Choice(n) => choice_orphan_reports(n, section, file, types),
            _ => Seq::empty(),
        }
    }
}

/// The last section label among `v`, if any.
pub open spec fn last_section(v: Seq<ContentNode>) -> Option<Seq<char>>
    decreases v.len(),
{
    if v.len() == 0 {
        None
    } else {
        match v.last() {
            ContentNode::SectionLabel(l) => Some(l.name@),
            _ => last_section(v.drop_last()),
        }
    }
}

/// What the top-level choices of a file report, each under the section it
/// follows (`unnamed` before any).
pub open spec fn file_orphan_reports(v: Seq<ContentNode>, file: Seq<char>, types: Seq<(Seq<char>, crate::link::TypeV)>)
    -> Seq<PlainDiag>
    decreases v.len(),
{
    if v.len() == 0 {
        Seq::empty()
    } else {
        file_orphan_reports(v.drop_last(), file, types) + match v.last() {
            ContentNode::Choice(c) => choice_orphan_reports(c,
                match last_section(v.drop_last()) { Some(s) => s, None => "unnamed"@ }, file, types),
            _ => Seq::empty(),
        }
    }
}

fn check_enum_condition(
    pc: &crate::ast::PropertyComparison,
    choice: &crate::ast::Choice,
    section_name: &str,
    file_path: &str,
    symbol_table: &SymbolTable,
    diagnostics: &mut DiagnosticCollector,
)
    ensures
        appended(final(diagnostics)@, old(diagnostics)@, enum_cond_reports(*pc, span_view(choice.span), section_name@,
            file_path@, crate::link::type_entries(symbol_table.types))),
{
    proof {
        lemma_appended_empty(diagnostics@);
        reveal_strlit("==");
    }
    let ann = match &pc.annotation {
        Some(a) => a,
        None => { return; },
    };
    let (tn, pn) = match (&ann.resolved_entity, &ann.resolved_type, &ann.resolved_property) {
        (Some(_), Some(tn), Some(pn)) => (tn, pn),
        _ => { return; },
    };
    if !crate::text::str_equals(pc.operator.as_str(), "==") {
        return;
    }
    let prop = match lookup_property(symbol_table, tn.as_str(), pn.as_str()) {
        Some(p) => p,
        None => { return; },
    };
    if prop.property_type != PropertyType::Enum {
        return;
    }
    match &prop.values {
        Some(values) => {
            if !crate::link::in_scope(values, pc.value.as_str()) {
                let mut v: Vec<char> = Vec::new();
                push_str(&mut v, "Choice in section '");
                push_str(&mut v, section_name);
                push_str(&mut v, "' (file '");
                push_str(&mut v, file_path);
                push_str(&mut v, "') may never be available. Condition requires '");
                push_str(&mut v, pn.as_str());
                push_str(&mut v, "' == '");
                push_str(&mut v, pc.value.as_str());
                push_str(&mut v, "' but type '");
                push_str(&mut v, tn.as_str());
                push_str(&mut v, "' only allows: [");
                let j = join_strings(values);
                push_chars(&mut v, &j);
                push_str(&mut v, "].");
                proof {
                    reveal_strlit("Choice in section '");
                    reveal_strlit("' (file '");
                    reveal_strlit("') may never be available. Condition requires '");
                    reveal_strlit("' == '");
                    reveal_strlit("' but type '");
                    reveal_strlit("' only allows: [");
                    reveal_strlit("].");
                    reveal_strlit("URD432");
                }
                assert(v@ =~= msg_orphaned(section_name@, file_path@, pn@, pc.value@, tn@, strings_view(values@)));
                report("URD432", true, string_from_chars(v), &choice.span, diagnostics, Ghost((Severity::Warning, "URD432"@,
                    msg_orphaned(section_name@, file_path@, pn@, pc.value@, tn@, strings_view(values@)), span_view(choice.span))));
            }
        },
        None => {},
    }
}

fn check_or_block(
    v: &Vec<crate::ast::ConditionExpr>,
    choice: &crate::ast::Choice,
    section_name: &str,
    file_path: &str,
    symbol_table: &SymbolTable,
    diagnostics: &mut DiagnosticCollector,
)
    ensures
        appended(final(diagnostics)@, old(diagnostics)@, or_enum_reports(v@, span_view(choice.span), section_name@, file_path@,
            crate::link::type_entries(symbol_table.types))),
{
    let ghost types = crate::link::type_entries(symbol_table.types);
    let ghost d0 = diagnostics@;
    proof {
        lemma_appended_empty(d0);
        assert(v@.take(0) =~= Seq::<crate::ast::ConditionExpr>::empty());
    }
    let mut i: usize = 0;
    while i < v.len()
        invariant
            i <= v.len(),
            types == crate::link::type_entries(symbol_table.types),
            appended(diagnostics@, d0, or_enum_reports(v@.take(i as int), span_view(choice.span), section_name@, file_path@, types)),
        decreases v.len() - i,
    {
        proof {
            assert(v@.take(i + 1).drop_last() =~= v@.take(i as int));
            assert(v@.take(i + 1).last() == v@[i as int]);
        }
        let ghost d1 = diagnostics@;
        match &v[i] {
            crate::ast::ConditionExpr::PropertyComparison(pc) => {
                check_enum_condition(pc, choice, section_name, file_path, symbol_table, diagnostics);
            },
            _ => { proof { lemma_appended_empty(d1); } },
        }
        proof {
            lemma_appended_trans(d0, d1, diagnostics@, or_enum_reports(v@.take(i as int), span_view(choice.span), section_name@,
                file_path@, types), match v@[i as int] {
                    crate::ast::ConditionExpr::PropertyComparison(pc) => enum_cond_reports(pc, span_view(choice.span),
                        section_name@, file_path@, types),
                    _ => Seq::empty(),
                });
        }
        i += 1;
    }
    assert(v@.take(v.len() as int) =~= v@);
}

/// Check the conditions guarding a choice, and those of the choices
/// nested in it, for enum values that can never match.
fn check_choice_orphaned(
    choice: &crate::ast::Choice,
    section_name: &str,
    file_path: &str,
    symbol_table: &SymbolTable,
    diagnostics: &mut DiagnosticCollector,
)
    ensures
        appended(final(diagnostics)@, old(diagnostics)@, choice_orphan_reports(*choice, section_name@, file_path@,
            crate::link::type_entries(symbol_table.types))),
    decreases choice,
{
    let ghost types = crate::link::type_entries(symbol_table.types);
    let ghost cs = span_view(choice.span);
    let ghost d0 = diagnostics@;
    proof {
        lemma_appended_empty(d0);
        assert(choice.content@.take(0) =~= Seq::<ContentNode>::empty());
    }
    let mut i: usize = 0;
    while i < choice.content.len()
        invariant
            i <= choice.content.len(),
            types == crate::link::type_entries(symbol_table.types),
            cs == span_view(choice.span),
            appended(diagnostics@, d0, kids_orphan_reports(cs, choice.content@.take(i as int), section_name@, file_path@, types)),
        decreases choice.content.len() - i,
    {
        proof {
            assert(choice.content@.take(i + 1).subrange(0, i as int) =~= choice.content@.take(i as int));
            assert(choice.content@.take(i + 1)[i as int] == choice.content@[i as int]);
        }
        let ghost d1 = diagnostics@;
        match &choice.content[i] {
            ContentNode::Condition(cond) => match &cond.expr {
                crate::ast::ConditionExpr::PropertyComparison(pc) => {
                    check_enum_condition(pc, choice, section_name, file_path, symbol_table, diagnostics);
                },
                _ => { proof { lemma_appended_empty(d1); } },
            },
            ContentNode::OrConditionBlock(b) => {
                check_or_block(&b.conditions, choice, section_name, file_path, symbol_table, diagnostics);
            },
            ContentNode::Choice(nested) => {
                proof {
                    vstd::std_specs::vec::axiom_vec_index_decreases(choice.content, i as int);
                    assert(decreases_to!(*choice => choice.content));
                }
                check_choice_orphaned(nested, section_name, file_path, symbol_table, diagnostics);
            },
            _ => { proof { lemma_appended_empty(d1); } },
        }
        proof {
            lemma_appended_trans(d0, d1, diagnostics@, kids_orphan_reports(cs, choice.content@.take(i as int), section_name@,
                file_path@, types), match choice.content@[i as int] {
                    ContentNode::Condition(cond) => match cond.expr {
                        crate::ast::ConditionExpr::PropertyComparison(pc) => enum_cond_reports(pc, cs, section_name@, file_path@, types),
                        _ => Seq::empty(),
                    },
                    ContentNode::OrConditionBlock(b) => or_enum_reports(b.conditions@, cs, section_name@, file_path@, types),
                    ContentNode::Choice(n) => choice_orphan_reports(n, section_name@, file_path@, types),
                    _ => Seq::empty(),
                });
        }
        i += 1;
    }
    assert(choice.content@.take(choice.content.len() as int) =~= choice.content@);
}

/// What the files' choices report, file by file.
pub open spec fn files_orphan_reports(files: Seq<crate::graph::FileNode>, types: Seq<(Seq<char>, crate::link::TypeV)>)
    -> Seq<PlainDiag>
    decreases files.len(),
{
    if files.len() == 0 {
        Seq::empty()
    } else {
        files_orphan_reports(files.drop_last(), types) + file_orphan_reports(files.last().ast.content@, files.last().path@, types)
    }
}

/// Orphaned choices: a choice guarded by an `==` comparison with a value
/// its enum property does not allow may never be available (URD432
/// warning).
pub fn validate_orphaned_choices(files: &Vec<crate::graph::FileNode>, symbol_table: &SymbolTable, diagnostics: &mut DiagnosticCollector)
    ensures
        appended(final(diagnostics)@, old(diagnostics)@, files_orphan_reports(files@, crate::link::type_entries(symbol_table.types))),
{
    let ghost types = crate::link::type_entries(symbol_table.types);
    let ghost d0 = diagnostics@;
    proof {
        lemma_appended_empty(d0);
        assert(files@.take(0) =~= Seq::<crate::graph::FileNode>::empty());
        reveal_strlit("unnamed");
    }
    let mut f: usize = 0;
    while f < files.len()
        invariant
            f <= files.len(),
            types == crate::link::type_entries(symbol_table.types),
            appended(diagnostics@, d0, files_orphan_reports(files@.take(f as int), types)),
        decreases files.len() - f,
    {
        proof {
            assert(files@.take(f + 1).drop_last() =~= files@.take(f as int));
            assert(files@.take(f + 1).last() == files@[f as int]);
        }
        let node = &files[f];
        let ghost content = node.ast.content@;
        let ghost d1 = diagnostics@;
        let mut current_section: Option<String> = None;
        proof {
            lemma_appended_empty(d1);
            assert(content.take(0) =~= Seq::<ContentNode>::empty());
        }
        let mut i: usize = 0;
        while i < node.ast.content.len()
            invariant
                i <= node.ast.content.len(),
                content == node.ast.content@,
                types == crate::link::type_entries(symbol_table.types),
                crate::ast::opt_view(current_section) == last_section(content.take(i as int)),
                appended(diagnostics@, d1, file_orphan_reports(content.take(i as int), node.path@, types)),
            decreases node.ast.content.len() - i,
        {
            proof {
                assert(content.take(i + 1).drop_last() =~= content.take(i as int));
                assert(content.take(i + 1).last() == content[i as int]);
            }
            let ghost d2 = diagnostics@;
            match &node.ast.content[i] {
                ContentNode::SectionLabel(sl) => {
                    current_section = Some(sl.name.clone());
                    proof { lemma_appended_empty(d2); }
                },
                ContentNode::Choice(choice) => {
                    let name = match &current_section {
                        Some(s) => s.clone(),
                        None => "unnamed".to_string(),
                    };
                    check_choice_orphaned(choice, name.as_str(), node.path.as_str(), symbol_table, diagnostics);
                },
                _ => { proof { lemma_appended_empty(d2); } },
            }
            proof {
                lemma_appended_trans(d1, d2, diagnostics@, file_orphan_reports(content.take(i as int), node.path@, types),
                    match content[i as int] {
                        ContentNode::Choice(c) => choice_orphan_reports(c,
                            match last_section(content.take(i as int)) { Some(s) => s, None => "unnamed"@ }, node.path@, types),
                        _ => Seq::empty(),
                    });
            }
            i += 1;
        }
        proof {
            assert(content.take(content.len() as int) =~= content);
            lemma_appended_trans(d0, d1, diagnostics@, files_orphan_reports(files@.take(f as int), types),
                file_orphan_reports(content, files@[f as int].path@, types));
        }
        f += 1;
    }
    assert(files@.take(files.len() as int) =~= files@);
}

// ── Missing fallthrough ──

pub open spec fn msg_no_fallthrough(section: Seq<char>, file: Seq<char>) -> Seq<char> {
    "Section '"@ + section + "' in file '"@ + file
        + "' has only one-shot choices and no terminal jump or fallthrough text. It will exhaust to an empty state."@
}

/// The position of the first section label at or after `j` (the end when
/// none follows).
pub open spec fn next_label(v: Seq<ContentNode>, j: int) -> int
    decreases v.len() - j,
{
    if j >= v.len() {
        v.len() as int
    } else if v[j] is SectionLabel {
        j
    } else {
        next_label(v, j + 1)
    }
}

/// The position of the last choice in `v[s..e]`, if any.
pub open spec fn last_choice_in(v: Seq<ContentNode>, s: int, e: int) -> Option<int>
    decreases e - s,
{
    if e <= s {
        None
    } else if v[e - 1] is Choice {
        Some(e - 1)
    } else {
        last_choice_in(v, s, e - 1)
    }
}

/// Content that a reader falls through to: a jump, prose, speech or a
/// stage direction.
pub open spec fn falls_through(n: ContentNode) -> bool {
    n is Jump || n is Prose || n is EntitySpeech || n is StageDirection
}

/// Whether `v[a..e]` holds content that falls through.
pub open spec fn has_fallthrough(v: Seq<ContentNode>, a: int, e: int) -> bool
    decreases e - a,
{
    if e <= a { false } else { falls_through(v[a]) || has_fallthrough(v, a + 1, e) }
}

/// What the section whose label stands at position `i` reports: when its
/// choices are all one-shot and nothing after the last of them falls
/// through, a URD433 warning at the label.
pub open spec fn section_fall_report(v: Seq<ContentNode>, i: int, stem: Seq<char>, file: Seq<char>,
    secs: Seq<(Seq<char>, crate::link::SectionV)>) -> Seq<PlainDiag>
{
    match v[i] {
        ContentNode::SectionLabel(l) => {
            let e = next_label(v, i + 1);
            match key_index(secs, stem + "/"@ + l.name@) {
                Some(k) => {
                    let cs = secs[k].1.3;
                    if cs.len() == 0 || exists|j: int| 0 <= j < cs.len() && (#[trigger] cs[j]).2 {
                        Seq::empty()
                    } else {
                        match last_choice_in(v, i, e) {
                            Some(lc) => if !has_fallthrough(v, lc + 1, e) {
                                seq![(Severity::Warning, "URD433"@, msg_no_fallthrough(l.name@, file), span_view(l.span))]
                            } else {
                                Seq::empty()
                            },
                            None => Seq::empty(),
                        }
                    }
                },
                None => Seq::empty(),
            }
        },
        _ => Seq::empty(),
    }
}

/// The sections among the first `n` nodes, each reported as above.
pub open spec fn fall_reports(v: Seq<ContentNode>, n: int, stem: Seq<char>, file: Seq<char>,
    secs: Seq<(Seq<char>, crate::link::SectionV)>) -> Seq<PlainDiag>
    decreases n,
{
    if n <= 0 {
        Seq::empty()
    } else {
        fall_reports(v, n - 1, stem, file, secs) + section_fall_report(v, n - 1, stem, file, secs)
    }
}

pub open spec fn files_fall_reports(files: Seq<crate::graph::FileNode>, secs: Seq<(Seq<char>, crate::link::SectionV)>)
    -> Seq<PlainDiag>
    decreases files.len(),
{
    if files.len() == 0 {
        Seq::empty()
    } else {
        let f = files.last();
        files_fall_reports(files.drop_last(), secs)
            + fall_reports(f.ast.content@, f.ast.content@.len() as int, crate::graph::file_stem_of(f.path@), f.path@, secs)
    }
}

fn next_label_exec(v: &Vec<ContentNode>, j: usize) -> (r: usize)
    requires
        j <= v.len(),
    ensures
        r == next_label(v@, j as int),
        j <= r <= v.len(),
{
    let mut k = j;
    while k < v.len()
        invariant
            j <= k <= v.len(),
            next_label(v@, j as int) == next_label(v@, k as int),
        decreases v.len() - k,
    {
        if matches!(&v[k], ContentNode::SectionLabel(_)) {
            return k;
        }
        k += 1;
    }
    k
}

fn last_choice_exec(v: &Vec<ContentNode>, s: usize, e: usize) -> (r: Option<usize>)
    requires
        s <= e <= v.len(),
    ensures
        match r {
            Some(x) => last_choice_in(v@, s as int, e as int) == Some(x as int) && s <= x < e,
            None => last_choice_in(v@, s as int, e as int) is None,
        },
{
    let mut k = e;
    while k > s
        invariant
            s <= k <= e,
            e <= v.len(),
            last_choice_in(v@, s as int, e as int) == last_choice_in(v@, s as int, k as int),
        decreases k - s,
    {
        if matches!(&v[k - 1], ContentNode::Choice(_)) {
            return Some(k - 1);
        }
        k -= 1;
    }
    None
}

fn has_fallthrough_exec(v: &Vec<ContentNode>, a: usize, e: usize) -> (b: bool)
    requires
        a <= e <= v.len(),
    ensures
        b == has_fallthrough(v@, a as int, e as int),
{
    let mut k = a;
    while k < e
        invariant
            a <= k <= e,
            e <= v.len(),
            has_fallthrough(v@, a as int, e as int) == has_fallthrough(v@, k as int, e as int),
        decreases e - k,
    {
        let f = match &v[k] {
            ContentNode::Jump(_) | ContentNode::Prose(_) | ContentNode::EntitySpeech(_) | ContentNode::StageDirection(_) => true,
            _ => false,
        };
        if f {
            return true;
        }
        k += 1;
    }
    false
}

fn any_sticky(cs: &Vec<crate::symbol_table::ChoiceSymbol>) -> (b: bool)
    ensures
        b == exists|j: int| 0 <= j < cs@.len() && (#[trigger] cs@[j]).sticky,
{
    let mut i: usize = 0;
    while i < cs.len()
        invariant
            i <= cs.len(),
            forall|j: int| 0 <= j < i ==> !(#[trigger] cs@[j]).sticky,
        decreases cs.len() - i,
    {
        if cs[i].sticky {
            return true;
        }
        i += 1;
    }
    false
}

/// Report the section starting at position `i` if it exhausts to an
/// empty state.
fn check_section_fallthrough(
    v: &Vec<ContentNode>,
    i: usize,
    stem: &str,
    file_path: &str,
    symbol_table: &SymbolTable,
    diagnostics: &mut DiagnosticCollector,
)
    requires
        i < v.len(),
    ensures
        appended(final(diagnostics)@, old(diagnostics)@, section_fall_report(v@, i as int, stem@, file_path@,
            crate::link::section_symbol_entries(symbol_table.sections))),
{
    let ghost secs = crate::link::section_symbol_entries(symbol_table.sections);
    proof { lemma_appended_empty(diagnostics@); }
    match &v[i] {
        ContentNode::SectionLabel(sl) => {
            let e = next_label_exec(v, i + 1);
            let cid = crate::collect::join3(stem, "/", sl.name.as_str());
            proof {
                reveal_strlit("/");
                lemma_key_index(secs, cid@);
            }
            match crate::link::section_symbol_get(&symbol_table.sections, cid.as_str()) {
                Some(sec) => {
                    let ghost cs = crate::link::section_view(*sec).3;
                    assert(cs.len() == sec.choices@.len());
                    assert(forall|j: int| 0 <= j < cs.len() ==> cs[j].2 == sec.choices@[j].sticky);
                    let has_sticky = any_sticky(&sec.choices);
                    proof {
                        if has_sticky {
                            let j = choose|j: int| 0 <= j < sec.choices@.len() && (#[trigger] sec.choices@[j]).sticky;
                            assert(cs[j].2);
                        }
                    }
                    if sec.choices.len() == 0 || has_sticky {
                        return;
                    }
                    match last_choice_exec(v, i, e) {
                        Some(lc) => {
                            if !has_fallthrough_exec(v, lc + 1, e) {
                                let mut m: Vec<char> = Vec::new();
                                push_str(&mut m, "Section '");
                                push_str(&mut m, sl.name.as_str());
                                push_str(&mut m, "' in file '");
                                push_str(&mut m, file_path);
                                push_str(&mut m,
                                    "' has only one-shot choices and no terminal jump or fallthrough text. It will exhaust to an empty state.");
                                proof {
                                    reveal_strlit("Section '");
                                    reveal_strlit("' in file '");
                                    reveal_strlit("' has only one-shot choices and no terminal jump or fallthrough text. It will exhaust to an empty state.");
                                    reveal_strlit("URD433");
                                }
                                assert(m@ =~= msg_no_fallthrough(sl.name@, file_path@));
                                report("URD433", true, string_from_chars(m), &sl.span, diagnostics, Ghost((Severity::Warning,
                                    "URD433"@, msg_no_fallthrough(sl.name@, file_path@), span_view(sl.span))));
                            }
                        },
                        None => {},
                    }
                },
                None => {},
            }
        },
        _ => {},
    }
}

/// Missing fallthrough: a section whose choices are all one-shot and after
/// whose last choice nothing falls through will exhaust to an empty state
/// (URD433 warning).
pub fn validate_section_fallthrough(files: &Vec<crate::graph::FileNode>, symbol_table: &SymbolTable,
    diagnostics: &mut DiagnosticCollector)
    ensures
        appended(final(diagnostics)@, old(diagnostics)@, files_fall_reports(files@,
            crate::link::section_symbol_entries(symbol_table.sections))),
{
    let ghost secs = crate::link::section_symbol_entries(symbol_table.sections);
    let ghost d0 = diagnostics@;
    proof {
        lemma_appended_empty(d0);
        assert(files@.take(0) =~= Seq::<crate::graph::FileNode>::empty());
    }
    let mut f: usize = 0;
    while f < files.len()
        invariant
            f <= files.len(),
            secs == crate::link::section_symbol_entries(symbol_table.sections),
            appended(diagnostics@, d0, files_fall_reports(files@.take(f as int), secs)),
        decreases files.len() - f,
    {
        proof {
            assert(files@.take(f + 1).drop_last() =~= files@.take(f as int));
            assert(files@.take(f + 1).last() == files@[f as int]);
        }
        let node = &files[f];
        let stem = crate::graph::file_stem(node.path.as_str());
        let ghost d1 = diagnostics@;
        proof { lemma_appended_empty(d1); }
        let mut i: usize = 0;
        while i < node.ast.content.len()
            invariant
                i <= node.ast.content.len(),
                secs == crate::link::section_symbol_entries(symbol_table.sections),
                stem@ == crate::graph::file_stem_of(node.path@),
                appended(diagnostics@, d1, fall_reports(node.ast.content@, i as int, stem@, node.path@, secs)),
            decreases node.ast.content.len() - i,
        {
            let ghost d2 = diagnostics@;
            check_section_fallthrough(&node.ast.content, i, stem.as_str(), node.path.as_str(), symbol_table, diagnostics);
            proof {
                lemma_appended_trans(d1, d2, diagnostics@, fall_reports(node.ast.content@, i as int, stem@, node.path@, secs),
                    section_fall_report(node.ast.content@, i as int, stem@, node.path@, secs));
            }
            i += 1;
        }
        proof {
            lemma_appended_trans(d0, d1, diagnostics@, files_fall_reports(files@.take(f as int), secs),
                fall_reports(node.ast.content@, node.ast.content@.len() as int, stem@, node.path@, secs));
        }
        f += 1;
    }
    assert(files@.take(files.len() as int) =~= files@);
}

// ── The phase ──

pub open spec fn files_nesting_reports(files: Seq<crate::graph::FileNode>) -> Seq<PlainDiag>
    decreases files.len(),
{
    if files.len() == 0 {
        Seq::empty()
    } else {
        files_nesting_reports(files.drop_last()) + crate::validate::nesting_report_all(files.last().ast.content@)
    }
}

pub open spec fn files_shadow_reports(files: Seq<crate::graph::FileNode>, locs: Seq<(Seq<char>, crate::link::LocationV)>)
    -> Seq<PlainDiag>
    decreases files.len(),
{
    if files.len() == 0 {
        Seq::empty()
    } else {
        files_shadow_reports(files.drop_last(), locs) + crate::checks::shadow_reports(locs, files.last().ast.content@)
    }
}

/// Everything VALIDATE reports for `files` (in compilation order) and the
/// linked symbol table, in the order of its steps: global configuration,
/// type definitions, entity overrides, conditions, effects, actions,
/// sequences and phases, nesting depth, unreachable locations, orphaned
/// choices, missing fallthrough, section-exit shadowing.
pub open spec fn validate_reports(files: Seq<crate::graph::FileNode>, t: SymbolTable) -> Seq<PlainDiag> {
    let types = crate::link::type_entries(t.types);
    let ents = entity_entries(t.entities);
    let secs = crate::link::section_symbol_entries(t.sections);
    let locs = crate::link::location_entries(t.locations);
    crate::checks::global_reports(files, t)
        + types_reports(types, types, ents)
        + entities_reports(ents, types, ents)
        + files_cond_reports(files, secs, types, ents)
        + files_effect_reports(files, types, ents)
        + crate::checks::action_reports(crate::link::action_entries(t.actions))
        + crate::checks::sequence_reports(crate::link::action_entries(t.actions), crate::link::rule_entries(t.rules),
            crate::link::sequence_entries(t.sequences))
        + files_nesting_reports(files)
        + crate::checks::reachability_reports(locs, crate::ast::opt_view(t.world_start))
        + files_orphan_reports(files, types)
        + files_fall_reports(files, secs)
        + files_shadow_reports(files, locs)
}

fn validate_nesting_depth(files: &Vec<crate::graph::FileNode>, diagnostics: &mut DiagnosticCollector)
    ensures
        appended(final(diagnostics)@, old(diagnostics)@, files_nesting_reports(files@)),
{
    let ghost d0 = diagnostics@;
    proof {
        lemma_appended_empty(d0);
        assert(files@.take(0) =~= Seq::<crate::graph::FileNode>::empty());
    }
    let mut i: usize = 0;
    while i < files.len()
        invariant
            i <= files.len(),
            appended(diagnostics@, d0, files_nesting_reports(files@.take(i as int))),
        decreases files.len() - i,
    {
        proof {
            assert(files@.take(i + 1).drop_last() =~= files@.take(i as int));
            assert(files@.take(i + 1).last() == files@[i as int]);
        }
        let ghost d1 = diagnostics@;
        crate::validate::check_nesting_all(&files[i].ast.content, diagnostics);
        proof {
            lemma_appended_trans(d0, d1, diagnostics@, files_nesting_reports(files@.take(i as int)),
                crate::validate::nesting_report_all(files@[i as int].ast.content@));
        }
        i += 1;
    }
    assert(files@.take(files.len() as int) =~= files@);
}

fn validate_shadowing(files: &Vec<crate::graph::FileNode>, symbol_table: &SymbolTable, diagnostics: &mut DiagnosticCollector)
    ensures
        appended(final(diagnostics)@, old(diagnostics)@, files_shadow_reports(files@,
            crate::link::location_entries(symbol_table.locations))),
{
    let ghost locs = crate::link::location_entries(symbol_table.locations);
    let ghost d0 = diagnostics@;
    proof {
        lemma_appended_empty(d0);
        assert(files@.take(0) =~= Seq::<crate::graph::FileNode>::empty());
    }
    let mut i: usize = 0;
    while i < files.len()
        invariant
            i <= files.len(),
            locs == crate::link::location_entries(symbol_table.locations),
            appended(diagnostics@, d0, files_shadow_reports(files@.take(i as int), locs)),
        decreases files.len() - i,
    {
        proof {
            assert(files@.take(i + 1).drop_last() =~= files@.take(i as int));
            assert(files@.take(i + 1).last() == files@[i as int]);
        }
        let ghost d1 = diagnostics@;
        crate::checks::validate_section_exit_shadowing(&files[i].ast.content, symbol_table, diagnostics);
        proof {
            lemma_appended_trans(d0, d1, diagnostics@, files_shadow_reports(files@.take(i as int), locs),
                crate::checks::shadow_reports(locs, files@[i as int].ast.content@));
        }
        i += 1;
    }
    assert(files@.take(files.len() as int) =~= files@);
}

/// Validate the linked world: every VALIDATE step in order, over `files`
/// in compilation order.
pub fn validate(files: &Vec<crate::graph::FileNode>, symbol_table: &SymbolTable, diagnostics: &mut DiagnosticCollector)
    ensures
        appended(final(diagnostics)@, old(diagnostics)@, validate_reports(files@, *symbol_table)),
{
    let ghost t = *symbol_table;
    let ghost types = crate::link::type_entries(t.types);
    let ghost ents = entity_entries(t.entities);
    let ghost secs = crate::link::section_symbol_entries(t.sections);
    let ghost locs = crate::link::location_entries(t.locations);
    let ghost d0 = diagnostics@;
    crate::checks::validate_global_config(files, symbol_table, diagnostics);
    let ghost d1 = diagnostics@;
    validate_types(symbol_table, diagnostics);
    let ghost d2 = diagnostics@;
    validate_entities(symbol_table, diagnostics);
    let ghost d3 = diagnostics@;
    validate_conditions(files, symbol_table, diagnostics);
    let ghost d4 = diagnostics@;
    validate_effects(files, symbol_table, diagnostics);
    let ghost d5 = diagnostics@;
    crate::checks::validate_actions(symbol_table, diagnostics);
    let ghost d6 = diagnostics@;
    crate::checks::validate_sequences(symbol_table, diagnostics);
    let ghost d7 = diagnostics@;
    validate_nesting_depth(files, diagnostics);
    let ghost d8 = diagnostics@;
    crate::checks::validate_location_reachability(symbol_table, diagnostics);
    let ghost d9 = diagnostics@;
    validate_orphaned_choices(files, symbol_table, diagnostics);
    let ghost d10 = diagnostics@;
    validate_section_fallthrough(files, symbol_table, diagnostics);
    let ghost d11 = diagnostics@;
    validate_shadowing(files, symbol_table, diagnostics);
    proof {
        let r1 = crate::checks::global_reports(files@, t);
        let r2 = types_reports(types, types, ents);
        let r3 = entities_reports(ents, types, ents);
        let r4 = files_cond_reports(files@, secs, types, ents);
        let r5 = files_effect_reports(files@, types, ents);
        let r6 = crate::checks::action_reports(crate::link::action_entries(t.actions));
        let r7 = crate::checks::sequence_reports(crate::link::action_entries(t.actions), crate::link::rule_entries(t.rules),
            crate::link::sequence_entries(t.sequences));
        let r8 = files_nesting_reports(files@);
        let r9 = crate::checks::reachability_reports(locs, crate::ast::opt_view(t.world_start));
        let r10 = files_orphan_reports(files@, types);
        let r11 = files_fall_reports(files@, secs);
        let r12 = files_shadow_reports(files@, locs);
        lemma_appended_trans(d0, d1, d2, r1, r2);
        lemma_appended_trans(d0, d2, d3, r1 + r2, r3);
        lemma_appended_trans(d0, d3, d4, r1 + r2 + r3, r4);
        lemma_appended_trans(d0, d4, d5, r1 + r2 + r3 + r4, r5);
        lemma_appended_trans(d0, d5, d6, r1 + r2 + r3 + r4 + r5, r6);
        lemma_appended_trans(d0, d6, d7, r1 + r2 + r3 + r4 + r5 + r6, r7);
        lemma_appended_trans(d0, d7, d8, r1 + r2 + r3 + r4 + r5 + r6 + r7, r8);
        lemma_appended_trans(d0, d8, d9, r1 + r2 + r3 + r4 + r5 + r6 + r7 + r8, r9);
        lemma_appended_trans(d0, d9, d10, r1 + r2 + r3 + r4 + r5 + r6 + r7 + r8 + r9, r10);
        lemma_appended_trans(d0, d10, d11, r1 + r2 + r3 + r4 + r5 + r6 + r7 + r8 + r9 + r10, r11);
        lemma_appended_trans(d0, d11, diagnostics@, r1 + r2 + r3 + r4 + r5 + r6 + r7 + r8 + r9 + r10 + r11, r12);
    }
}

/// A value accepted for an integer property is an integer: `check_value`
/// on an integer property accepts exactly the integer values. Any other
/// value, a number with a fractional part among them, is refused with one
/// error: URD413 for a type's default, URD401 for an entity's override.
pub proof fn lemma_integer_property_accepts_only_integers(value: Value, prop: PropertySymbol, entity: Seq<char>,
    tname: Seq<char>, ctx: CheckContext, ents: Seq<(Seq<char>, EntityV)>, span: SpanV)
    requires
        prop.property_type == PropertyType::Integer,
    ensures
        ({
            let r = check_sv(value_sv(value), shape_of(prop_view(prop)), entity, tname, ctx, ents, span);
            &&& (r.0 <==> value is Integer)
            &&& (value is Integer ==> r.1.len() == 0)
            &&& (!(value is Integer) ==> r.1.len() == 1 && r.1[0].0 == Severity::Error
                && r.1[0].1 == (if ctx == CheckContext::Default { "URD413"@ } else { "URD401"@ }))
        }),
{
}

/// A value accepted for a boolean property is a boolean, and one accepted
/// for a number property is a number or an integer.
pub proof fn lemma_scalar_property_accepts_its_kind(value: Value, prop: PropertySymbol, entity: Seq<char>,
    tname: Seq<char>, ctx: CheckContext, ents: Seq<(Seq<char>, EntityV)>, span: SpanV)
    ensures
        ({
            let r = check_sv(value_sv(value), shape_of(prop_view(prop)), entity, tname, ctx, ents, span);
            &&& (prop.property_type == PropertyType::Boolean ==> (r.0 <==> value is Boolean))
            &&& (prop.property_type == PropertyType::Number ==> (r.0 <==> (value is Number || value is Integer)))
            &&& (prop.property_type == PropertyType::String ==> (r.0 <==> value is String))
        }),
{
}

} // verus!
