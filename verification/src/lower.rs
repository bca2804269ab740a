//! How EMIT writes conditions and effects: a condition as one expression
//! string, an effect as a small JSON object, both over the references that
//! LINK resolved.

use vstd::prelude::*;
use crate::ast::{Annotation, ConditionExpr, ContainerKind, DestinationKind, EffectType};
use crate::emit::{strip_at, without_at};
use crate::json::{Json, JsonV, json_view, json_members, push_member};
use crate::link::{PropV, TypeV, key_index, type_entries};
use crate::symbol_table::{PropertyType, SymbolTable};
use crate::text::{chars_of, push_str, str_equals, string_from_chars, spec_parse_i64, is_float_text, parse_i64, is_float_literal};

verus! {

broadcast use vstd::string::group_string_axioms;

// ── Conditions ──

/// What a containment check compares against: the player, the player's
/// container, an entity or a location, as LINK resolved it; the written
/// reference without `@` where it did not.
pub open spec fn container_text(ann: Option<Annotation>, raw: Seq<char>) -> Seq<char> {
    match ann {
        Some(a) => match a.container_kind {
            Some(ContainerKind::KeywordPlayer) => "player"@,
            Some(ContainerKind::KeywordHere) => "player.container"@,
            Some(ContainerKind::EntityRef(id)) => without_at(id@),
            Some(ContainerKind::LocationRef(id)) => id@,
            None => without_at(raw),
        },
        None => without_at(raw),
    }
}

/// The section an exhaustion check names: the one LINK resolved, else the
/// name as written.
pub open spec fn exhausted_section(ann: Option<Annotation>, name: Seq<char>) -> Seq<char> {
    match ann {
        Some(a) => match a.resolved_section {
            Some(s) => s@,
            None => name,
        },
        None => name,
    }
}

/// A condition as one expression string:
/// `entity.property op value`, `entity.container ==|!= container`, or
/// `section.exhausted`.
pub open spec fn condition_text(e: ConditionExpr) -> Seq<char> {
    match e {
        ConditionExpr::PropertyComparison(pc) =>
            without_at(pc.entity_ref@) + "."@ + pc.property@ + " "@ + pc.operator@ + " "@ + pc.value@,
        ConditionExpr::ContainmentCheck(cc) =>
            without_at(cc.entity_ref@) + ".container "@ + (if cc.negated { "!="@ } else { "=="@ }) + " "@
                + container_text(cc.annotation, cc.container_ref@),
        ConditionExpr::ExhaustionCheck(ec) => exhausted_section(ec.annotation, ec.section_name@) + ".exhausted"@,
    }
}

fn push_string(v: &mut Vec<char>, s: &String)
    ensures
        final(v)@ == old(v)@ + s@,
{
    push_str(v, s.as_str());
}

fn container_string(ann: &Option<Annotation>, raw: &str) -> (s: String)
    ensures
        s@ == container_text(*ann, raw@),
{
    proof { reveal_strlit("player"); reveal_strlit("player.container"); }
    match ann {
        Some(a) => match &a.container_kind {
            Some(ContainerKind::KeywordPlayer) => string_from_chars(chars_of("player")),
            Some(ContainerKind::KeywordHere) => string_from_chars(chars_of("player.container")),
            Some(ContainerKind::EntityRef(id)) => strip_at(id.as_str()),
            Some(ContainerKind::LocationRef(id)) => id.clone(),
            None => strip_at(raw),
        },
        None => strip_at(raw),
    }
}

/// Write a condition as one expression string.
pub fn lower_condition(e: &ConditionExpr) -> (s: String)
    ensures
        s@ == condition_text(*e),
{
    let mut v: Vec<char> = Vec::new();
    match e {
        ConditionExpr::PropertyComparison(pc) => {
            push_string(&mut v, &strip_at(pc.entity_ref.as_str()));
            push_str(&mut v, ".");
            push_string(&mut v, &pc.property);
            push_str(&mut v, " ");
            push_string(&mut v, &pc.operator);
            push_str(&mut v, " ");
            push_string(&mut v, &pc.value);
            assert(v@ =~= condition_text(*e));
        },
        ConditionExpr::ContainmentCheck(cc) => {
            push_string(&mut v, &strip_at(cc.entity_ref.as_str()));
            push_str(&mut v, ".container ");
            if cc.negated { push_str(&mut v, "!="); } else { push_str(&mut v, "=="); }
            push_str(&mut v, " ");
            push_string(&mut v, &container_string(&cc.annotation, cc.container_ref.as_str()));
            assert(v@ =~= condition_text(*e));
        },
        ConditionExpr::ExhaustionCheck(ec) => {
            let sec = match &ec.annotation {
                Some(a) => match &a.resolved_section {
                    Some(s) => s.clone(),
                    None => ec.section_name.clone(),
                },
                None => ec.section_name.clone(),
            };
            push_string(&mut v, &sec);
            push_str(&mut v, ".exhausted");
            assert(v@ =~= condition_text(*e));
        },
    }
    string_from_chars(v)
}

// ── Effects ──

/// The entity an annotation resolved, without `@`; empty where none.
pub open spec fn ann_entity(a: Option<Annotation>) -> Seq<char> {
    match a {
        Some(x) => match x.resolved_entity {
            Some(e) => without_at(e@),
            None => Seq::empty(),
        },
        None => Seq::empty(),
    }
}

/// The property an annotation resolved; empty where none.
pub open spec fn ann_property(a: Option<Annotation>) -> Seq<char> {
    match a {
        Some(x) => match x.resolved_property {
            Some(p) => p@,
            None => Seq::empty(),
        },
        None => Seq::empty(),
    }
}

/// The type an annotation resolved.
pub open spec fn ann_type(a: Option<Annotation>) -> Option<Seq<char>> {
    match a {
        Some(x) => crate::ast::opt_view(x.resolved_type),
        None => None,
    }
}

/// Where a move sends the entity: the player, the player's container, an
/// entity or a location; empty where LINK resolved none.
pub open spec fn destination_text(a: Option<Annotation>) -> Seq<char> {
    match a {
        Some(x) => match x.destination_kind {
            Some(DestinationKind::KeywordPlayer) => "player"@,
            Some(DestinationKind::KeywordHere) => "player.container"@,
            Some(DestinationKind::EntityRef(id)) => without_at(id@),
            Some(DestinationKind::LocationRef(id)) => id@,
            None => Seq::empty(),
        },
        None => Seq::empty(),
    }
}

/// The first property of this name among a type's properties.
pub open spec fn first_prop(ps: Seq<PropV>, name: Seq<char>) -> Option<PropertyType>
    decreases ps.len(),
{
    if ps.len() == 0 {
        None
    } else if ps[0].0 == name {
        Some(ps[0].1)
    } else {
        first_prop(ps.drop_first(), name)
    }
}

/// The declared type of a property of a named type.
pub open spec fn prop_type_of(types: Seq<(Seq<char>, TypeV)>, named_type: Option<Seq<char>>, prop: Seq<char>) -> Option<PropertyType> {
    match named_type {
        Some(tn) => match key_index(types, tn) {
            Some(i) => first_prop(types[i].1.3, prop),
            None => None,
        },
        None => None,
    }
}

/// An assigned value by the property's type: a boolean, an integer or a
/// number where its text is one, else the text as a string.
pub open spec fn typed_value_json(v: Seq<char>, t: Option<PropertyType>) -> JsonV {
    match t {
        Some(PropertyType::Boolean) =>
            if v == "true"@ { JsonV::Bool(true) } else if v == "false"@ { JsonV::Bool(false) } else { JsonV::Str(v) },
        Some(PropertyType::Integer) => match spec_parse_i64(v) {
            Some(n) => JsonV::Int(n),
            None => JsonV::Str(v),
        },
        Some(PropertyType::Number) => if is_float_text(v) { JsonV::Num(v) } else { JsonV::Str(v) },
        _ => JsonV::Str(v),
    }
}

/// An effect as the world JSON writes it: `{set, to}`, `{move, to}`,
/// `{reveal}` or `{destroy}`. An arithmetic assignment (`+`, `-`) writes
/// its expression as a string; a plain one writes the typed value.
pub open spec fn effect_json(e: EffectType, a: Option<Annotation>, types: Seq<(Seq<char>, TypeV)>) -> JsonV {
    match e {
        EffectType::Assign { operator, value_expr, .. } => {
            let target = ann_entity(a) + "."@ + ann_property(a);
            JsonV::Object(seq![("set"@, JsonV::Str(target)), ("to"@,
                if operator@ == "+"@ || operator@ == "-"@ {
                    JsonV::Str(target + " "@ + operator@ + " "@ + value_expr@)
                } else {
                    typed_value_json(value_expr@, prop_type_of(types, ann_type(a), ann_property(a)))
                })])
        },
        EffectType::Move { .. } =>
            JsonV::Object(seq![("move"@, JsonV::Str(ann_entity(a))), ("to"@, JsonV::Str(destination_text(a)))]),
        EffectType::Reveal { .. } =>
            JsonV::Object(seq![("reveal"@, JsonV::Str(ann_entity(a) + "."@ + ann_property(a)))]),
        EffectType::Destroy { .. } => JsonV::Object(seq![("destroy"@, JsonV::Str(ann_entity(a)))]),
    }
}

fn ann_entity_string(a: &Option<Annotation>) -> (s: String)
    ensures
        s@ == ann_entity(*a),
{
    match a {
        Some(x) => match &x.resolved_entity {
            Some(e) => strip_at(e.as_str()),
            None => String::new(),
        },
        None => String::new(),
    }
}

fn ann_property_string(a: &Option<Annotation>) -> (s: String)
    ensures
        s@ == ann_property(*a),
{
    match a {
        Some(x) => match &x.resolved_property {
            Some(p) => p.clone(),
            None => String::new(),
        },
        None => String::new(),
    }
}

/// Look up the declared type of a property of a named type.
fn property_type_of(table: &SymbolTable, named_type: &Option<String>, prop: &str) -> (r: Option<PropertyType>)
    ensures
        r == prop_type_of(type_entries(table.types), crate::ast::opt_view(*named_type), prop@),
{
    match named_type {
        Some(tn) => match crate::link::type_get(&table.types, tn.as_str()) {
            Some(ts) => {
                let ghost ps = ts.properties@.map_values(|p: crate::symbol_table::PropertySymbol| crate::link::prop_view(p));
                proof {
                    assert(ps.skip(0) =~= ps);
                    assert(ps =~= crate::link::type_view(*ts).3);
                }
                let mut i: usize = 0;
                while i < ts.properties.len()
                    invariant
                        i <= ts.properties.len(),
                        ps == ts.properties@.map_values(|p: crate::symbol_table::PropertySymbol| crate::link::prop_view(p)),
                        first_prop(ps, prop@) == first_prop(ps.skip(i as int), prop@),
                        prop_type_of(type_entries(table.types), crate::ast::opt_view(*named_type), prop@) == first_prop(ps, prop@),
                    decreases ts.properties.len() - i,
                {
                    proof { assert(ps.skip(i as int).drop_first() =~= ps.skip(i + 1)); }
                    if str_equals(ts.properties[i].name.as_str(), prop) {
                        proof {
                            assert(ps.skip(i as int)[0] == ps[i as int]);
                            assert(ps[i as int] == crate::link::prop_view(ts.properties@[i as int]));
                            assert(first_prop(ps.skip(i as int), prop@) == Some(ps.skip(i as int)[0].1));
                            assert(ps =~= crate::link::type_view(*ts).3);
                        }
                        return Some(ts.properties[i].property_type);
                    }
                    i += 1;
                }
                proof { assert(ps.skip(i as int).len() == 0); assert(ps =~= crate::link::type_view(*ts).3); }
                None
            },
            None => None,
        },
        None => None,
    }
}

/// Write an assigned value by the property's type.
fn typed_value(v: &str, t: Option<PropertyType>) -> (j: Json)
    ensures
        json_view(j) == typed_value_json(v@, t),
{
    match t {
        Some(PropertyType::Boolean) => {
            if str_equals(v, "true") {
                Json::Bool(true)
            } else if str_equals(v, "false") {
                Json::Bool(false)
            } else {
                Json::str(v)
            }
        },
        Some(PropertyType::Integer) => match parse_i64(v) {
            Some(n) => Json::Int(n),
            None => Json::str(v),
        },
        Some(PropertyType::Number) => {
            if is_float_literal(v) {
                Json::Num(string_from_chars(chars_of(v)))
            } else {
                Json::str(v)
            }
        },
        _ => Json::str(v),
    }
}

fn two_members(k1: &str, v1: Json, k2: &str, v2: Json) -> (j: Json)
    ensures
        json_view(j) == JsonV::Object(seq![(k1@, json_view(v1)), (k2@, json_view(v2))]),
{
    let mut m: Vec<(String, Json)> = Vec::new();
    proof { assert(json_members(m@) =~= Seq::<(Seq<char>, JsonV)>::empty()); }
    push_member(&mut m, k1, v1);
    push_member(&mut m, k2, v2);
    let ghost e = seq![(k1@, json_view(v1)), (k2@, json_view(v2))];
    assert(json_members(m@) =~= e);
    Json::Object(m)
}

pub(crate) fn one_member(k: &str, v: Json) -> (j: Json)
    ensures
        json_view(j) == JsonV::Object(seq![(k@, json_view(v))]),
{
    let mut m: Vec<(String, Json)> = Vec::new();
    proof { assert(json_members(m@) =~= Seq::<(Seq<char>, JsonV)>::empty()); }
    push_member(&mut m, k, v);
    assert(json_members(m@) =~= seq![(k@, json_view(v))]);
    Json::Object(m)
}

/// Write an effect as the world JSON gives it.
pub fn lower_effect(e: &EffectType, a: &Option<Annotation>, table: &SymbolTable) -> (j: Json)
    ensures
        json_view(j) == effect_json(*e, *a, type_entries(table.types)),
{
    proof { reveal_strlit("player"); reveal_strlit("player.container"); }
    match e {
        EffectType::Assign { operator, value_expr, .. } => {
            let ent = ann_entity_string(a);
            let prop = ann_property_string(a);
            let mut t: Vec<char> = Vec::new();
            push_string(&mut t, &ent);
            push_str(&mut t, ".");
            push_string(&mut t, &prop);
            let target = string_from_chars(t);
            let to = if str_equals(operator.as_str(), "+") || str_equals(operator.as_str(), "-") {
                let mut x = chars_of(target.as_str());
                push_str(&mut x, " ");
                push_string(&mut x, operator);
                push_str(&mut x, " ");
                push_string(&mut x, value_expr);
                Json::Str(string_from_chars(x))
            } else {
                let ty = match a {
                    Some(x) => property_type_of(table, &x.resolved_type, prop.as_str()),
                    None => None,
                };
                typed_value(value_expr.as_str(), ty)
            };
            let j = two_members("set", Json::Str(target), "to", to);
            assert(json_view(j) =~= effect_json(*e, *a, type_entries(table.types)));
            j
        },
        EffectType::Move { .. } => {
            let dest = match a {
                Some(x) => match &x.destination_kind {
                    Some(DestinationKind::KeywordPlayer) => string_from_chars(chars_of("player")),
                    Some(DestinationKind::KeywordHere) => string_from_chars(chars_of("player.container")),
                    Some(DestinationKind::EntityRef(id)) => strip_at(id.as_str()),
                    Some(DestinationKind::LocationRef(id)) => id.clone(),
                    None => String::new(),
                },
                None => String::new(),
            };
            two_members("move", Json::Str(ann_entity_string(a)), "to", Json::Str(dest))
        },
        EffectType::Reveal { .. } => {
            let mut t = chars_of(ann_entity_string(a).as_str());
            push_str(&mut t, ".");
            push_string(&mut t, &ann_property_string(a));
            one_member("reveal", Json::Str(string_from_chars(t)))
        },
        EffectType::Destroy { .. } => one_member("destroy", Json::Str(ann_entity_string(a))),
    }
}

/// A condition written from its text alone, with no resolved references:
/// what `condition_text` gives for a condition that LINK has not annotated.
pub open spec fn bare_condition_text(c: crate::ast::CondV) -> Seq<char> {
    match c {
        crate::ast::CondV::Comparison { entity_ref, property, operator, value, .. } =>
            without_at(entity_ref) + "."@ + property + " "@ + operator + " "@ + value,
        crate::ast::CondV::Containment { entity_ref, container_ref, negated, .. } =>
            without_at(entity_ref) + ".container "@ + (if negated { "!="@ } else { "=="@ }) + " "@ + without_at(container_ref),
        crate::ast::CondV::Exhaustion { section_name, .. } => section_name + ".exhausted"@,
    }
}

/// Whether LINK has left the condition without annotation.
pub open spec fn cond_bare(c: crate::ast::CondV) -> bool {
    match c {
        crate::ast::CondV::Comparison { bare, .. } => bare,
        crate::ast::CondV::Containment { bare, .. } => bare,
        crate::ast::CondV::Exhaustion { bare, .. } => bare,
    }
}

/// A condition LINK has not annotated is written the same either way.
pub proof fn lemma_bare_condition_text(e: ConditionExpr)
    requires
        cond_bare(crate::ast::cond_view(e)),
    ensures
        condition_text(e) == bare_condition_text(crate::ast::cond_view(e)),
{
}

/// Write a condition from its text alone, leaving any annotation aside.
pub fn lower_bare_condition(e: &ConditionExpr) -> (s: String)
    ensures
        s@ == bare_condition_text(crate::ast::cond_view(*e)),
{
    let mut v: Vec<char> = Vec::new();
    match e {
        ConditionExpr::PropertyComparison(pc) => {
            push_string(&mut v, &strip_at(pc.entity_ref.as_str()));
            push_str(&mut v, ".");
            push_string(&mut v, &pc.property);
            push_str(&mut v, " ");
            push_string(&mut v, &pc.operator);
            push_str(&mut v, " ");
            push_string(&mut v, &pc.value);
            assert(v@ =~= bare_condition_text(crate::ast::cond_view(*e)));
        },
        ConditionExpr::ContainmentCheck(cc) => {
            push_string(&mut v, &strip_at(cc.entity_ref.as_str()));
            push_str(&mut v, ".container ");
            if cc.negated { push_str(&mut v, "!="); } else { push_str(&mut v, "=="); }
            push_str(&mut v, " ");
            push_string(&mut v, &strip_at(cc.container_ref.as_str()));
            assert(v@ =~= bare_condition_text(crate::ast::cond_view(*e)));
        },
        ConditionExpr::ExhaustionCheck(ec) => {
            push_string(&mut v, &ec.section_name);
            push_str(&mut v, ".exhausted");
            assert(v@ =~= bare_condition_text(crate::ast::cond_view(*e)));
        },
    }
    string_from_chars(v)
}

/// A move to the keyword `here` sends the entity to the player's current
/// location, `player.container`; a move to `player` sends it to the
/// player's inventory, `player`; the two are told apart in the world JSON.
pub proof fn lemma_move_destination_keywords(e: EffectType, a: Option<Annotation>, types: Seq<(Seq<char>, TypeV)>)
    requires
        e is Move,
    ensures
        (a matches Some(x) && x.destination_kind matches Some(DestinationKind::KeywordHere)) ==>
            effect_json(e, a, types) == JsonV::Object(seq![("move"@, JsonV::Str(ann_entity(a))), ("to"@, JsonV::Str("player.container"@))]),
        (a matches Some(x) && x.destination_kind matches Some(DestinationKind::KeywordPlayer)) ==>
            effect_json(e, a, types) == JsonV::Object(seq![("move"@, JsonV::Str(ann_entity(a))), ("to"@, JsonV::Str("player"@))]),
        "player.container"@ != "player"@,
{
    reveal_strlit("player");
    reveal_strlit("player.container");
    assert("player.container"@.len() != "player"@.len());
}

/// A containment check against the keyword `here` compares with the
/// player's container; against `player`, with the player.
pub proof fn lemma_container_keywords(ann: Option<Annotation>, raw: Seq<char>)
    ensures
        (ann matches Some(x) && x.container_kind matches Some(ContainerKind::KeywordHere)) ==>
            container_text(ann, raw) == "player.container"@,
        (ann matches Some(x) && x.container_kind matches Some(ContainerKind::KeywordPlayer)) ==>
            container_text(ann, raw) == "player"@,
{
}

} // verus!
