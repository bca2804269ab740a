//! EMIT: the compiled world as JSON, and the text normalisations it
//! applies on the way.

use vstd::prelude::*;
use crate::text::{chars_of, chars_start_with, push_chars, replace_all, replace_chars, slice_chars, starts_with, string_from_chars, str_equals};
use crate::json::{Json, JsonV, json_view, json_views, json_members, lemma_json_views_push, push_member};
use crate::ast::{Scalar, ScalarV, scalar_view, scalars_view, pairs_view, FrontmatterEntry, FrontmatterValue, ContentNode, ExitDeclaration};
use crate::text::{trim, views, join_with, join_chars, trim_chars};
use crate::lower::{condition_text, effect_json, lower_condition, lower_effect};
use crate::link::{LocationV, ExitV, location_entries, location_view, exit_view, PhaseV, SequenceV, sequence_entries, sequence_view, phase_view, ActionV, action_entries};
use crate::ast::{Choice, ConditionExpr, RuleBlock, Effect, CondV, SelectV};
use crate::link::{RuleV, rule_entries, rule_view};
use crate::lower::{bare_condition_text, lower_bare_condition};
use crate::graph::{file_stem, file_stem_of};
use crate::symbol_table::{SymbolTable, Value, PropertyType, PropertySymbol, TypeSymbol, EntitySymbol, Visibility};
use crate::link::{value_sv, values_sv, PropV, TypeV, EntityV, prop_view, type_view, entity_view, type_entries, entity_entries, keys_of, value_pairs_sv};
use crate::json::{lemma_json_members_push, json_pretty_text};
use crate::graph::FileNode;
use crate::compile::first_path;
use crate::slugify::{slugify, spec_slugify};

verus! {

broadcast use vstd::string::group_string_axioms;

/// The spaces around comparison operators removed from a condition
/// expression, so that it reads as one token.
pub open spec fn space_free(e: Seq<char>) -> Seq<char> {
    replace_all(
        replace_all(
            replace_all(
                replace_all(replace_all(replace_all(e, " == "@, "=="@), " != "@, "!="@), " < "@, "<"@),
                " > "@,
                ">"@,
            ),
            " <= "@,
            "<="@,
        ),
        " >= "@,
        ">="@,
    )
}

/// The advance mode as written to the world: an `on_condition` mode has
/// its expression made space-free; every other mode is kept as is.
pub open spec fn advance_text(a: Seq<char>) -> Seq<char> {
    if starts_with(a, "on_condition "@) {
        "on_condition "@ + space_free(a.skip(13))
    } else {
        a
    }
}

/// Normalise a phase's advance mode for output.
pub fn format_advance(advance: &str) -> (s: String)
    ensures
        s@ == advance_text(advance@),
{
    let v = chars_of(advance);
    proof {
        reveal_strlit("on_condition ");
        reveal_strlit(" == ");
        reveal_strlit(" != ");
        reveal_strlit(" < ");
        reveal_strlit(" > ");
        reveal_strlit(" <= ");
        reveal_strlit(" >= ");
    }
    if chars_start_with(&v, "on_condition ") {
        let expr = slice_chars(&v, 13, v.len());
        assert(expr@ =~= advance@.skip(13));
        let e1 = replace_chars(&expr, " == ", "==");
        let e2 = replace_chars(&e1, " != ", "!=");
        let e3 = replace_chars(&e2, " < ", "<");
        let e4 = replace_chars(&e3, " > ", ">");
        let e5 = replace_chars(&e4, " <= ", "<=");
        let e6 = replace_chars(&e5, " >= ", ">=");
        let mut out = chars_of("on_condition ");
        push_chars(&mut out, &e6);
        string_from_chars(out)
    } else {
        string_from_chars(v)
    }
}

/// `s` without one leading `@`.
pub open spec fn without_at(s: Seq<char>) -> Seq<char> {
    if s.len() > 0 && s[0] == '@' { s.drop_first() } else { s }
}

/// Strip a leading `@` from an entity reference.
pub fn strip_at(s: &str) -> (r: String)
    ensures
        r@ == without_at(s@),
{
    let v = chars_of(s);
    if v.len() > 0 && v[0] == '@' {
        let t = slice_chars(&v, 1, v.len());
        assert(t@ =~= s@.drop_first());
        string_from_chars(t)
    } else {
        string_from_chars(v)
    }
}

// ── Values ──

/// A scalar as the world JSON writes it. With `strip`, an entity reference
/// loses its leading `@`.
pub open spec fn scalar_json(s: ScalarV, strip: bool) -> JsonV
    decreases s, 1int,
{
    match s {
        ScalarV::Str(t) => JsonV::Str(t),
        ScalarV::Int(n) => JsonV::Int(n),
        ScalarV::Num(t) => JsonV::Num(t),
        ScalarV::Bool(b) => JsonV::Bool(b),
        ScalarV::List(v) => JsonV::Array(scalars_json(v, strip)),
        ScalarV::Ref(t) => JsonV::Str(if strip { without_at(t) } else { t }),
    }
}

pub open spec fn scalars_json(v: Seq<ScalarV>, strip: bool) -> Seq<JsonV>
    decreases v, 0int,
{
    if v.len() == 0 {
        Seq::empty()
    } else {
        scalars_json(v.subrange(0, v.len() - 1), strip).push(scalar_json(v[v.len() - 1], strip))
    }
}

proof fn lemma_scalars_json_push(v: Seq<ScalarV>, x: ScalarV, strip: bool)
    ensures
        scalars_json(v.push(x), strip) == scalars_json(v, strip).push(scalar_json(x, strip)),
{
    assert(v.push(x).subrange(0, v.len() as int) =~= v);
}

proof fn lemma_scalars_view_take(v: Seq<Scalar>, i: int)
    requires
        0 <= i < v.len(),
    ensures
        scalars_view(v.take(i + 1)) == scalars_view(v.take(i)).push(scalar_view(v[i])),
{
    assert(v.take(i + 1).subrange(0, i) =~= v.take(i));
}

proof fn lemma_values_sv_take(v: Seq<Value>, i: int)
    requires
        0 <= i < v.len(),
    ensures
        values_sv(v.take(i + 1)) == values_sv(v.take(i)).push(value_sv(v[i])),
{
    assert(v.take(i + 1).subrange(0, i) =~= v.take(i));
}

/// A frontmatter scalar as JSON; an entity reference is kept as written.
pub fn scalar_to_json(s: &Scalar) -> (j: Json)
    ensures
        json_view(j) == scalar_json(scalar_view(*s), false),
    decreases s,
{
    match s {
        Scalar::String(t) => Json::Str(t.clone()),
        Scalar::Integer(n) => Json::Int(*n),
        Scalar::Number(t) => Json::Num(t.clone()),
        Scalar::Boolean(b) => Json::Bool(*b),
        Scalar::EntityRef(t) => Json::Str(t.clone()),
        Scalar::List(items) => {
            let mut out: Vec<Json> = Vec::new();
            let mut i: usize = 0;
            proof { assert(items@.take(0) =~= Seq::<Scalar>::empty()); assert(json_views(out@) =~= Seq::<JsonV>::empty()); }
            while i < items.len()
                invariant
                    i <= items.len(),
                    json_views(out@) == scalars_json(scalars_view(items@.take(i as int)), false),
                    *s == Scalar::List(*items),
                decreases items.len() - i,
            {
                proof {
                    assert(*items == (*s)->List_0);
                    assert(decreases_to!(*s => (*s)->List_0));
                    vstd::std_specs::vec::axiom_vec_index_decreases(*items, i as int);
                }
                let x = scalar_to_json(&items[i]);
                proof {
                    lemma_json_views_push(out@, x);
                    lemma_scalars_view_take(items@, i as int);
                    lemma_scalars_json_push(scalars_view(items@.take(i as int)), scalar_view(items@[i as int]), false);
                }
                out.push(x);
                i += 1;
            }
            assert(items@.take(items.len() as int) =~= items@);
            Json::Array(out)
        },
    }
}

/// A symbol-table value as JSON; an entity reference loses its `@`.
pub fn value_to_json(v: &Value) -> (j: Json)
    ensures
        json_view(j) == scalar_json(value_sv(*v), true),
    decreases v,
{
    match v {
        Value::String(t) => Json::Str(t.clone()),
        Value::Integer(n) => Json::Int(*n),
        Value::Number(t) => Json::Num(t.clone()),
        Value::Boolean(b) => Json::Bool(*b),
        Value::EntityRef(t) => Json::Str(strip_at(t.as_str())),
        Value::List(items) => {
            let mut out: Vec<Json> = Vec::new();
            let mut i: usize = 0;
            proof { assert(items@.take(0) =~= Seq::<Value>::empty()); assert(json_views(out@) =~= Seq::<JsonV>::empty()); }
            while i < items.len()
                invariant
                    i <= items.len(),
                    json_views(out@) == scalars_json(values_sv(items@.take(i as int)), true),
                    *v == Value::List(*items),
                decreases items.len() - i,
            {
                proof {
                    assert(*items == (*v)->List_0);
                    assert(decreases_to!(*v => (*v)->List_0));
                    vstd::std_specs::vec::axiom_vec_index_decreases(*items, i as int);
                }
                let x = value_to_json(&items[i]);
                proof {
                    lemma_json_views_push(out@, x);
                    lemma_values_sv_take(items@, i as int);
                    lemma_scalars_json_push(values_sv(items@.take(i as int)), value_sv(items@[i as int]), true);
                }
                out.push(x);
                i += 1;
            }
            assert(items@.take(items.len() as int) =~= items@);
            Json::Array(out)
        },
    }
}

// ── The world block ──

/// The fields of the `world:` blocks among frontmatter entries, in order.
pub open spec fn world_fields(es: Seq<FrontmatterEntry>) -> Seq<(Seq<char>, ScalarV)>
    decreases es.len(),
{
    if es.len() == 0 {
        Seq::empty()
    } else {
        world_fields(es.drop_last()) + match es.last().value {
            FrontmatterValue::WorldBlock(w) => pairs_view(w.fields@),
            _ => Seq::empty(),
        }
    }
}

/// The value of the last field with this key.
pub open spec fn last_field(fs: Seq<(Seq<char>, ScalarV)>, key: Seq<char>) -> Option<ScalarV>
    decreases fs.len(),
{
    if fs.len() == 0 {
        None
    } else if fs.last().0 == key {
        Some(fs.last().1)
    } else {
        last_field(fs.drop_last(), key)
    }
}

/// The `world:` fields of the entry file: those of the first file with the
/// entry's path.
pub open spec fn entry_world_fields(files: Seq<FileNode>, entry: Seq<char>) -> Seq<(Seq<char>, ScalarV)> {
    match first_path(files, entry) {
        Some(i) => match files[i].ast.frontmatter {
            Some(fm) => world_fields(fm.entries@),
            None => Seq::empty(),
        },
        None => Seq::empty(),
    }
}

/// A member, where there is a value.
pub open spec fn opt_member(k: Seq<char>, v: Option<JsonV>) -> Seq<(Seq<char>, JsonV)> {
    match v {
        Some(j) => seq![(k, j)],
        None => Seq::empty(),
    }
}

/// The world's name: a string is slugified; another scalar is kept.
pub open spec fn name_json(s: ScalarV) -> JsonV {
    match s {
        ScalarV::Str(t) => JsonV::Str(spec_slugify(t)),
        _ => scalar_json(s, false),
    }
}

/// The JSON of the last field with this key; the name is slugified.
pub open spec fn field_json(fs: Seq<(Seq<char>, ScalarV)>, key: Seq<char>) -> Option<JsonV> {
    match last_field(fs, key) {
        Some(s) => Some(if key == "name"@ { name_json(s) } else { scalar_json(s, false) }),
        None => None,
    }
}

pub open spec fn opt_str(o: Option<Seq<char>>) -> Option<JsonV> {
    match o {
        Some(t) => Some(JsonV::Str(t)),
        None => None,
    }
}

/// The `world` object: name, `urd: "1"`, version, description, author,
/// start, entry, seed, in that order, each where it is given.
pub open spec fn world_json(fs: Seq<(Seq<char>, ScalarV)>, start: Option<Seq<char>>, entry: Option<Seq<char>>) -> JsonV {
    JsonV::Object(
        opt_member("name"@, field_json(fs, "name"@))
        + seq![("urd"@, JsonV::Str("1"@))]
        + opt_member("version"@, field_json(fs, "version"@))
        + opt_member("description"@, field_json(fs, "description"@))
        + opt_member("author"@, field_json(fs, "author"@))
        + opt_member("start"@, opt_str(start))
        + opt_member("entry"@, opt_str(entry))
        + opt_member("seed"@, field_json(fs, "seed"@))
    )
}

pub open spec fn opt_json_view(o: Option<Json>) -> Option<JsonV> {
    match o {
        Some(j) => Some(json_view(j)),
        None => None,
    }
}

proof fn lemma_last_field_push(fs: Seq<(Seq<char>, ScalarV)>, x: (Seq<char>, ScalarV), key: Seq<char>)
    ensures
        last_field(fs.push(x), key) == if x.0 == key { Some(x.1) } else { last_field(fs, key) },
{
    assert(fs.push(x).drop_last() =~= fs);
}

/// Where the field is one of the world's keys, its JSON.
fn world_field_json(key: &str, val: &Scalar) -> (j: Json)
    ensures
        json_view(j) == (if key@ == "name"@ { name_json(scalar_view(*val)) } else { scalar_json(scalar_view(*val), false) }),
{
    proof { reveal_strlit("name"); }
    if str_equals(key, "name") {
        match val {
            Scalar::String(t) => Json::Str(slugify(t.as_str())),
            _ => scalar_to_json(val),
        }
    } else {
        scalar_to_json(val)
    }
}

fn push_opt(m: &mut Vec<(String, Json)>, k: &str, v: Option<Json>)
    ensures
        json_members(final(m)@) == json_members(old(m)@) + opt_member(k@, opt_json_view(v)),
{
    match v {
        Some(j) => {
            push_member(m, k, j);
        },
        None => {
            assert(json_members(m@) + Seq::<(Seq<char>, JsonV)>::empty() =~= json_members(m@));
        },
    }
}

fn opt_string_json(o: &Option<String>) -> (r: Option<Json>)
    ensures
        opt_json_view(r) == opt_str(crate::ast::opt_view(*o)),
{
    match o {
        Some(t) => Some(Json::Str(t.clone())),
        None => None,
    }
}

proof fn lemma_world_keys()
    ensures
        "name"@ != "version"@,
        "name"@ != "description"@,
        "name"@ != "author"@,
        "name"@ != "seed"@,
        "version"@ != "description"@,
        "version"@ != "author"@,
        "version"@ != "seed"@,
        "description"@ != "author"@,
        "description"@ != "seed"@,
        "author"@ != "seed"@,
{
    reveal_strlit("name");
    reveal_strlit("version");
    reveal_strlit("description");
    reveal_strlit("author");
    reveal_strlit("seed");
    assert("name"@[0] != "seed"@[0]);
    assert("name"@.len() != "version"@.len());
    assert("name"@.len() != "description"@.len());
    assert("name"@.len() != "author"@.len());
    assert("version"@.len() != "description"@.len());
    assert("version"@.len() != "author"@.len());
    assert("version"@.len() != "seed"@.len());
    assert("description"@.len() != "author"@.len());
    assert("description"@.len() != "seed"@.len());
    assert("author"@.len() != "seed"@.len());
}

/// Build the `world` object from the entry file's `world:` blocks and the
/// start location and entry sequence that LINK settled.
pub fn build_world(files: &Vec<FileNode>, entry_path: &str, table: &SymbolTable) -> (j: Json)
    ensures
        json_view(j) == world_json(entry_world_fields(files@, entry_path@),
            crate::ast::opt_view(table.world_start), crate::ast::opt_view(table.world_entry)),
{
    let ghost fs = entry_world_fields(files@, entry_path@);
    let mut name: Option<Json> = None;
    let mut version: Option<Json> = None;
    let mut description: Option<Json> = None;
    let mut author: Option<Json> = None;
    let mut seed: Option<Json> = None;
    proof {
        crate::compile::lemma_first_path(files@, entry_path@);
        reveal_strlit("name");
        reveal_strlit("version");
        reveal_strlit("description");
        reveal_strlit("author");
        reveal_strlit("seed");
    }
    let mut q: usize = 0;
    let mut found: Option<usize> = None;
    while q < files.len()
        invariant_except_break
            found is None,
        invariant
            q <= files.len(),
            forall|k: int| 0 <= k < q ==> (#[trigger] files@[k]).path@ != entry_path@,
        ensures
            match found {
                Some(x) => x < files.len() && files@[x as int].path@ == entry_path@
                    && forall|k: int| 0 <= k < x ==> (#[trigger] files@[k]).path@ != entry_path@,
                None => forall|k: int| 0 <= k < files@.len() ==> (#[trigger] files@[k]).path@ != entry_path@,
            },
        decreases files.len() - q,
    {
        if str_equals(files[q].path.as_str(), entry_path) {
            found = Some(q);
            break;
        }
        q += 1;
    }
    proof {
        match found {
            Some(x) => {
                if first_path(files@, entry_path@) is Some {
                    let w = first_path(files@, entry_path@).unwrap();
                    if w < x { assert(files@[w].path@ != entry_path@); } else if w > x { assert(files@[x as int].path@ != entry_path@); }
                }
                assert(first_path(files@, entry_path@) == Some(x as int));
            },
            None => {
                if first_path(files@, entry_path@) is Some {
                    let w = first_path(files@, entry_path@).unwrap();
                    assert(files@[w].path@ != entry_path@);
                }
            },
        }
    }
    match found {
        Some(x) => {
            match &files[x].ast.frontmatter {
                Some(fm) => {
                    let es = &fm.entries;
                    proof { assert(es@.take(0) =~= Seq::<FrontmatterEntry>::empty()); }
                    let mut i: usize = 0;
                    while i < es.len()
                        invariant
                            i <= es.len(),
                            fs == world_fields(es@),
                            opt_json_view(name) == field_json(world_fields(es@.take(i as int)), "name"@),
                            opt_json_view(version) == field_json(world_fields(es@.take(i as int)), "version"@),
                            opt_json_view(description) == field_json(world_fields(es@.take(i as int)), "description"@),
                            opt_json_view(author) == field_json(world_fields(es@.take(i as int)), "author"@),
                            opt_json_view(seed) == field_json(world_fields(es@.take(i as int)), "seed"@),
                        decreases es.len() - i,
                    {
                        let ghost pre = world_fields(es@.take(i as int));
                        proof { assert(es@.take(i + 1).drop_last() =~= es@.take(i as int)); }
                        match &es[i].value {
                            FrontmatterValue::WorldBlock(wb) => {
                                let fields = &wb.fields;
                                proof { assert(pairs_view(fields@.take(0)) =~= Seq::<(Seq<char>, ScalarV)>::empty()); assert(pre + Seq::<(Seq<char>, ScalarV)>::empty() =~= pre); }
                                let mut k: usize = 0;
                                while k < fields.len()
                                    invariant
                                        k <= fields.len(),
                                        opt_json_view(name) == field_json(pre + pairs_view(fields@.take(k as int)), "name"@),
                                        opt_json_view(version) == field_json(pre + pairs_view(fields@.take(k as int)), "version"@),
                                        opt_json_view(description) == field_json(pre + pairs_view(fields@.take(k as int)), "description"@),
                                        opt_json_view(author) == field_json(pre + pairs_view(fields@.take(k as int)), "author"@),
                                        opt_json_view(seed) == field_json(pre + pairs_view(fields@.take(k as int)), "seed"@),
                                    decreases fields.len() - k,
                                {
                                    let ghost before = pre + pairs_view(fields@.take(k as int));
                                    let ghost x = (fields@[k as int].0@, scalar_view(fields@[k as int].1));
                                    proof {
                                        lemma_world_keys();
                                        assert(pre + pairs_view(fields@.take(k + 1)) =~= before.push(x));
                                        lemma_last_field_push(before, x, "name"@);
                                        lemma_last_field_push(before, x, "version"@);
                                        lemma_last_field_push(before, x, "description"@);
                                        lemma_last_field_push(before, x, "author"@);
                                        lemma_last_field_push(before, x, "seed"@);
                                    }
                                    let key = fields[k].0.as_str();
                                    let val = &fields[k].1;
                                    if str_equals(key, "name") {
                                        name = Some(world_field_json(key, val));
                                    } else if str_equals(key, "version") {
                                        version = Some(world_field_json(key, val));
                                    } else if str_equals(key, "description") {
                                        description = Some(world_field_json(key, val));
                                    } else if str_equals(key, "author") {
                                        author = Some(world_field_json(key, val));
                                    } else if str_equals(key, "seed") {
                                        seed = Some(world_field_json(key, val));
                                    }
                                    k += 1;
                                }
                                proof { assert(fields@.take(fields.len() as int) =~= fields@); }
                            },
                            _ => {
                                proof { assert(pre + Seq::<(Seq<char>, ScalarV)>::empty() =~= pre); }
                            },
                        }
                        i += 1;
                    }
                    proof { assert(es@.take(es.len() as int) =~= es@); }
                },
                None => {},
            }
        },
        None => {},
    }
    assert(opt_json_view(name) == field_json(fs, "name"@));
    assert(opt_json_view(version) == field_json(fs, "version"@));
    assert(opt_json_view(description) == field_json(fs, "description"@));
    assert(opt_json_view(author) == field_json(fs, "author"@));
    assert(opt_json_view(seed) == field_json(fs, "seed"@));
    proof {
        reveal_strlit("urd");
        reveal_strlit("1");
        reveal_strlit("start");
        reveal_strlit("entry");
    }
    let ghost st = crate::ast::opt_view(table.world_start);
    let ghost en = crate::ast::opt_view(table.world_entry);
    let mut m: Vec<(String, Json)> = Vec::new();
    proof { assert(json_members(m@) =~= Seq::<(Seq<char>, JsonV)>::empty()); }
    push_opt(&mut m, "name", name);
    let ghost e1 = opt_member("name"@, field_json(fs, "name"@));
    assert(json_members(m@) =~= e1);
    push_member(&mut m, "urd", Json::str("1"));
    let ghost e2 = e1 + seq![("urd"@, JsonV::Str("1"@))];
    assert(json_members(m@) =~= e2);
    push_opt(&mut m, "version", version);
    let ghost e3 = e2 + opt_member("version"@, field_json(fs, "version"@));
    assert(json_members(m@) =~= e3);
    push_opt(&mut m, "description", description);
    let ghost e4 = e3 + opt_member("description"@, field_json(fs, "description"@));
    assert(json_members(m@) =~= e4);
    push_opt(&mut m, "author", author);
    let ghost e5 = e4 + opt_member("author"@, field_json(fs, "author"@));
    assert(json_members(m@) =~= e5);
    push_opt(&mut m, "start", opt_string_json(&table.world_start));
    let ghost e6 = e5 + opt_member("start"@, opt_str(st));
    assert(json_members(m@) =~= e6);
    push_opt(&mut m, "entry", opt_string_json(&table.world_entry));
    let ghost e7 = e6 + opt_member("entry"@, opt_str(en));
    assert(json_members(m@) =~= e7);
    push_opt(&mut m, "seed", seed);
    let ghost e8 = e7 + opt_member("seed"@, field_json(fs, "seed"@));
    assert(json_members(m@) =~= e8);
    let j = Json::Object(m);
    assert(json_view(j) == JsonV::Object(e8));
    j
}

// ── Types and entities ──

/// A property type's name in the world JSON.
pub open spec fn type_name_text(t: PropertyType) -> Seq<char> {
    match t {
        PropertyType::Boolean => "boolean"@,
        PropertyType::Integer => "integer"@,
        PropertyType::Number => "number"@,
        PropertyType::String => "string"@,
        PropertyType::Enum => "enum"@,
        PropertyType::Ref => "ref"@,
        PropertyType::List => "list"@,
    }
}

/// An array of strings.
pub open spec fn str_array(v: Seq<Seq<char>>) -> JsonV {
    JsonV::Array(v.map_values(|t: Seq<char>| JsonV::Str(t)))
}

pub open spec fn members_if(c: bool, m: Seq<(Seq<char>, JsonV)>) -> Seq<(Seq<char>, JsonV)> {
    if c { m } else { Seq::empty() }
}

/// A property: its type, then its default, `visibility: "hidden"` for a
/// hidden one, description, enum values and referenced type, each where
/// it is given.
pub open spec fn prop_json(p: PropV) -> JsonV {
    JsonV::Object(
        seq![("type"@, JsonV::Str(type_name_text(p.1)))]
        + opt_member("default"@, match p.4.default { Some(d) => Some(scalar_json(d, true)), None => None })
        + members_if(p.3 == Visibility::Hidden, seq![("visibility"@, JsonV::Str("hidden"@))])
        + opt_member("description"@, opt_str(p.4.description))
        + opt_member("values"@, match p.2 { Some(v) => Some(str_array(v)), None => None })
        + opt_member("ref_type"@, opt_str(p.4.ref_type))
    )
}

/// A type: its traits and its properties by name, each where there are any.
pub open spec fn type_json(t: TypeV) -> JsonV {
    JsonV::Object(
        members_if(t.2.len() > 0, seq![("traits"@, str_array(t.2))])
        + members_if(t.3.len() > 0, seq![("properties"@, JsonV::Object(t.3.map_values(|p: PropV| (p.0, prop_json(p)))))])
    )
}

/// The `types` object: each type by name, in declaration order.
pub open spec fn types_json(es: Seq<(Seq<char>, TypeV)>) -> JsonV {
    JsonV::Object(es.map_values(|e: (Seq<char>, TypeV)| (e.0, type_json(e.1))))
}

/// An entity: its type, and its property overrides where there are any.
pub open spec fn entity_json(e: EntityV) -> JsonV {
    JsonV::Object(
        seq![("type"@, JsonV::Str(e.4))]
        + members_if(e.5.len() > 0, seq![("properties"@,
            JsonV::Object(e.5.map_values(|p: (Seq<char>, ScalarV)| (p.0, scalar_json(p.1, true)))))])
    )
}

/// The `entities` object: each entity by ID, in declaration order.
pub open spec fn entities_json(es: Seq<(Seq<char>, EntityV)>) -> JsonV {
    JsonV::Object(es.map_values(|e: (Seq<char>, EntityV)| (e.0, entity_json(e.1))))
}

fn strings_json(v: &Vec<String>) -> (j: Json)
    ensures
        json_view(j) == str_array(crate::ast::strings_view(v@)),
{
    let mut out: Vec<Json> = Vec::new();
    let mut i: usize = 0;
    proof { assert(json_views(out@) =~= v@.take(0).map_values(|t: String| JsonV::Str(t@))); }
    while i < v.len()
        invariant
            i <= v.len(),
            json_views(out@) == v@.take(i as int).map_values(|t: String| JsonV::Str(t@)),
        decreases v.len() - i,
    {
        let x = Json::Str(v[i].clone());
        proof { lemma_json_views_push(out@, x); }
        out.push(x);
        proof { assert(v@.take(i + 1).map_values(|t: String| JsonV::Str(t@)) =~= v@.take(i as int).map_values(|t: String| JsonV::Str(t@)).push(JsonV::Str(v@[i as int]@))); }
        i += 1;
    }
    proof {
        assert(v@.take(v.len() as int) =~= v@);
        assert(crate::ast::strings_view(v@).map_values(|t: Seq<char>| JsonV::Str(t)) =~= v@.map_values(|t: String| JsonV::Str(t@)));
    }
    Json::Array(out)
}

fn push_if(m: &mut Vec<(String, Json)>, c: bool, k: &str, v: Json)
    ensures
        json_members(final(m)@) == json_members(old(m)@) + members_if(c, seq![(k@, json_view(v))]),
{
    if c {
        push_member(m, k, v);
        assert(json_members(old(m)@).push((k@, json_view(v))) =~= json_members(old(m)@) + seq![(k@, json_view(v))]);
    } else {
        assert(json_members(m@) + Seq::<(Seq<char>, JsonV)>::empty() =~= json_members(m@));
    }
}

fn opt_value_json(o: &Option<Value>) -> (r: Option<Json>)
    ensures
        opt_json_view(r) == match crate::link::opt_value_sv(*o) { Some(d) => Some(scalar_json(d, true)), None => None },
{
    match o {
        Some(v) => Some(value_to_json(v)),
        None => None,
    }
}

fn opt_strings_json(o: &Option<Vec<String>>) -> (r: Option<Json>)
    ensures
        opt_json_view(r) == match crate::ast::opt_strings_view(*o) { Some(v) => Some(str_array(v)), None => None },
{
    match o {
        Some(v) => Some(strings_json(v)),
        None => None,
    }
}

/// A property as the world JSON writes it.
pub fn property_to_json(p: &PropertySymbol) -> (j: Json)
    ensures
        json_view(j) == prop_json(prop_view(*p)),
{
    let ghost pv = prop_view(*p);
    let tn: &str = match p.property_type {
        PropertyType::Boolean => "boolean",
        PropertyType::Integer => "integer",
        PropertyType::Number => "number",
        PropertyType::String => "string",
        PropertyType::Enum => "enum",
        PropertyType::Ref => "ref",
        PropertyType::List => "list",
    };
    let mut m: Vec<(String, Json)> = Vec::new();
    proof { assert(json_members(m@) =~= Seq::<(Seq<char>, JsonV)>::empty()); }
    push_member(&mut m, "type", Json::str(tn));
    let ghost e1 = seq![("type"@, JsonV::Str(type_name_text(pv.1)))];
    assert(json_members(m@) =~= e1);
    push_opt(&mut m, "default", opt_value_json(&p.default));
    let ghost e2 = e1 + opt_member("default"@, match pv.4.default { Some(d) => Some(scalar_json(d, true)), None => None });
    assert(json_members(m@) =~= e2);
    let hidden = match p.visibility { Visibility::Hidden => true, Visibility::Visible => false };
    push_if(&mut m, hidden, "visibility", Json::str("hidden"));
    let ghost e3 = e2 + members_if(pv.3 == Visibility::Hidden, seq![("visibility"@, JsonV::Str("hidden"@))]);
    assert(json_members(m@) =~= e3);
    push_opt(&mut m, "description", opt_string_json(&p.description));
    let ghost e4 = e3 + opt_member("description"@, opt_str(pv.4.description));
    assert(json_members(m@) =~= e4);
    push_opt(&mut m, "values", opt_strings_json(&p.values));
    let ghost e5 = e4 + opt_member("values"@, match pv.2 { Some(v) => Some(str_array(v)), None => None });
    assert(json_members(m@) =~= e5);
    push_opt(&mut m, "ref_type", opt_string_json(&p.ref_type));
    let ghost e6 = e5 + opt_member("ref_type"@, opt_str(pv.4.ref_type));
    assert(json_members(m@) =~= e6);
    Json::Object(m)
}

/// A type as the world JSON writes it.
pub fn type_to_json(t: &TypeSymbol) -> (j: Json)
    ensures
        json_view(j) == type_json(type_view(*t)),
{
    let ghost tv = type_view(*t);
    let ghost ps = t.properties@.map_values(|p: PropertySymbol| prop_view(p));
    let mut m: Vec<(String, Json)> = Vec::new();
    proof { assert(json_members(m@) =~= Seq::<(Seq<char>, JsonV)>::empty()); }
    let tr = strings_json(&t.traits);
    proof { assert(crate::ast::strings_view(t.traits@).len() == t.traits@.len()); }
    push_if(&mut m, t.traits.len() > 0, "traits", tr);
    let ghost e1 = members_if(tv.2.len() > 0, seq![("traits"@, str_array(tv.2))]);
    assert(json_members(m@) =~= e1);
    let mut props: Vec<(String, Json)> = Vec::new();
    let mut i: usize = 0;
    proof { assert(json_members(props@) =~= ps.take(0).map_values(|p: PropV| (p.0, prop_json(p)))); }
    while i < t.properties.len()
        invariant
            i <= t.properties.len(),
            ps == t.properties@.map_values(|p: PropertySymbol| prop_view(p)),
            json_members(props@) == ps.take(i as int).map_values(|p: PropV| (p.0, prop_json(p))),
        decreases t.properties.len() - i,
    {
        let x = (t.properties[i].name.clone(), property_to_json(&t.properties[i]));
        proof { lemma_json_members_push(props@, x); }
        props.push(x);
        proof {
            assert(ps[i as int] == prop_view(t.properties@[i as int]));
            assert(ps.take(i + 1).map_values(|p: PropV| (p.0, prop_json(p))) =~= ps.take(i as int).map_values(|p: PropV| (p.0, prop_json(p))).push((ps[i as int].0, prop_json(ps[i as int]))));
        }
        i += 1;
    }
    proof { assert(ps.take(ps.len() as int) =~= ps); }
    push_if(&mut m, t.properties.len() > 0, "properties", Json::Object(props));
    let ghost e2 = e1 + members_if(tv.3.len() > 0, seq![("properties"@, JsonV::Object(tv.3.map_values(|p: PropV| (p.0, prop_json(p)))))]);
    assert(json_members(m@) =~= e2);
    Json::Object(m)
}

/// An entity as the world JSON writes it.
pub fn entity_to_json(e: &EntitySymbol) -> (j: Json)
    ensures
        json_view(j) == entity_json(entity_view(*e)),
{
    let ghost ev = entity_view(*e);
    let ghost ps = value_pairs_sv(e.property_overrides@);
    let mut m: Vec<(String, Json)> = Vec::new();
    proof { assert(json_members(m@) =~= Seq::<(Seq<char>, JsonV)>::empty()); }
    push_member(&mut m, "type", Json::Str(e.entity_type.clone()));
    let ghost e1 = seq![("type"@, JsonV::Str(ev.4))];
    assert(json_members(m@) =~= e1);
    let mut props: Vec<(String, Json)> = Vec::new();
    let mut i: usize = 0;
    proof { assert(json_members(props@) =~= ps.take(0).map_values(|p: (Seq<char>, ScalarV)| (p.0, scalar_json(p.1, true)))); }
    while i < e.property_overrides.len()
        invariant
            i <= e.property_overrides.len(),
            ps == value_pairs_sv(e.property_overrides@),
            json_members(props@) == ps.take(i as int).map_values(|p: (Seq<char>, ScalarV)| (p.0, scalar_json(p.1, true))),
        decreases e.property_overrides.len() - i,
    {
        let x = (e.property_overrides[i].0.clone(), value_to_json(&e.property_overrides[i].1));
        proof { lemma_json_members_push(props@, x); }
        props.push(x);
        proof {
            assert(ps[i as int] == (e.property_overrides@[i as int].0@, value_sv(e.property_overrides@[i as int].1)));
            assert(ps.take(i + 1).map_values(|p: (Seq<char>, ScalarV)| (p.0, scalar_json(p.1, true))) =~= ps.take(i as int).map_values(|p: (Seq<char>, ScalarV)| (p.0, scalar_json(p.1, true))).push((ps[i as int].0, scalar_json(ps[i as int].1, true))));
        }
        i += 1;
    }
    proof { assert(ps.take(ps.len() as int) =~= ps); }
    push_if(&mut m, e.property_overrides.len() > 0, "properties", Json::Object(props));
    let ghost e2 = e1 + members_if(ev.5.len() > 0, seq![("properties"@,
            JsonV::Object(ev.5.map_values(|p: (Seq<char>, ScalarV)| (p.0, scalar_json(p.1, true)))))]);
    assert(json_members(m@) =~= e2);
    Json::Object(m)
}

/// The `types` object of the symbol table.
pub fn build_types(table: &SymbolTable) -> (j: Json)
    ensures
        json_view(j) == types_json(type_entries(table.types)),
{
    let ghost ents = type_entries(table.types);
    let keys = crate::link::type_keys(&table.types);
    proof { assert(keys_of(ents).len() == ents.len()); assert(crate::ast::strings_view(keys@).len() == keys@.len()); }
    let mut m: Vec<(String, Json)> = Vec::new();
    proof { assert(json_members(m@) =~= ents.take(0).map_values(|e: (Seq<char>, TypeV)| (e.0, type_json(e.1)))); }
    let mut i: usize = 0;
    while i < keys.len()
        invariant
            i <= keys.len(),
            ents == type_entries(table.types),
            crate::ast::strings_view(keys@) == keys_of(ents),
            crate::ast::strings_view(keys@).no_duplicates(),
            keys@.len() == ents.len(),
            json_members(m@) == ents.take(i as int).map_values(|e: (Seq<char>, TypeV)| (e.0, type_json(e.1))),
        decreases keys.len() - i,
    {
        proof {
            assert(crate::ast::strings_view(keys@)[i as int] == keys@[i as int]@);
            assert(keys_of(ents)[i as int] == ents[i as int].0);
            assert forall|j: int| 0 <= j < i implies (#[trigger] ents[j]).0 != keys@[i as int]@ by {
                assert(keys_of(ents)[j] == ents[j].0);
                assert(crate::ast::strings_view(keys@)[j] == keys@[j]@);
            }
            crate::link::lemma_key_index_first(ents, keys@[i as int]@, i as int);
        }
        let ts = crate::link::type_get(&table.types, keys[i].as_str()).unwrap();
        let x = (keys[i].clone(), type_to_json(ts));
        proof { lemma_json_members_push(m@, x); }
        m.push(x);
        proof {
            assert(ents.take(i + 1).map_values(|e: (Seq<char>, TypeV)| (e.0, type_json(e.1))) =~= ents.take(i as int).map_values(|e: (Seq<char>, TypeV)| (e.0, type_json(e.1))).push((ents[i as int].0, type_json(ents[i as int].1))));
        }
        i += 1;
    }
    proof { assert(ents.take(ents.len() as int) =~= ents); }
    Json::Object(m)
}

/// The `entities` object of the symbol table.
pub fn build_entities(table: &SymbolTable) -> (j: Json)
    ensures
        json_view(j) == entities_json(entity_entries(table.entities)),
{
    let ghost ents = entity_entries(table.entities);
    let keys = crate::link::entity_keys(&table.entities);
    proof { assert(keys_of(ents).len() == ents.len()); assert(crate::ast::strings_view(keys@).len() == keys@.len()); }
    let mut m: Vec<(String, Json)> = Vec::new();
    proof { assert(json_members(m@) =~= ents.take(0).map_values(|e: (Seq<char>, EntityV)| (e.0, entity_json(e.1)))); }
    let mut i: usize = 0;
    while i < keys.len()
        invariant
            i <= keys.len(),
            ents == entity_entries(table.entities),
            crate::ast::strings_view(keys@) == keys_of(ents),
            crate::ast::strings_view(keys@).no_duplicates(),
            keys@.len() == ents.len(),
            json_members(m@) == ents.take(i as int).map_values(|e: (Seq<char>, EntityV)| (e.0, entity_json(e.1))),
        decreases keys.len() - i,
    {
        proof {
            assert(crate::ast::strings_view(keys@)[i as int] == keys@[i as int]@);
            assert(keys_of(ents)[i as int] == ents[i as int].0);
            assert forall|j: int| 0 <= j < i implies (#[trigger] ents[j]).0 != keys@[i as int]@ by {
                assert(keys_of(ents)[j] == ents[j].0);
                assert(crate::ast::strings_view(keys@)[j] == keys@[j]@);
            }
            crate::link::lemma_key_index_first(ents, keys@[i as int]@, i as int);
        }
        let es = crate::link::entity_get(&table.entities, keys[i].as_str()).unwrap();
        let x = (keys[i].clone(), entity_to_json(es));
        proof { lemma_json_members_push(m@, x); }
        m.push(x);
        proof {
            assert(ents.take(i + 1).map_values(|e: (Seq<char>, EntityV)| (e.0, entity_json(e.1))) =~= ents.take(i as int).map_values(|e: (Seq<char>, EntityV)| (e.0, entity_json(e.1))).push((ents[i as int].0, entity_json(ents[i as int].1))));
        }
        i += 1;
    }
    proof { assert(ents.take(ents.len() as int) =~= ents); }
    Json::Object(m)
}

/// The compiled world document: `world`, then `types`, `entities`,
/// `locations`, `rules`, `actions` and `sequences` where the symbol table
/// has any.
pub open spec fn world_document(files: Seq<FileNode>, entry: Seq<char>, t: SymbolTable) -> JsonV {
    JsonV::Object(
        seq![("world"@, world_json(entry_world_fields(files, entry), crate::ast::opt_view(t.world_start),
            crate::ast::opt_view(t.world_entry)))]
        + members_if(type_entries(t.types).len() > 0, seq![("types"@, types_json(type_entries(t.types)))])
        + members_if(entity_entries(t.entities).len() > 0, seq![("entities"@, entities_json(entity_entries(t.entities)))])
        + members_if(location_entries(t.locations).len() > 0, seq![("locations"@, locations_json(files, t))])
        + members_if(rule_entries(t.rules).len() > 0, seq![("rules"@, rules_json(files, t))])
        + members_if(action_entries(t.actions).len() > 0, seq![("actions"@, actions_json(files, t))])
        + members_if(sequence_entries(t.sequences).len() > 0, seq![("sequences"@, sequences_json(sequence_entries(t.sequences)))])
    )
}

/// The world document as a JSON value.
pub fn world_to_json(files: &Vec<FileNode>, entry_path: &str, table: &SymbolTable) -> (j: Json)
    ensures
        json_view(j) == world_document(files@, entry_path@, *table),
{
    let mut m: Vec<(String, Json)> = Vec::new();
    proof { assert(json_members(m@) =~= Seq::<(Seq<char>, JsonV)>::empty()); }
    push_member(&mut m, "world", build_world(files, entry_path, table));
    let ghost e1 = seq![("world"@, world_json(entry_world_fields(files@, entry_path@), crate::ast::opt_view(table.world_start),
            crate::ast::opt_view(table.world_entry)))];
    assert(json_members(m@) =~= e1);
    let tkeys = crate::link::type_keys(&table.types);
    proof { assert(keys_of(type_entries(table.types)).len() == type_entries(table.types).len()); }
    let types = build_types(table);
    push_if(&mut m, tkeys.len() > 0, "types", types);
    let ghost e2 = e1 + members_if(type_entries(table.types).len() > 0, seq![("types"@, types_json(type_entries(table.types)))]);
    assert(json_members(m@) =~= e2);
    let ekeys = crate::link::entity_keys(&table.entities);
    proof { assert(keys_of(entity_entries(table.entities)).len() == entity_entries(table.entities).len()); }
    let entities = build_entities(table);
    push_if(&mut m, ekeys.len() > 0, "entities", entities);
    let ghost e3 = e2 + members_if(entity_entries(table.entities).len() > 0, seq![("entities"@, entities_json(entity_entries(table.entities)))]);
    assert(json_members(m@) =~= e3);
    let lkeys = crate::link::location_keys(&table.locations);
    proof { assert(keys_of(location_entries(table.locations)).len() == location_entries(table.locations).len()); }
    let locations = build_locations(files, table);
    push_if(&mut m, lkeys.len() > 0, "locations", locations);
    let ghost e4 = e3 + members_if(location_entries(table.locations).len() > 0, seq![("locations"@, locations_json(files@, *table))]);
    assert(json_members(m@) =~= e4);
    let rkeys = crate::link::rule_keys(&table.rules);
    proof { assert(keys_of(rule_entries(table.rules)).len() == rule_entries(table.rules).len()); }
    let rules = build_rules(files, table);
    push_if(&mut m, rkeys.len() > 0, "rules", rules);
    let ghost e4r = e4 + members_if(rule_entries(table.rules).len() > 0, seq![("rules"@, rules_json(files@, *table))]);
    assert(json_members(m@) =~= e4r);
    let akeys = crate::link::action_keys(&table.actions);
    proof { assert(keys_of(action_entries(table.actions)).len() == action_entries(table.actions).len()); }
    let actions = build_actions(files, table);
    push_if(&mut m, akeys.len() > 0, "actions", actions);
    let ghost e4a = e4r + members_if(action_entries(table.actions).len() > 0, seq![("actions"@, actions_json(files@, *table))]);
    assert(json_members(m@) =~= e4a);
    let qkeys = crate::link::sequence_keys(&table.sequences);
    proof { assert(keys_of(sequence_entries(table.sequences)).len() == sequence_entries(table.sequences).len()); }
    let sequences = build_sequences(table);
    push_if(&mut m, qkeys.len() > 0, "sequences", sequences);
    let ghost e5 = e4a + members_if(sequence_entries(table.sequences).len() > 0, seq![("sequences"@, sequences_json(sequence_entries(table.sequences)))]);
    assert(json_members(m@) =~= e5);
    Json::Object(m)
}

/// EMIT: the compiled `.urd.json` text of the linked world, written by
/// serde_json's indented form and ended with a newline. It is a function
/// of the files, the entry path and the symbol table alone.
pub fn emit(files: &Vec<FileNode>, entry_path: &str, table: &SymbolTable) -> (s: String)
    ensures
        s@ == json_pretty_text(world_document(files@, entry_path@, *table)) + "\n"@,
{
    let doc = world_to_json(files, entry_path, table);
    let text = doc.to_pretty_text();
    let mut v = chars_of(text.as_str());
    v.push('\n');
    proof { reveal_strlit("\n"); assert(v@ =~= text@ + "\n"@); }
    string_from_chars(v)
}

// ── Locations ──

/// Scanning a file's content for the description of location `id`: the
/// current location, whether prose still describes it, the prose blocks
/// pending for it, and the blocks found for `id` so far. A location's
/// description is the trimmed, non-empty prose after its heading, up to
/// its first exit, entity placement, section, choice or sequence heading.
pub open spec fn desc_scan(c: Seq<ContentNode>, id: Seq<char>) -> (Option<Seq<char>>, bool, Seq<Seq<char>>, Seq<Seq<char>>)
    decreases c.len(),
{
    if c.len() == 0 {
        (None, false, Seq::empty(), Seq::empty())
    } else {
        let p = desc_scan(c.drop_last(), id);
        match c.last() {
            ContentNode::LocationHeading(h) =>
                (Some(spec_slugify(h.display_name@)), true, Seq::empty(), if p.0 == Some(id) { p.3 + p.2 } else { p.3 }),
            ContentNode::Prose(pr) =>
                if p.1 && trim(pr.text@).len() > 0 { (p.0, p.1, p.2.push(trim(pr.text@)), p.3) } else { p },
            ContentNode::ExitDeclaration(_) => (p.0, false, p.2, p.3),
            ContentNode::EntityPresence(_) => (p.0, false, p.2, p.3),
            ContentNode::SectionLabel(_) => (p.0, false, p.2, p.3),
            ContentNode::Choice(_) => (p.0, false, p.2, p.3),
            ContentNode::SequenceHeading(_) => (p.0, false, p.2, p.3),
            ContentNode::PhaseHeading(_) => (p.0, false, p.2, p.3),
            _ => p,
        }
    }
}

/// The description blocks of location `id` in one file.
pub open spec fn file_desc(c: Seq<ContentNode>, id: Seq<char>) -> Seq<Seq<char>> {
    let p = desc_scan(c, id);
    if p.0 == Some(id) { p.3 + p.2 } else { p.3 }
}

/// The description blocks of location `id` over the files, in order.
pub open spec fn files_desc(files: Seq<FileNode>, id: Seq<char>) -> Seq<Seq<char>>
    decreases files.len(),
{
    if files.len() == 0 {
        Seq::empty()
    } else {
        files_desc(files.drop_last(), id) + file_desc(files.last().ast.content@, id)
    }
}

/// Scanning a file's content for the exit `dir` of location `id`: the
/// current location, and the last such exit declaration so far.
pub open spec fn exit_scan(c: Seq<ContentNode>, id: Seq<char>, dir: Seq<char>) -> (Option<Seq<char>>, Option<ExitDeclaration>)
    decreases c.len(),
{
    if c.len() == 0 {
        (None, None)
    } else {
        let p = exit_scan(c.drop_last(), id, dir);
        match c.last() {
            ContentNode::LocationHeading(h) => (Some(spec_slugify(h.display_name@)), p.1),
            ContentNode::ExitDeclaration(x) =>
                (p.0, if p.0 == Some(id) && x.direction@ == dir { Some(x) } else { p.1 }),
            _ => p,
        }
    }
}

/// The last declaration of exit `dir` under location `id` over the files.
pub open spec fn files_exit(files: Seq<FileNode>, id: Seq<char>, dir: Seq<char>) -> Option<ExitDeclaration>
    decreases files.len(),
{
    if files.len() == 0 {
        None
    } else {
        match exit_scan(files.last().ast.content@, id, dir).1 {
            Some(x) => Some(x),
            None => files_exit(files.drop_last(), id, dir),
        }
    }
}

/// The last condition among an exit's children, written out.
pub open spec fn last_condition(c: Seq<ContentNode>) -> Option<Seq<char>>
    decreases c.len(),
{
    if c.len() == 0 {
        None
    } else {
        match c.last() {
            ContentNode::Condition(cd) => Some(condition_text(cd.expr)),
            _ => last_condition(c.drop_last()),
        }
    }
}

/// The last blocked message among an exit's children.
pub open spec fn last_blocked(c: Seq<ContentNode>) -> Option<Seq<char>>
    decreases c.len(),
{
    if c.len() == 0 {
        None
    } else {
        match c.last() {
            ContentNode::BlockedMessage(b) => Some(b.text@),
            _ => last_blocked(c.drop_last()),
        }
    }
}

/// The effects among an exit's children, written out, in order.
pub open spec fn effects_json(c: Seq<ContentNode>, types: Seq<(Seq<char>, TypeV)>) -> Seq<JsonV>
    decreases c.len(),
{
    if c.len() == 0 {
        Seq::empty()
    } else {
        match c.last() {
            ContentNode::Effect(e) => effects_json(c.drop_last(), types).push(effect_json(e.effect_type, e.annotation, types)),
            _ => effects_json(c.drop_last(), types),
        }
    }
}

/// An exit: its destination, then the condition, blocked message and
/// effects of its declaration, each where there is one.
pub open spec fn exit_json(files: Seq<FileNode>, types: Seq<(Seq<char>, TypeV)>, id: Seq<char>, x: ExitV) -> JsonV {
    JsonV::Object(
        opt_member("to"@, opt_str(x.1))
        + match files_exit(files, id, x.0) {
            Some(ed) => {
                let c = ed.children@;
                opt_member("condition"@, opt_str(last_condition(c)))
                + opt_member("blocked_message"@, opt_str(last_blocked(c)))
                + members_if(effects_json(c, types).len() > 0, seq![("effects"@, JsonV::Array(effects_json(c, types)))])
            },
            None => Seq::empty(),
        }
    )
}

/// A location: its description (the blocks joined by a blank line), the
/// entities it contains (without `@`), and its exits by direction, each
/// where there is any.
pub open spec fn location_json(files: Seq<FileNode>, types: Seq<(Seq<char>, TypeV)>, id: Seq<char>, l: LocationV) -> JsonV {
    JsonV::Object(
        members_if(files_desc(files, id).len() > 0, seq![("description"@, JsonV::Str(join_with(files_desc(files, id), "\n\n"@)))])
        + members_if(l.2.len() > 0, seq![("contains"@, JsonV::Array(l.2.map_values(|e: Seq<char>| JsonV::Str(without_at(e)))))])
        + members_if(l.1.len() > 0, seq![("exits"@, JsonV::Object(l.1.map_values(|x: ExitV| (x.0, exit_json(files, types, id, x)))))])
    )
}

/// The `locations` object: each location by ID, in declaration order.
pub open spec fn locations_json(files: Seq<FileNode>, t: SymbolTable) -> JsonV {
    JsonV::Object(location_entries(t.locations).map_values(|e: (Seq<char>, LocationV)|
        (e.0, location_json(files, type_entries(t.types), e.0, e.1))))
}

fn opt_eq(o: &Option<String>, id: &str) -> (b: bool)
    ensures
        b == (crate::ast::opt_view(*o) == Some(id@)),
{
    match o {
        Some(c) => str_equals(c.as_str(), id),
        None => false,
    }
}

/// The description blocks of location `id` in one file's content.
fn file_description(c: &Vec<ContentNode>, id: &str) -> (r: Vec<Vec<char>>)
    ensures
        views(r@) == file_desc(c@, id@),
{
    let mut cur: Option<String> = None;
    let mut zone = false;
    let mut pend: Vec<Vec<char>> = Vec::new();
    let mut found: Vec<Vec<char>> = Vec::new();
    let mut k: usize = 0;
    proof { assert(c@.take(0) =~= Seq::<ContentNode>::empty()); assert(views(pend@) =~= Seq::<Seq<char>>::empty()); assert(views(found@) =~= Seq::<Seq<char>>::empty()); }
    while k < c.len()
        invariant
            k <= c.len(),
            desc_scan(c@.take(k as int), id@) == (crate::ast::opt_view(cur), zone, views(pend@), views(found@)),
        decreases c.len() - k,
    {
        proof { assert(c@.take(k + 1).drop_last() =~= c@.take(k as int)); assert(c@.take(k + 1).last() == c@[k as int]); }
        match &c[k] {
            ContentNode::LocationHeading(h) => {
                if opt_eq(&cur, id) {
                    let ghost f0 = views(found@);
                    let ghost p0 = views(pend@);
                    found.append(&mut pend);
                    proof { assert(views(found@) =~= f0 + p0); }
                }
                cur = Some(slugify(h.display_name.as_str()));
                zone = true;
                pend = Vec::new();
                proof { assert(views(pend@) =~= Seq::<Seq<char>>::empty()); }
            },
            ContentNode::Prose(pr) => {
                if zone {
                    let t = trim_chars(&chars_of(pr.text.as_str()));
                    if t.len() > 0 {
                        let ghost p0 = views(pend@);
                        pend.push(t);
                        proof { assert(views(pend@) =~= p0.push(trim(pr.text@))); }
                    }
                }
            },
            ContentNode::ExitDeclaration(_) => { zone = false; },
            ContentNode::EntityPresence(_) => { zone = false; },
            ContentNode::SectionLabel(_) => { zone = false; },
            ContentNode::Choice(_) => { zone = false; },
            ContentNode::SequenceHeading(_) => { zone = false; },
            ContentNode::PhaseHeading(_) => { zone = false; },
            _ => {},
        }
        k += 1;
    }
    proof { assert(c@.take(c.len() as int) =~= c@); }
    if opt_eq(&cur, id) {
        let ghost f0 = views(found@);
        let ghost p0 = views(pend@);
        found.append(&mut pend);
        proof { assert(views(found@) =~= f0 + p0); }
    }
    found
}

/// The description blocks of location `id` over the files.
fn description_of(files: &Vec<FileNode>, id: &str) -> (r: Vec<Vec<char>>)
    ensures
        views(r@) == files_desc(files@, id@),
{
    let mut out: Vec<Vec<char>> = Vec::new();
    let mut f: usize = 0;
    proof { assert(files@.take(0) =~= Seq::<FileNode>::empty()); assert(views(out@) =~= Seq::<Seq<char>>::empty()); }
    while f < files.len()
        invariant
            f <= files.len(),
            views(out@) == files_desc(files@.take(f as int), id@),
        decreases files.len() - f,
    {
        let mut more = file_description(&files[f].ast.content, id);
        let ghost o0 = views(out@);
        let ghost m0 = views(more@);
        out.append(&mut more);
        proof {
            assert(views(out@) =~= o0 + m0);
            assert(files@.take(f + 1).drop_last() =~= files@.take(f as int));
        }
        f += 1;
    }
    proof { assert(files@.take(files.len() as int) =~= files@); }
    out
}

/// The last declaration of exit `dir` under location `id` in one file.
fn file_exit<'a>(c: &'a Vec<ContentNode>, id: &str, dir: &str) -> (r: Option<&'a ExitDeclaration>)
    ensures
        match r {
            Some(x) => exit_scan(c@, id@, dir@).1 == Some(*x),
            None => exit_scan(c@, id@, dir@).1 is None,
        },
{
    let mut cur: Option<String> = None;
    let mut found: Option<&ExitDeclaration> = None;
    let mut k: usize = 0;
    proof { assert(c@.take(0) =~= Seq::<ContentNode>::empty()); }
    while k < c.len()
        invariant
            k <= c.len(),
            exit_scan(c@.take(k as int), id@, dir@).0 == crate::ast::opt_view(cur),
            match found {
                Some(x) => exit_scan(c@.take(k as int), id@, dir@).1 == Some(*x),
                None => exit_scan(c@.take(k as int), id@, dir@).1 is None,
            },
        decreases c.len() - k,
    {
        proof { assert(c@.take(k + 1).drop_last() =~= c@.take(k as int)); assert(c@.take(k + 1).last() == c@[k as int]); }
        match &c[k] {
            ContentNode::LocationHeading(h) => {
                cur = Some(slugify(h.display_name.as_str()));
            },
            ContentNode::ExitDeclaration(x) => {
                if opt_eq(&cur, id) && str_equals(x.direction.as_str(), dir) {
                    found = Some(x);
                }
            },
            _ => {},
        }
        k += 1;
    }
    proof { assert(c@.take(c.len() as int) =~= c@); }
    found
}

/// The last declaration of exit `dir` under location `id` over the files.
fn exit_decl_of<'a>(files: &'a Vec<FileNode>, id: &str, dir: &str) -> (r: Option<&'a ExitDeclaration>)
    ensures
        match r {
            Some(x) => files_exit(files@, id@, dir@) == Some(*x),
            None => files_exit(files@, id@, dir@) is None,
        },
{
    let mut found: Option<&ExitDeclaration> = None;
    let mut f: usize = 0;
    proof { assert(files@.take(0) =~= Seq::<FileNode>::empty()); }
    while f < files.len()
        invariant
            f <= files.len(),
            match found {
                Some(x) => files_exit(files@.take(f as int), id@, dir@) == Some(*x),
                None => files_exit(files@.take(f as int), id@, dir@) is None,
            },
        decreases files.len() - f,
    {
        proof { assert(files@.take(f + 1).drop_last() =~= files@.take(f as int)); assert(files@.take(f + 1).last() == files@[f as int]); }
        match file_exit(&files[f].ast.content, id, dir) {
            Some(x) => { found = Some(x); },
            None => {},
        }
        f += 1;
    }
    proof { assert(files@.take(files.len() as int) =~= files@); }
    found
}

/// The condition, blocked message and effects among an exit's children.
fn exit_content(c: &Vec<ContentNode>, table: &SymbolTable) -> (r: (Option<String>, Option<String>, Vec<Json>))
    ensures
        crate::ast::opt_view(r.0) == last_condition(c@),
        crate::ast::opt_view(r.1) == last_blocked(c@),
        json_views(r.2@) == effects_json(c@, type_entries(table.types)),
{
    let ghost types = type_entries(table.types);
    let mut cond: Option<String> = None;
    let mut blocked: Option<String> = None;
    let mut effects: Vec<Json> = Vec::new();
    let mut k: usize = 0;
    proof { assert(c@.take(0) =~= Seq::<ContentNode>::empty()); assert(json_views(effects@) =~= Seq::<JsonV>::empty()); }
    while k < c.len()
        invariant
            k <= c.len(),
            types == type_entries(table.types),
            crate::ast::opt_view(cond) == last_condition(c@.take(k as int)),
            crate::ast::opt_view(blocked) == last_blocked(c@.take(k as int)),
            json_views(effects@) == effects_json(c@.take(k as int), types),
        decreases c.len() - k,
    {
        proof { assert(c@.take(k + 1).drop_last() =~= c@.take(k as int)); assert(c@.take(k + 1).last() == c@[k as int]); }
        match &c[k] {
            ContentNode::Condition(cd) => {
                cond = Some(lower_condition(&cd.expr));
            },
            ContentNode::BlockedMessage(b) => {
                blocked = Some(b.text.clone());
            },
            ContentNode::Effect(e) => {
                let x = lower_effect(&e.effect_type, &e.annotation, table);
                proof { lemma_json_views_push(effects@, x); }
                effects.push(x);
            },
            _ => {},
        }
        k += 1;
    }
    proof { assert(c@.take(c.len() as int) =~= c@); }
    (cond, blocked, effects)
}

/// An exit of location `id` as the world JSON writes it.
fn exit_to_json(files: &Vec<FileNode>, table: &SymbolTable, id: &str, x: &crate::symbol_table::ExitSymbol) -> (j: Json)
    ensures
        json_view(j) == exit_json(files@, type_entries(table.types), id@, exit_view(*x)),
{
    let ghost types = type_entries(table.types);
    let mut m: Vec<(String, Json)> = Vec::new();
    proof { assert(json_members(m@) =~= Seq::<(Seq<char>, JsonV)>::empty()); }
    push_opt(&mut m, "to", opt_string_json(&x.resolved_destination));
    let ghost e1 = opt_member("to"@, opt_str(crate::ast::opt_view(x.resolved_destination)));
    assert(json_members(m@) =~= e1);
    match exit_decl_of(files, id, x.direction.as_str()) {
        Some(ed) => {
            let (cond, blocked, effects) = exit_content(&ed.children, table);
            let ghost c = ed.children@;
            let n = effects.len();
            push_opt(&mut m, "condition", opt_string_json(&cond));
            let ghost e2 = e1 + opt_member("condition"@, opt_str(last_condition(c)));
            assert(json_members(m@) =~= e2);
            push_opt(&mut m, "blocked_message", opt_string_json(&blocked));
            let ghost e3 = e2 + opt_member("blocked_message"@, opt_str(last_blocked(c)));
            assert(json_members(m@) =~= e3);
            proof { assert(json_views(effects@).len() == effects@.len()) by { lemma_json_views_len(effects@); } }
            push_if(&mut m, n > 0, "effects", Json::Array(effects));
            let ghost e4 = e3 + members_if(effects_json(c, types).len() > 0, seq![("effects"@, JsonV::Array(effects_json(c, types)))]);
            assert(json_members(m@) =~= e4);
            assert(e4 =~= e1 + (opt_member("condition"@, opt_str(last_condition(c)))
                + opt_member("blocked_message"@, opt_str(last_blocked(c)))
                + members_if(effects_json(c, types).len() > 0, seq![("effects"@, JsonV::Array(effects_json(c, types)))])));
            assert(files_exit(files@, id@, exit_view(*x).0) == Some(*ed));
        },
        None => {
            assert(json_members(m@) =~= e1 + Seq::<(Seq<char>, JsonV)>::empty());
            assert(files_exit(files@, id@, exit_view(*x).0) is None);
        },
    }
    Json::Object(m)
}

proof fn lemma_json_views_len(s: Seq<Json>)
    ensures
        json_views(s).len() == s.len(),
    decreases s.len(),
{
    if s.len() > 0 {
        lemma_json_views_len(s.subrange(0, s.len() - 1));
    }
}

/// A location as the world JSON writes it.
fn location_to_json(files: &Vec<FileNode>, table: &SymbolTable, id: &str, l: &crate::symbol_table::LocationSymbol) -> (j: Json)
    ensures
        json_view(j) == location_json(files@, type_entries(table.types), id@, location_view(*l)),
{
    let ghost types = type_entries(table.types);
    let ghost lv = location_view(*l);
    let mut m: Vec<(String, Json)> = Vec::new();
    proof { assert(json_members(m@) =~= Seq::<(Seq<char>, JsonV)>::empty()); }
    let blocks = description_of(files, id);
    let n = blocks.len();
    proof { assert(views(blocks@).len() == blocks@.len()); reveal_strlit("\n\n"); }
    let text = join_chars(&blocks, "\n\n");
    push_if(&mut m, n > 0, "description", Json::Str(string_from_chars(text)));
    let ghost e1 = members_if(files_desc(files@, id@).len() > 0, seq![("description"@, JsonV::Str(join_with(files_desc(files@, id@), "\n\n"@)))]);
    assert(json_members(m@) =~= e1);
    let mut cs: Vec<Json> = Vec::new();
    let mut i: usize = 0;
    proof { assert(json_views(cs@) =~= l.contains@.take(0).map_values(|e: String| JsonV::Str(without_at(e@)))); }
    while i < l.contains.len()
        invariant
            i <= l.contains.len(),
            json_views(cs@) == l.contains@.take(i as int).map_values(|e: String| JsonV::Str(without_at(e@))),
        decreases l.contains.len() - i,
    {
        let x = Json::Str(strip_at(l.contains[i].as_str()));
        proof { lemma_json_views_push(cs@, x); }
        cs.push(x);
        proof { assert(l.contains@.take(i + 1).map_values(|e: String| JsonV::Str(without_at(e@))) =~= l.contains@.take(i as int).map_values(|e: String| JsonV::Str(without_at(e@))).push(JsonV::Str(without_at(l.contains@[i as int]@)))); }
        i += 1;
    }
    proof {
        assert(l.contains@.take(l.contains.len() as int) =~= l.contains@);
        assert(lv.2.map_values(|e: Seq<char>| JsonV::Str(without_at(e))) =~= l.contains@.map_values(|e: String| JsonV::Str(without_at(e@))));
    }
    push_if(&mut m, l.contains.len() > 0, "contains", Json::Array(cs));
    let ghost e2 = e1 + members_if(lv.2.len() > 0, seq![("contains"@, JsonV::Array(lv.2.map_values(|e: Seq<char>| JsonV::Str(without_at(e)))))]);
    assert(json_members(m@) =~= e2);
    let mut xs: Vec<(String, Json)> = Vec::new();
    let mut k: usize = 0;
    proof { assert(json_members(xs@) =~= lv.1.take(0).map_values(|x: ExitV| (x.0, exit_json(files@, types, id@, x)))); }
    while k < l.exits.len()
        invariant
            k <= l.exits.len(),
            types == type_entries(table.types),
            lv == location_view(*l),
            json_members(xs@) == lv.1.take(k as int).map_values(|x: ExitV| (x.0, exit_json(files@, types, id@, x))),
        decreases l.exits.len() - k,
    {
        let x = (l.exits[k].direction.clone(), exit_to_json(files, table, id, &l.exits[k]));
        proof { crate::json::lemma_json_members_push(xs@, x); }
        xs.push(x);
        proof {
            assert(lv.1[k as int] == exit_view(l.exits@[k as int]));
            assert(lv.1.take(k + 1).map_values(|x: ExitV| (x.0, exit_json(files@, types, id@, x))) =~= lv.1.take(k as int).map_values(|x: ExitV| (x.0, exit_json(files@, types, id@, x))).push((lv.1[k as int].0, exit_json(files@, types, id@, lv.1[k as int]))));
        }
        k += 1;
    }
    proof { assert(lv.1.take(lv.1.len() as int) =~= lv.1); }
    push_if(&mut m, l.exits.len() > 0, "exits", Json::Object(xs));
    let ghost e3 = e2 + members_if(lv.1.len() > 0, seq![("exits"@, JsonV::Object(lv.1.map_values(|x: ExitV| (x.0, exit_json(files@, types, id@, x)))))]);
    assert(json_members(m@) =~= e3);
    Json::Object(m)
}

/// The `locations` object of the linked world.
pub fn build_locations(files: &Vec<FileNode>, table: &SymbolTable) -> (j: Json)
    ensures
        json_view(j) == locations_json(files@, *table),
{
    let ghost ents = location_entries(table.locations);
    let ghost types = type_entries(table.types);
    let keys = crate::link::location_keys(&table.locations);
    proof { assert(keys_of(ents).len() == ents.len()); assert(crate::ast::strings_view(keys@).len() == keys@.len()); }
    let mut m: Vec<(String, Json)> = Vec::new();
    proof { assert(json_members(m@) =~= ents.take(0).map_values(|e: (Seq<char>, LocationV)| (e.0, location_json(files@, types, e.0, e.1)))); }
    let mut i: usize = 0;
    while i < keys.len()
        invariant
            i <= keys.len(),
            ents == location_entries(table.locations),
            types == type_entries(table.types),
            crate::ast::strings_view(keys@) == keys_of(ents),
            crate::ast::strings_view(keys@).no_duplicates(),
            keys@.len() == ents.len(),
            json_members(m@) == ents.take(i as int).map_values(|e: (Seq<char>, LocationV)| (e.0, location_json(files@, types, e.0, e.1))),
        decreases keys.len() - i,
    {
        proof {
            assert(crate::ast::strings_view(keys@)[i as int] == keys@[i as int]@);
            assert(keys_of(ents)[i as int] == ents[i as int].0);
            assert forall|j: int| 0 <= j < i implies (#[trigger] ents[j]).0 != keys@[i as int]@ by {
                assert(keys_of(ents)[j] == ents[j].0);
                assert(crate::ast::strings_view(keys@)[j] == keys@[j]@);
            }
            crate::link::lemma_key_index_first(ents, keys@[i as int]@, i as int);
        }
        let ls = crate::link::location_get(&table.locations, keys[i].as_str()).unwrap();
        let x = (keys[i].clone(), location_to_json(files, table, keys[i].as_str(), ls));
        proof { lemma_json_members_push(m@, x); }
        m.push(x);
        proof {
            assert(ents.take(i + 1).map_values(|e: (Seq<char>, LocationV)| (e.0, location_json(files@, types, e.0, e.1))) =~= ents.take(i as int).map_values(|e: (Seq<char>, LocationV)| (e.0, location_json(files@, types, e.0, e.1))).push((ents[i as int].0, location_json(files@, types, ents[i as int].0, ents[i as int].1))));
        }
        i += 1;
    }
    proof { assert(ents.take(ents.len() as int) =~= ents); }
    Json::Object(m)
}

// ── Sequences ──

/// A phase: its ID, `auto: true` for an automatic one, its action, actions
/// and rule where given, and its advance mode as written for output.
pub open spec fn phase_json(p: PhaseV) -> JsonV {
    JsonV::Object(
        seq![("id"@, JsonV::Str(p.0))]
        + members_if(p.1 == "auto"@, seq![("auto"@, JsonV::Bool(true))])
        + opt_member("action"@, opt_str(p.2))
        + opt_member("actions"@, match p.3 { Some(v) => Some(str_array(v)), None => None })
        + opt_member("rule"@, opt_str(p.4))
        + seq![("advance"@, JsonV::Str(advance_text(p.1)))]
    )
}

/// A sequence: its phases, in order.
pub open spec fn sequence_json(q: SequenceV) -> JsonV {
    JsonV::Object(seq![("phases"@, JsonV::Array(q.1.map_values(|p: PhaseV| phase_json(p))))])
}

/// The `sequences` object: each sequence by ID, in declaration order.
pub open spec fn sequences_json(es: Seq<(Seq<char>, SequenceV)>) -> JsonV {
    JsonV::Object(es.map_values(|e: (Seq<char>, SequenceV)| (e.0, sequence_json(e.1))))
}

/// A phase as the world JSON writes it.
pub fn phase_to_json(p: &crate::symbol_table::PhaseSymbol) -> (j: Json)
    ensures
        json_view(j) == phase_json(phase_view(*p)),
{
    let ghost pv = phase_view(*p);
    let mut m: Vec<(String, Json)> = Vec::new();
    proof { assert(json_members(m@) =~= Seq::<(Seq<char>, JsonV)>::empty()); }
    push_member(&mut m, "id", Json::Str(p.id.clone()));
    let ghost e1 = seq![("id"@, JsonV::Str(pv.0))];
    assert(json_members(m@) =~= e1);
    push_if(&mut m, str_equals(p.advance.as_str(), "auto"), "auto", Json::Bool(true));
    let ghost e2 = e1 + members_if(pv.1 == "auto"@, seq![("auto"@, JsonV::Bool(true))]);
    assert(json_members(m@) =~= e2);
    push_opt(&mut m, "action", opt_string_json(&p.action));
    let ghost e3 = e2 + opt_member("action"@, opt_str(pv.2));
    assert(json_members(m@) =~= e3);
    push_opt(&mut m, "actions", opt_strings_json(&p.actions));
    let ghost e4 = e3 + opt_member("actions"@, match pv.3 { Some(v) => Some(str_array(v)), None => None });
    assert(json_members(m@) =~= e4);
    push_opt(&mut m, "rule", opt_string_json(&p.rule));
    let ghost e5 = e4 + opt_member("rule"@, opt_str(pv.4));
    assert(json_members(m@) =~= e5);
    push_member(&mut m, "advance", Json::Str(format_advance(p.advance.as_str())));
    let ghost e6 = e5 + seq![("advance"@, JsonV::Str(advance_text(pv.1)))];
    assert(json_members(m@) =~= e6);
    Json::Object(m)
}

/// The `sequences` object of the symbol table.
pub fn build_sequences(table: &SymbolTable) -> (j: Json)
    ensures
        json_view(j) == sequences_json(sequence_entries(table.sequences)),
{
    let ghost ents = sequence_entries(table.sequences);
    let keys = crate::link::sequence_keys(&table.sequences);
    proof { assert(keys_of(ents).len() == ents.len()); assert(crate::ast::strings_view(keys@).len() == keys@.len()); }
    let mut m: Vec<(String, Json)> = Vec::new();
    proof { assert(json_members(m@) =~= ents.take(0).map_values(|e: (Seq<char>, SequenceV)| (e.0, sequence_json(e.1)))); }
    let mut i: usize = 0;
    while i < keys.len()
        invariant
            i <= keys.len(),
            ents == sequence_entries(table.sequences),
            crate::ast::strings_view(keys@) == keys_of(ents),
            crate::ast::strings_view(keys@).no_duplicates(),
            keys@.len() == ents.len(),
            json_members(m@) == ents.take(i as int).map_values(|e: (Seq<char>, SequenceV)| (e.0, sequence_json(e.1))),
        decreases keys.len() - i,
    {
        proof {
            assert(crate::ast::strings_view(keys@)[i as int] == keys@[i as int]@);
            assert(keys_of(ents)[i as int] == ents[i as int].0);
            assert forall|j: int| 0 <= j < i implies (#[trigger] ents[j]).0 != keys@[i as int]@ by {
                assert(keys_of(ents)[j] == ents[j].0);
                assert(crate::ast::strings_view(keys@)[j] == keys@[j]@);
            }
            crate::link::lemma_key_index_first(ents, keys@[i as int]@, i as int);
        }
        let q = crate::link::sequence_get(&table.sequences, keys[i].as_str()).unwrap();
        let ghost ps = q.phases@.map_values(|p: crate::symbol_table::PhaseSymbol| phase_view(p));
        let mut phases: Vec<Json> = Vec::new();
        let mut k: usize = 0;
        proof { assert(json_views(phases@) =~= ps.take(0).map_values(|p: PhaseV| phase_json(p))); }
        while k < q.phases.len()
            invariant
                k <= q.phases.len(),
                ps == q.phases@.map_values(|p: crate::symbol_table::PhaseSymbol| phase_view(p)),
                json_views(phases@) == ps.take(k as int).map_values(|p: PhaseV| phase_json(p)),
            decreases q.phases.len() - k,
        {
            let x = phase_to_json(&q.phases[k]);
            proof { lemma_json_views_push(phases@, x); }
            phases.push(x);
            proof {
                assert(ps[k as int] == phase_view(q.phases@[k as int]));
                assert(ps.take(k + 1).map_values(|p: PhaseV| phase_json(p)) =~= ps.take(k as int).map_values(|p: PhaseV| phase_json(p)).push(phase_json(ps[k as int])));
            }
            k += 1;
        }
        proof { assert(ps.take(ps.len() as int) =~= ps); assert(ps =~= sequence_view(*q).1); }
        let mut sm: Vec<(String, Json)> = Vec::new();
        proof { assert(json_members(sm@) =~= Seq::<(Seq<char>, JsonV)>::empty()); }
        push_member(&mut sm, "phases", Json::Array(phases));
        assert(json_members(sm@) =~= seq![("phases"@, JsonV::Array(sequence_view(*q).1.map_values(|p: PhaseV| phase_json(p))))]);
        let x = (keys[i].clone(), Json::Object(sm));
        proof { lemma_json_members_push(m@, x); }
        m.push(x);
        proof {
            assert(ents.take(i + 1).map_values(|e: (Seq<char>, SequenceV)| (e.0, sequence_json(e.1))) =~= ents.take(i as int).map_values(|e: (Seq<char>, SequenceV)| (e.0, sequence_json(e.1))).push((ents[i as int].0, sequence_json(ents[i as int].1))));
        }
        i += 1;
    }
    proof { assert(ents.take(ents.len() as int) =~= ents); }
    Json::Object(m)
}

// ── Actions ──

/// The last choice, in reading order (a choice before the choices nested
/// in it), among `c` and the choices nested in them whose ID under section
/// `sec` is `id`. A choice whose label slugifies to nothing has no ID, and
/// the choices nested in it are not looked at.
pub open spec fn choices_in(c: Seq<ContentNode>, sec: Seq<char>, id: Seq<char>) -> Option<Choice>
    decreases c, 0int,
{
    if c.len() == 0 {
        None
    } else {
        match choice_in_node(c[c.len() - 1], sec, id) {
            Some(x) => Some(x),
            None => choices_in(c.subrange(0, c.len() - 1), sec, id),
        }
    }
}

pub open spec fn choice_in_node(n: ContentNode, sec: Seq<char>, id: Seq<char>) -> Option<Choice>
    decreases n, 1int,
{
    match n {
        ContentNode::Choice(ch) => {
            if spec_slugify(ch.label@).len() == 0 {
                None
            } else {
                match choices_in(ch.content@, sec, id) {
                    Some(x) => Some(x),
                    None => if sec + "/"@ + spec_slugify(ch.label@) == id { Some(ch) } else { None },
                }
            }
        },
        _ => None,
    }
}

/// Scanning a file's content for the choice with ID `id`: the current
/// section (`stem/name`, none under a location heading), and the last such
/// choice so far.
pub open spec fn file_choice(c: Seq<ContentNode>, stem: Seq<char>, id: Seq<char>) -> (Option<Seq<char>>, Option<Choice>)
    decreases c.len(),
{
    if c.len() == 0 {
        (None, None)
    } else {
        let p = file_choice(c.drop_last(), stem, id);
        match c.last() {
            ContentNode::SectionLabel(sl) => (Some(stem + "/"@ + sl.name@), p.1),
            ContentNode::LocationHeading(_) => (None, p.1),
            ContentNode::Choice(_) => match p.0 {
                Some(sec) => match choice_in_node(c.last(), sec, id) {
                    Some(x) => (p.0, Some(x)),
                    None => p,
                },
                None => p,
            },
            _ => p,
        }
    }
}

/// The last choice with ID `id` over the files.
pub open spec fn files_choice(files: Seq<FileNode>, id: Seq<char>) -> Option<Choice>
    decreases files.len(),
{
    if files.len() == 0 {
        None
    } else {
        match file_choice(files.last().ast.content@, file_stem_of(files.last().path@), id).1 {
            Some(x) => Some(x),
            None => files_choice(files.drop_last(), id),
        }
    }
}

/// The conditions of a choice written out, in order.
pub open spec fn and_conditions(c: Seq<ContentNode>) -> Seq<Seq<char>>
    decreases c.len(),
{
    if c.len() == 0 {
        Seq::empty()
    } else {
        match c.last() {
            ContentNode::Condition(cd) => and_conditions(c.drop_last()).push(condition_text(cd.expr)),
            _ => and_conditions(c.drop_last()),
        }
    }
}

/// The conditions of the last `any:` block of a choice, written out.
pub open spec fn or_conditions(c: Seq<ContentNode>) -> Option<Seq<Seq<char>>>
    decreases c.len(),
{
    if c.len() == 0 {
        None
    } else {
        match c.last() {
            ContentNode::OrConditionBlock(o) => Some(o.conditions@.map_values(|e: ConditionExpr| condition_text(e))),
            _ => or_conditions(c.drop_last()),
        }
    }
}

/// A choice's conditions: `{any: [...]}` where it has a non-empty `any:`
/// block, else the list of its conditions where it has any.
pub open spec fn conditions_json(c: Seq<ContentNode>) -> Option<JsonV> {
    match or_conditions(c) {
        Some(o) if o.len() > 0 => Some(JsonV::Object(seq![("any"@, str_array(o))])),
        _ => if and_conditions(c).len() > 0 { Some(str_array(and_conditions(c))) } else { None },
    }
}

/// An action: its target (without `@`) and target type where given, and
/// the conditions and effects of its choice where it has one.
pub open spec fn action_json(files: Seq<FileNode>, types: Seq<(Seq<char>, TypeV)>, id: Seq<char>, a: ActionV) -> JsonV {
    JsonV::Object(
        opt_member("target"@, match a.1 { Some(t) => Some(JsonV::Str(without_at(t))), None => None })
        + opt_member("target_type"@, opt_str(a.2))
        + match files_choice(files, id) {
            Some(ch) => opt_member("conditions"@, conditions_json(ch.content@))
                + seq![("effects"@, JsonV::Array(effects_json(ch.content@, types)))],
            None => Seq::empty(),
        }
    )
}

/// The `actions` object: each action by ID, in declaration order.
pub open spec fn actions_json(files: Seq<FileNode>, t: SymbolTable) -> JsonV {
    JsonV::Object(action_entries(t.actions).map_values(|e: (Seq<char>, ActionV)|
        (e.0, action_json(files, type_entries(t.types), e.0, e.1))))
}

/// The last choice with ID `id` among `c` and their nested choices.
fn find_choice_in<'a>(c: &'a Vec<ContentNode>, sec: &str, id: &str) -> (r: Option<&'a Choice>)
    ensures
        match r {
            Some(x) => choices_in(c@, sec@, id@) == Some(*x),
            None => choices_in(c@, sec@, id@) is None,
        },
    decreases c@, 0int,
{
    let mut k: usize = c.len();
    proof { assert(c@.subrange(0, c.len() as int) =~= c@); }
    while k > 0
        invariant
            k <= c.len(),
            choices_in(c@, sec@, id@) == choices_in(c@.subrange(0, k as int), sec@, id@),
        decreases k,
    {
        proof {
            vstd::std_specs::vec::axiom_vec_index_decreases(*c, (k - 1) as int);
            assert(c@.subrange(0, k as int)[k - 1] == c@[k - 1]);
            assert(c@.subrange(0, k as int).subrange(0, k - 1) =~= c@.subrange(0, k - 1));
        }
        match find_choice_at(&c[k - 1], sec, id) {
            Some(x) => { return Some(x); },
            None => {},
        }
        k -= 1;
    }
    proof { assert(c@.subrange(0, 0).len() == 0); }
    None
}

fn find_choice_at<'a>(n: &'a ContentNode, sec: &str, id: &str) -> (r: Option<&'a Choice>)
    ensures
        match r {
            Some(x) => choice_in_node(*n, sec@, id@) == Some(*x),
            None => choice_in_node(*n, sec@, id@) is None,
        },
    decreases *n, 1int,
{
    match n {
        ContentNode::Choice(ch) => {
            let slug = chars_of(slugify(ch.label.as_str()).as_str());
            if slug.len() == 0 {
                return None;
            }
            proof {
                assert(decreases_to!(*n => (*n)->Choice_0));
                assert(decreases_to!((*n)->Choice_0 => (*n)->Choice_0.content));
            }
            match find_choice_in(&ch.content, sec, id) {
                Some(x) => Some(x),
                None => {
                    let mut v = chars_of(sec);
                    v.push('/');
                    push_chars(&mut v, &slug);
                    proof { reveal_strlit("/"); assert(v@ =~= sec@ + "/"@ + spec_slugify(ch.label@)); }
                    let full = string_from_chars(v);
                    if str_equals(full.as_str(), id) { Some(ch) } else { None }
                },
            }
        },
        _ => None,
    }
}

/// The last choice with ID `id` in one file.
fn file_choice_of<'a>(c: &'a Vec<ContentNode>, stem: &str, id: &str) -> (r: Option<&'a Choice>)
    ensures
        match r {
            Some(x) => file_choice(c@, stem@, id@).1 == Some(*x),
            None => file_choice(c@, stem@, id@).1 is None,
        },
{
    let mut sec: Option<String> = None;
    let mut found: Option<&Choice> = None;
    let mut k: usize = 0;
    proof { assert(c@.take(0) =~= Seq::<ContentNode>::empty()); reveal_strlit("/"); }
    while k < c.len()
        invariant
            k <= c.len(),
            file_choice(c@.take(k as int), stem@, id@).0 == crate::ast::opt_view(sec),
            match found {
                Some(x) => file_choice(c@.take(k as int), stem@, id@).1 == Some(*x),
                None => file_choice(c@.take(k as int), stem@, id@).1 is None,
            },
        decreases c.len() - k,
    {
        proof { assert(c@.take(k + 1).drop_last() =~= c@.take(k as int)); assert(c@.take(k + 1).last() == c@[k as int]); }
        match &c[k] {
            ContentNode::SectionLabel(sl) => {
                let mut v = chars_of(stem);
                v.push('/');
                push_chars(&mut v, &chars_of(sl.name.as_str()));
                proof { reveal_strlit("/"); assert(v@ =~= stem@ + "/"@ + sl.name@); }
                sec = Some(string_from_chars(v));
            },
            ContentNode::LocationHeading(_) => {
                sec = None;
            },
            ContentNode::Choice(_) => {
                match &sec {
                    Some(s) => {
                        match find_choice_at(&c[k], s.as_str(), id) {
                            Some(x) => { found = Some(x); },
                            None => {},
                        }
                    },
                    None => {},
                }
            },
            _ => {},
        }
        k += 1;
    }
    proof { assert(c@.take(c.len() as int) =~= c@); }
    found
}

/// The last choice with ID `id` over the files.
fn choice_of<'a>(files: &'a Vec<FileNode>, id: &str) -> (r: Option<&'a Choice>)
    ensures
        match r {
            Some(x) => files_choice(files@, id@) == Some(*x),
            None => files_choice(files@, id@) is None,
        },
{
    let mut found: Option<&Choice> = None;
    let mut f: usize = 0;
    proof { assert(files@.take(0) =~= Seq::<FileNode>::empty()); }
    while f < files.len()
        invariant
            f <= files.len(),
            match found {
                Some(x) => files_choice(files@.take(f as int), id@) == Some(*x),
                None => files_choice(files@.take(f as int), id@) is None,
            },
        decreases files.len() - f,
    {
        proof { assert(files@.take(f + 1).drop_last() =~= files@.take(f as int)); assert(files@.take(f + 1).last() == files@[f as int]); }
        let stem = file_stem(files[f].path.as_str());
        match file_choice_of(&files[f].ast.content, stem.as_str(), id) {
            Some(x) => { found = Some(x); },
            None => {},
        }
        f += 1;
    }
    proof { assert(files@.take(files.len() as int) =~= files@); }
    found
}

/// A choice's conditions as the world JSON writes them.
fn choice_conditions(c: &Vec<ContentNode>) -> (r: Option<Json>)
    ensures
        opt_json_view(r) == conditions_json(c@),
{
    let mut ands: Vec<String> = Vec::new();
    let mut ors: Option<Vec<String>> = None;
    let mut k: usize = 0;
    proof { assert(c@.take(0) =~= Seq::<ContentNode>::empty()); assert(crate::ast::strings_view(ands@) =~= Seq::<Seq<char>>::empty()); }
    while k < c.len()
        invariant
            k <= c.len(),
            crate::ast::strings_view(ands@) == and_conditions(c@.take(k as int)),
            crate::ast::opt_strings_view(ors) == or_conditions(c@.take(k as int)),
        decreases c.len() - k,
    {
        proof { assert(c@.take(k + 1).drop_last() =~= c@.take(k as int)); assert(c@.take(k + 1).last() == c@[k as int]); }
        match &c[k] {
            ContentNode::Condition(cd) => {
                let ghost a0 = ands@;
                ands.push(lower_condition(&cd.expr));
                proof { assert(crate::ast::strings_view(ands@) =~= crate::ast::strings_view(a0).push(condition_text(cd.expr))); }
            },
            ContentNode::OrConditionBlock(o) => {
                let mut xs: Vec<String> = Vec::new();
                let mut q: usize = 0;
                proof { assert(crate::ast::strings_view(xs@) =~= o.conditions@.take(0).map_values(|e: ConditionExpr| condition_text(e))); }
                while q < o.conditions.len()
                    invariant
                        q <= o.conditions.len(),
                        crate::ast::strings_view(xs@) == o.conditions@.take(q as int).map_values(|e: ConditionExpr| condition_text(e)),
                    decreases o.conditions.len() - q,
                {
                    let ghost x0 = xs@;
                    xs.push(lower_condition(&o.conditions[q]));
                    proof {
                        assert(crate::ast::strings_view(xs@) =~= crate::ast::strings_view(x0).push(condition_text(o.conditions@[q as int])));
                        assert(o.conditions@.take(q + 1).map_values(|e: ConditionExpr| condition_text(e)) =~= o.conditions@.take(q as int).map_values(|e: ConditionExpr| condition_text(e)).push(condition_text(o.conditions@[q as int])));
                    }
                    q += 1;
                }
                proof { assert(o.conditions@.take(o.conditions.len() as int) =~= o.conditions@); }
                ors = Some(xs);
            },
            _ => {},
        }
        k += 1;
    }
    proof { assert(c@.take(c.len() as int) =~= c@); }
    match ors {
        Some(o) => {
            if o.len() > 0 {
                proof { assert(crate::ast::strings_view(o@).len() == o@.len()); }
                let arr = strings_json(&o);
                let r = Some(crate::lower::one_member("any", arr));
                return r;
            }
            proof { assert(crate::ast::strings_view(o@).len() == 0); }
        },
        None => {},
    }
    proof { assert(crate::ast::strings_view(ands@).len() == ands@.len()); }
    if ands.len() > 0 {
        Some(strings_json(&ands))
    } else {
        None
    }
}

/// An action as the world JSON writes it.
fn action_to_json(files: &Vec<FileNode>, table: &SymbolTable, id: &str, a: &crate::symbol_table::ActionSymbol) -> (j: Json)
    ensures
        json_view(j) == action_json(files@, type_entries(table.types), id@, crate::link::action_view(*a)),
{
    let ghost types = type_entries(table.types);
    let ghost av = crate::link::action_view(*a);
    let mut m: Vec<(String, Json)> = Vec::new();
    proof { assert(json_members(m@) =~= Seq::<(Seq<char>, JsonV)>::empty()); }
    let target = match &a.target {
        Some(t) => Some(Json::Str(strip_at(t.as_str()))),
        None => None,
    };
    push_opt(&mut m, "target", target);
    let ghost e1 = opt_member("target"@, match av.1 { Some(t) => Some(JsonV::Str(without_at(t))), None => None });
    assert(json_members(m@) =~= e1);
    push_opt(&mut m, "target_type", opt_string_json(&a.target_type));
    let ghost e2 = e1 + opt_member("target_type"@, opt_str(av.2));
    assert(json_members(m@) =~= e2);
    match choice_of(files, id) {
        Some(ch) => {
            let conds = choice_conditions(&ch.content);
            push_opt(&mut m, "conditions", conds);
            let ghost e3 = e2 + opt_member("conditions"@, conditions_json(ch.content@));
            assert(json_members(m@) =~= e3);
            let (_, _, effects) = exit_content(&ch.content, table);
            push_member(&mut m, "effects", Json::Array(effects));
            let ghost e4 = e3 + seq![("effects"@, JsonV::Array(effects_json(ch.content@, types)))];
            assert(json_members(m@) =~= e4);
            assert(e4 =~= e2 + (opt_member("conditions"@, conditions_json(ch.content@))
                + seq![("effects"@, JsonV::Array(effects_json(ch.content@, types)))]));
        },
        None => {
            assert(json_members(m@) =~= e2 + Seq::<(Seq<char>, JsonV)>::empty());
        },
    }
    Json::Object(m)
}

/// The `actions` object of the linked world.
pub fn build_actions(files: &Vec<FileNode>, table: &SymbolTable) -> (j: Json)
    ensures
        json_view(j) == actions_json(files@, *table),
{
    let ghost ents = action_entries(table.actions);
    let ghost types = type_entries(table.types);
    let keys = crate::link::action_keys(&table.actions);
    proof { assert(keys_of(ents).len() == ents.len()); assert(crate::ast::strings_view(keys@).len() == keys@.len()); }
    let mut m: Vec<(String, Json)> = Vec::new();
    proof { assert(json_members(m@) =~= ents.take(0).map_values(|e: (Seq<char>, ActionV)| (e.0, action_json(files@, types, e.0, e.1)))); }
    let mut i: usize = 0;
    while i < keys.len()
        invariant
            i <= keys.len(),
            ents == action_entries(table.actions),
            types == type_entries(table.types),
            crate::ast::strings_view(keys@) == keys_of(ents),
            crate::ast::strings_view(keys@).no_duplicates(),
            keys@.len() == ents.len(),
            json_members(m@) == ents.take(i as int).map_values(|e: (Seq<char>, ActionV)| (e.0, action_json(files@, types, e.0, e.1))),
        decreases keys.len() - i,
    {
        proof {
            assert(crate::ast::strings_view(keys@)[i as int] == keys@[i as int]@);
            assert(keys_of(ents)[i as int] == ents[i as int].0);
            assert forall|j: int| 0 <= j < i implies (#[trigger] ents[j]).0 != keys@[i as int]@ by {
                assert(keys_of(ents)[j] == ents[j].0);
                assert(crate::ast::strings_view(keys@)[j] == keys@[j]@);
            }
            crate::link::lemma_key_index_first(ents, keys@[i as int]@, i as int);
        }
        let act = crate::link::action_get(&table.actions, keys[i].as_str()).unwrap();
        let x = (keys[i].clone(), action_to_json(files, table, keys[i].as_str(), act));
        proof { lemma_json_members_push(m@, x); }
        m.push(x);
        proof {
            assert(ents.take(i + 1).map_values(|e: (Seq<char>, ActionV)| (e.0, action_json(files@, types, e.0, e.1))) =~= ents.take(i as int).map_values(|e: (Seq<char>, ActionV)| (e.0, action_json(files@, types, e.0, e.1))).push((ents[i as int].0, action_json(files@, types, ents[i as int].0, ents[i as int].1))));
        }
        i += 1;
    }
    proof { assert(ents.take(ents.len() as int) =~= ents); }
    Json::Object(m)
}

// ── Rules ──

/// The last rule block named `name` in one file's content.
pub open spec fn file_rule(c: Seq<ContentNode>, name: Seq<char>) -> Option<RuleBlock>
    decreases c.len(),
{
    if c.len() == 0 {
        None
    } else {
        match c.last() {
            ContentNode::RuleBlock(rb) => if rb.name@ == name { Some(rb) } else { file_rule(c.drop_last(), name) },
            _ => file_rule(c.drop_last(), name),
        }
    }
}

/// The last rule block named `name` over the files.
pub open spec fn files_rule(files: Seq<FileNode>, name: Seq<char>) -> Option<RuleBlock>
    decreases files.len(),
{
    if files.len() == 0 {
        None
    } else {
        match file_rule(files.last().ast.content@, name) {
            Some(rb) => Some(rb),
            None => files_rule(files.drop_last(), name),
        }
    }
}

/// A rule's `select`: the entities it draws from (without `@`), the
/// variable, and its `where` conditions where it has any, written from
/// the symbol table's copy of the clause.
pub open spec fn select_json(sel: SelectV) -> JsonV {
    JsonV::Object(
        seq![("from"@, JsonV::Array(sel.1.map_values(|e: Seq<char>| JsonV::Str(without_at(e))))), ("as"@, JsonV::Str(sel.0))]
        + members_if(sel.2.len() > 0, seq![("where"@, JsonV::Array(sel.2.map_values(|c: CondV| JsonV::Str(bare_condition_text(c)))))])
    )
}

/// A rule: its actor (without `@`) where given, its trigger, the
/// conditions of its block, its select clause, and the effects of its
/// block, each where there is any.
pub open spec fn rule_json(files: Seq<FileNode>, types: Seq<(Seq<char>, TypeV)>, name: Seq<char>, r: RuleV) -> JsonV {
    let rb = files_rule(files, name);
    JsonV::Object(
        members_if(r.1.len() > 0, seq![("actor"@, JsonV::Str(without_at(r.1)))])
        + seq![("trigger"@, JsonV::Str(r.2))]
        + match rb {
            Some(b) => members_if(b.where_clauses@.len() > 0, seq![("conditions"@,
                JsonV::Array(b.where_clauses@.map_values(|e: ConditionExpr| JsonV::Str(condition_text(e)))))]),
            None => Seq::empty(),
        }
        + opt_member("select"@, match r.4 { Some(sel) => Some(select_json(sel)), None => None })
        + match rb {
            Some(b) => members_if(b.effects@.len() > 0, seq![("effects"@,
                JsonV::Array(b.effects@.map_values(|e: Effect| effect_json(e.effect_type, e.annotation, types))))]),
            None => Seq::empty(),
        }
    )
}

/// The `rules` object: each rule by name, in declaration order.
pub open spec fn rules_json(files: Seq<FileNode>, t: SymbolTable) -> JsonV {
    JsonV::Object(rule_entries(t.rules).map_values(|e: (Seq<char>, RuleV)|
        (e.0, rule_json(files, type_entries(t.types), e.0, e.1))))
}

fn rule_block_of<'a>(files: &'a Vec<FileNode>, name: &str) -> (r: Option<&'a RuleBlock>)
    ensures
        match r {
            Some(x) => files_rule(files@, name@) == Some(*x),
            None => files_rule(files@, name@) is None,
        },
{
    let mut found: Option<&RuleBlock> = None;
    let mut f: usize = 0;
    proof { assert(files@.take(0) =~= Seq::<FileNode>::empty()); }
    while f < files.len()
        invariant
            f <= files.len(),
            match found {
                Some(x) => files_rule(files@.take(f as int), name@) == Some(*x),
                None => files_rule(files@.take(f as int), name@) is None,
            },
        decreases files.len() - f,
    {
        proof { assert(files@.take(f + 1).drop_last() =~= files@.take(f as int)); assert(files@.take(f + 1).last() == files@[f as int]); }
        let c = &files[f].ast.content;
        let mut k: usize = c.len();
        let mut here: Option<&RuleBlock> = None;
        proof { assert(c@.subrange(0, c.len() as int) =~= c@); }
        while k > 0
            invariant_except_break
                here is None,
            invariant
                k <= c.len(),
                c == &files@[f as int].ast.content,
                file_rule(c@, name@) == file_rule(c@.subrange(0, k as int), name@),
            ensures
                match here {
                    Some(x) => file_rule(c@, name@) == Some(*x),
                    None => file_rule(c@, name@) is None,
                },
            decreases k,
        {
            proof {
                assert(c@.subrange(0, k as int).drop_last() =~= c@.subrange(0, k - 1));
                assert(c@.subrange(0, k as int).last() == c@[k - 1]);
            }
            match &c[k - 1] {
                ContentNode::RuleBlock(rb) => {
                    if str_equals(rb.name.as_str(), name) {
                        here = Some(rb);
                        break;
                    }
                },
                _ => {},
            }
            k -= 1;
        }
        match here {
            Some(x) => { found = Some(x); },
            None => {},
        }
        f += 1;
    }
    proof { assert(files@.take(files.len() as int) =~= files@); }
    found
}

fn rule_to_json(files: &Vec<FileNode>, table: &SymbolTable, name: &str, r: &crate::symbol_table::RuleSymbol) -> (j: Json)
    ensures
        json_view(j) == rule_json(files@, type_entries(table.types), name@, rule_view(*r)),
{
    let ghost types = type_entries(table.types);
    let ghost rv = rule_view(*r);
    let rb = rule_block_of(files, name);
    let mut m: Vec<(String, Json)> = Vec::new();
    proof { assert(json_members(m@) =~= Seq::<(Seq<char>, JsonV)>::empty()); }
    let actor = chars_of(r.actor.as_str());
    push_if(&mut m, actor.len() > 0, "actor", Json::Str(strip_at(r.actor.as_str())));
    let ghost e1 = members_if(rv.1.len() > 0, seq![("actor"@, JsonV::Str(without_at(rv.1)))]);
    assert(json_members(m@) =~= e1);
    push_member(&mut m, "trigger", Json::Str(r.trigger.clone()));
    let ghost e2 = e1 + seq![("trigger"@, JsonV::Str(rv.2))];
    assert(json_members(m@) =~= e2);
    let ghost c3 = match files_rule(files@, name@) {
        Some(b) => members_if(b.where_clauses@.len() > 0, seq![("conditions"@,
            JsonV::Array(b.where_clauses@.map_values(|e: ConditionExpr| JsonV::Str(condition_text(e)))))]),
        None => Seq::<(Seq<char>, JsonV)>::empty(),
    };
    match rb {
        Some(b) => {
            let mut cs: Vec<Json> = Vec::new();
            let mut i: usize = 0;
            proof { assert(json_views(cs@) =~= b.where_clauses@.take(0).map_values(|e: ConditionExpr| JsonV::Str(condition_text(e)))); }
            while i < b.where_clauses.len()
                invariant
                    i <= b.where_clauses.len(),
                    json_views(cs@) == b.where_clauses@.take(i as int).map_values(|e: ConditionExpr| JsonV::Str(condition_text(e))),
                decreases b.where_clauses.len() - i,
            {
                let x = Json::Str(lower_condition(&b.where_clauses[i]));
                proof { lemma_json_views_push(cs@, x); }
                cs.push(x);
                proof { assert(b.where_clauses@.take(i + 1).map_values(|e: ConditionExpr| JsonV::Str(condition_text(e))) =~= b.where_clauses@.take(i as int).map_values(|e: ConditionExpr| JsonV::Str(condition_text(e))).push(JsonV::Str(condition_text(b.where_clauses@[i as int])))); }
                i += 1;
            }
            proof { assert(b.where_clauses@.take(b.where_clauses.len() as int) =~= b.where_clauses@); }
            push_if(&mut m, b.where_clauses.len() > 0, "conditions", Json::Array(cs));
        },
        None => {
            assert(json_members(m@) + Seq::<(Seq<char>, JsonV)>::empty() =~= json_members(m@));
        },
    }
    let ghost e3 = e2 + c3;
    assert(json_members(m@) =~= e3);
    let sel = match &r.select {
        Some(sd) => {
            let ghost sv = crate::link::select_def_view(r.select).unwrap();
            let mut sm: Vec<(String, Json)> = Vec::new();
            proof { assert(json_members(sm@) =~= Seq::<(Seq<char>, JsonV)>::empty()); }
            let mut fr: Vec<Json> = Vec::new();
            let mut i: usize = 0;
            proof { assert(json_views(fr@) =~= sd.from@.take(0).map_values(|e: String| JsonV::Str(without_at(e@)))); }
            while i < sd.from.len()
                invariant
                    i <= sd.from.len(),
                    json_views(fr@) == sd.from@.take(i as int).map_values(|e: String| JsonV::Str(without_at(e@))),
                decreases sd.from.len() - i,
            {
                let x = Json::Str(strip_at(sd.from[i].as_str()));
                proof { lemma_json_views_push(fr@, x); }
                fr.push(x);
                proof { assert(sd.from@.take(i + 1).map_values(|e: String| JsonV::Str(without_at(e@))) =~= sd.from@.take(i as int).map_values(|e: String| JsonV::Str(without_at(e@))).push(JsonV::Str(without_at(sd.from@[i as int]@)))); }
                i += 1;
            }
            proof {
                assert(sd.from@.take(sd.from.len() as int) =~= sd.from@);
                assert(sv.1.map_values(|e: Seq<char>| JsonV::Str(without_at(e))) =~= sd.from@.map_values(|e: String| JsonV::Str(without_at(e@))));
            }
            push_member(&mut sm, "from", Json::Array(fr));
            push_member(&mut sm, "as", Json::Str(sd.variable.clone()));
            let ghost s2 = seq![("from"@, JsonV::Array(sv.1.map_values(|e: Seq<char>| JsonV::Str(without_at(e))))), ("as"@, JsonV::Str(sv.0))];
            assert(json_members(sm@) =~= s2);
            let mut ws: Vec<Json> = Vec::new();
            let mut k: usize = 0;
            proof { assert(json_views(ws@) =~= sd.where_clauses@.take(0).map_values(|e: ConditionExpr| JsonV::Str(bare_condition_text(crate::ast::cond_view(e))))); }
            while k < sd.where_clauses.len()
                invariant
                    k <= sd.where_clauses.len(),
                    json_views(ws@) == sd.where_clauses@.take(k as int).map_values(|e: ConditionExpr| JsonV::Str(bare_condition_text(crate::ast::cond_view(e)))),
                decreases sd.where_clauses.len() - k,
            {
                let x = Json::Str(lower_bare_condition(&sd.where_clauses[k]));
                proof { lemma_json_views_push(ws@, x); }
                ws.push(x);
                proof { assert(sd.where_clauses@.take(k + 1).map_values(|e: ConditionExpr| JsonV::Str(bare_condition_text(crate::ast::cond_view(e)))) =~= sd.where_clauses@.take(k as int).map_values(|e: ConditionExpr| JsonV::Str(bare_condition_text(crate::ast::cond_view(e)))).push(JsonV::Str(bare_condition_text(crate::ast::cond_view(sd.where_clauses@[k as int]))))); }
                k += 1;
            }
            proof {
                assert(sd.where_clauses@.take(sd.where_clauses.len() as int) =~= sd.where_clauses@);
                assert(sv.2.map_values(|c: CondV| JsonV::Str(bare_condition_text(c))) =~= sd.where_clauses@.map_values(|e: ConditionExpr| JsonV::Str(bare_condition_text(crate::ast::cond_view(e)))));
            }
            push_if(&mut sm, sd.where_clauses.len() > 0, "where", Json::Array(ws));
            let ghost s3 = s2 + members_if(sv.2.len() > 0, seq![("where"@, JsonV::Array(sv.2.map_values(|c: CondV| JsonV::Str(bare_condition_text(c)))))]);
            assert(json_members(sm@) =~= s3);
            Some(Json::Object(sm))
        },
        None => None,
    };
    push_opt(&mut m, "select", sel);
    let ghost e4 = e3 + opt_member("select"@, match rv.4 { Some(sv) => Some(select_json(sv)), None => None });
    assert(json_members(m@) =~= e4);
    let ghost c5 = match files_rule(files@, name@) {
        Some(b) => members_if(b.effects@.len() > 0, seq![("effects"@,
            JsonV::Array(b.effects@.map_values(|e: Effect| effect_json(e.effect_type, e.annotation, types))))]),
        None => Seq::<(Seq<char>, JsonV)>::empty(),
    };
    match rb {
        Some(b) => {
            let mut es: Vec<Json> = Vec::new();
            let mut i: usize = 0;
            proof { assert(json_views(es@) =~= b.effects@.take(0).map_values(|e: Effect| effect_json(e.effect_type, e.annotation, types))); }
            while i < b.effects.len()
                invariant
                    i <= b.effects.len(),
                    types == type_entries(table.types),
                    json_views(es@) == b.effects@.take(i as int).map_values(|e: Effect| effect_json(e.effect_type, e.annotation, types)),
                decreases b.effects.len() - i,
            {
                let x = lower_effect(&b.effects[i].effect_type, &b.effects[i].annotation, table);
                proof { lemma_json_views_push(es@, x); }
                es.push(x);
                proof { assert(b.effects@.take(i + 1).map_values(|e: Effect| effect_json(e.effect_type, e.annotation, types)) =~= b.effects@.take(i as int).map_values(|e: Effect| effect_json(e.effect_type, e.annotation, types)).push(effect_json(b.effects@[i as int].effect_type, b.effects@[i as int].annotation, types))); }
                i += 1;
            }
            proof { assert(b.effects@.take(b.effects.len() as int) =~= b.effects@); }
            push_if(&mut m, b.effects.len() > 0, "effects", Json::Array(es));
        },
        None => {
            assert(json_members(m@) + Seq::<(Seq<char>, JsonV)>::empty() =~= json_members(m@));
        },
    }
    let ghost e5 = e4 + c5;
    assert(json_members(m@) =~= e5);
    Json::Object(m)
}

/// The `rules` object of the linked world.
pub fn build_rules(files: &Vec<FileNode>, table: &SymbolTable) -> (j: Json)
    ensures
        json_view(j) == rules_json(files@, *table),
{
    let ghost ents = rule_entries(table.rules);
    let ghost types = type_entries(table.types);
    let keys = crate::link::rule_keys(&table.rules);
    proof { assert(keys_of(ents).len() == ents.len()); assert(crate::ast::strings_view(keys@).len() == keys@.len()); }
    let mut m: Vec<(String, Json)> = Vec::new();
    proof { assert(json_members(m@) =~= ents.take(0).map_values(|e: (Seq<char>, RuleV)| (e.0, rule_json(files@, types, e.0, e.1)))); }
    let mut i: usize = 0;
    while i < keys.len()
        invariant
            i <= keys.len(),
            ents == rule_entries(table.rules),
            types == type_entries(table.types),
            crate::ast::strings_view(keys@) == keys_of(ents),
            crate::ast::strings_view(keys@).no_duplicates(),
            keys@.len() == ents.len(),
            json_members(m@) == ents.take(i as int).map_values(|e: (Seq<char>, RuleV)| (e.0, rule_json(files@, types, e.0, e.1))),
        decreases keys.len() - i,
    {
        proof {
            assert(crate::ast::strings_view(keys@)[i as int] == keys@[i as int]@);
            assert(keys_of(ents)[i as int] == ents[i as int].0);
            assert forall|j: int| 0 <= j < i implies (#[trigger] ents[j]).0 != keys@[i as int]@ by {
                assert(keys_of(ents)[j] == ents[j].0);
                assert(crate::ast::strings_view(keys@)[j] == keys@[j]@);
            }
            crate::link::lemma_key_index_first(ents, keys@[i as int]@, i as int);
        }
        let r = crate::link::rule_get(&table.rules, keys[i].as_str()).unwrap();
        let x = (keys[i].clone(), rule_to_json(files, table, keys[i].as_str(), r));
        proof { lemma_json_members_push(m@, x); }
        m.push(x);
        proof {
            assert(ents.take(i + 1).map_values(|e: (Seq<char>, RuleV)| (e.0, rule_json(files@, types, e.0, e.1))) =~= ents.take(i as int).map_values(|e: (Seq<char>, RuleV)| (e.0, rule_json(files@, types, e.0, e.1))).push((ents[i as int].0, rule_json(files@, types, ents[i as int].0, ents[i as int].1))));
        }
        i += 1;
    }
    proof { assert(ents.take(ents.len() as int) =~= ents); }
    Json::Object(m)
}

// ── Laws ──

/// Every compiled world declares `urd: "1"` in its `world` block, whatever
/// the entry file's `world:` block says (an author's own `urd` is ignored).
pub proof fn lemma_urd_injected(files: Seq<FileNode>, entry: Seq<char>, t: SymbolTable)
    ensures
        world_document(files, entry, t) matches JsonV::Object(ms) && ms.len() > 0 && ms[0].0 == "world"@
            && (ms[0].1 matches JsonV::Object(ws) && ws.contains(("urd"@, JsonV::Str("1"@)))),
{
    let fs = entry_world_fields(files, entry);
    let st = crate::ast::opt_view(t.world_start);
    let en = crate::ast::opt_view(t.world_entry);
    let a = opt_member("name"@, field_json(fs, "name"@));
    let ws = a + seq![("urd"@, JsonV::Str("1"@))]
        + opt_member("version"@, field_json(fs, "version"@))
        + opt_member("description"@, field_json(fs, "description"@))
        + opt_member("author"@, field_json(fs, "author"@))
        + opt_member("start"@, opt_str(st))
        + opt_member("entry"@, opt_str(en))
        + opt_member("seed"@, field_json(fs, "seed"@));
    assert(ws[a.len() as int] == ("urd"@, JsonV::Str("1"@)));
    assert(world_json(fs, st, en) == JsonV::Object(ws));
}

} // verus!
