//! Definition records: declaration spans with their kind metadata, as the
//! go-to-definition and hover index stores them.
//!
//! Key format: `namespace:identifier` — e.g. `entity:@warden`, `prop:Guard.trust`,
//! `section:gatehouse/greet`, `location:village-square`.

use vstd::prelude::*;
use indexmap::IndexMap;
use crate::ast::{strings_view, ScalarV};
use crate::link::{key_index, keys_of, map_put, ExitRest, ExitV, PropV};
use crate::span::{Span, SpanV, span_view};
use crate::symbol_table::{SymbolTable, Value};
use crate::json::{jstr, json_members, json_view, json_views, lemma_json_views_push, object, push_member, span_json, span_to_json, text_json, Json, JsonV};
use crate::text::{push_chars, push_str, signed_decimal, signed_decimal_chars, string_from_chars};
use crate::value_check::bool_text;

verus! {

/// The kind of definition an entry represents.
#[derive(Debug)]
pub enum DefinitionKind {
    Type,
    Entity { entity_type: String },
    Property {
        owner_type: String,
        property_type: String,
        default_repr: Option<String>,
    },
    Section {
        local_name: String,
        file_stem: String,
    },
    Location {
        display_name: String,
    },
    Exit {
        from_location: String,
        destination: String,
    },
    Choice {
        section_id: String,
        label: String,
    },
    Rule,
}

/// A single definition entry: a declaration span plus its kind metadata.
#[derive(Debug)]
pub struct DefinitionEntry {
    pub span: Span,
    pub kind: DefinitionKind,
}

broadcast use vstd::string::group_string_axioms;

/// A definition kind by its texts.
pub enum DefKindV {
    Type,
    Entity(Seq<char>),
    Property(Seq<char>, Seq<char>, Option<Seq<char>>),
    Section(Seq<char>, Seq<char>),
    Location(Seq<char>),
    Exit(Seq<char>, Seq<char>),
    Choice(Seq<char>, Seq<char>),
    Rule,
}

/// A definition entry by its texts: span and kind.
pub type DefV = (SpanV, DefKindV);

pub open spec fn opt_text(o: Option<String>) -> Option<Seq<char>> {
    match o {
        Some(s) => Some(s@),
        None => None,
    }
}

pub open spec fn kind_view(k: DefinitionKind) -> DefKindV {
    match k {
        DefinitionKind::Type => DefKindV::Type,
        DefinitionKind::Entity { entity_type } => DefKindV::Entity(entity_type@),
        DefinitionKind::Property { owner_type, property_type, default_repr } =>
            DefKindV::Property(owner_type@, property_type@, opt_text(default_repr)),
        DefinitionKind::Section { local_name, file_stem } => DefKindV::Section(local_name@, file_stem@),
        DefinitionKind::Location { display_name } => DefKindV::Location(display_name@),
        DefinitionKind::Exit { from_location, destination } => DefKindV::Exit(from_location@, destination@),
        DefinitionKind::Choice { section_id, label } => DefKindV::Choice(section_id@, label@),
        DefinitionKind::Rule => DefKindV::Rule,
    }
}

pub open spec fn def_view(e: DefinitionEntry) -> DefV {
    (span_view(e.span), kind_view(e.kind))
}

/// The entries of a definition map (key with entry), in insertion order.
pub uninterp spec fn definition_entries(m: IndexMap<String, DefinitionEntry>) -> Seq<(Seq<char>, DefV)>;

/// `IndexMap::new` for definitions: no entries.
#[verifier::external_body]
fn definitions_new() -> (m: IndexMap<String, DefinitionEntry>)
    ensures
        definition_entries(m) == Seq::<(Seq<char>, DefV)>::empty(),
{
    IndexMap::new()
}

/// `IndexMap::insert` on definitions: under a key already present the entry
/// is replaced in place; a new key is appended last.
#[verifier::external_body]
fn definition_insert(m: &mut IndexMap<String, DefinitionEntry>, key: String, value: DefinitionEntry)
    ensures
        definition_entries(*final(m)) == map_put(definition_entries(*old(m)), key@, def_view(value)),
{
    m.insert(key, value);
}

/// `IndexMap::get` on definitions.
#[verifier::external_body]
fn definition_get<'a>(m: &'a IndexMap<String, DefinitionEntry>, key: &str) -> (r: Option<&'a DefinitionEntry>)
    ensures
        match key_index(definition_entries(*m), key@) {
            Some(i) => r is Some && def_view(*r.unwrap()) == definition_entries(*m)[i].1,
            None => r is None,
        },
{
    m.get(key)
}

/// `IndexMap::keys` on definitions, cloned: the keys in insertion order.
#[verifier::external_body]
fn definition_keys(m: &IndexMap<String, DefinitionEntry>) -> (r: Vec<String>)
    ensures
        strings_view(r@) == keys_of(definition_entries(*m)),
        strings_view(r@).no_duplicates(),
{
    m.keys().cloned().collect()
}

/// `IndexMap::len` on definitions.
#[verifier::external_body]
fn definition_len(m: &IndexMap<String, DefinitionEntry>) -> (n: usize)
    ensures
        n == definition_entries(*m).len(),
{
    m.len()
}

/// A value as definition metadata shows it: strings quoted, lists in
/// brackets.
pub open spec fn repr_sv(v: ScalarV) -> Seq<char>
    decreases v, 1int,
{
    match v {
        ScalarV::Str(s) => "\""@ + s + "\""@,
        ScalarV::Int(i) => signed_decimal(i),
        ScalarV::Num(t) => t,
        ScalarV::Bool(b) => bool_text(b),
        ScalarV::Ref(s) => "@"@ + s,
        ScalarV::List(items) => "["@ + repr_svs(items) + "]"@,
    }
}

/// Values shown and joined with `, `.
pub open spec fn repr_svs(v: Seq<ScalarV>) -> Seq<char>
    decreases v, 0int,
{
    if v.len() == 0 {
        Seq::empty()
    } else if v.len() == 1 {
        repr_sv(v[0])
    } else {
        repr_svs(v.subrange(0, v.len() - 1)) + ", "@ + repr_sv(v[v.len() - 1])
    }
}

proof fn lemma_repr_svs_push(s: Seq<ScalarV>, x: ScalarV)
    ensures
        repr_svs(s.push(x)) == if s.len() == 0 { repr_sv(x) } else { repr_svs(s) + ", "@ + repr_sv(x) },
{
    assert(s.push(x).subrange(0, s.len() as int) =~= s);
}

/// Format a value for display in definition metadata.
pub fn format_value(value: &Value) -> (s: String)
    ensures
        s@ == repr_sv(crate::link::value_sv(*value)),
    decreases value,
{
    match value {
        Value::String(t) => {
            let mut v: Vec<char> = Vec::new();
            push_str(&mut v, "\"");
            push_str(&mut v, t.as_str());
            push_str(&mut v, "\"");
            proof { reveal_strlit("\""); }
            assert(v@ =~= "\""@ + t@ + "\""@);
            string_from_chars(v)
        },
        Value::Integer(i) => string_from_chars(signed_decimal_chars(*i)),
        Value::Number(t) => t.clone(),
        Value::Boolean(b) => {
            proof {
                reveal_strlit("true");
                reveal_strlit("false");
            }
            if *b { "true".to_string() } else { "false".to_string() }
        },
        Value::EntityRef(t) => {
            let mut v: Vec<char> = Vec::new();
            push_str(&mut v, "@");
            push_str(&mut v, t.as_str());
            proof { reveal_strlit("@"); }
            assert(v@ =~= "@"@ + t@);
            string_from_chars(v)
        },
        Value::List(items) => {
            let mut v: Vec<char> = Vec::new();
            let mut i: usize = 0;
            proof { reveal_strlit(", "); }
            while i < items.len()
                invariant
                    i <= items.len(),
                    *value == Value::List(*items),
                    v@ == repr_svs(crate::link::values_sv(items@.take(i as int))),
                decreases items.len() - i,
            {
                proof {
                    assert(decreases_to!(*value => (*value)->List_0));
                    vstd::std_specs::vec::axiom_vec_index_decreases(*items, i as int);
                    crate::collect::lemma_values_sv_push(items@.take(i as int), items@[i as int]);
                    assert(items@.take(i + 1) =~= items@.take(i as int).push(items@[i as int]));
                    lemma_repr_svs_push(crate::link::values_sv(items@.take(i as int)), crate::link::value_sv(items@[i as int]));
                }
                let x = format_value(&items[i]);
                if i > 0 {
                    push_str(&mut v, ", ");
                }
                let c = crate::text::chars_of(x.as_str());
                push_chars(&mut v, &c);
                i += 1;
            }
            let mut out: Vec<char> = Vec::new();
            push_str(&mut out, "[");
            push_chars(&mut out, &v);
            push_str(&mut out, "]");
            proof {
                reveal_strlit("[");
                reveal_strlit("]");
                assert(items@.take(items.len() as int) =~= items@);
            }
            assert(out@ =~= "["@ + repr_svs(crate::link::values_sv(items@)) + "]"@);
            string_from_chars(out)
        },
    }
}

// ── The index ──

pub type DefItems = Seq<(Seq<char>, DefV)>;

/// `s` with each item of `items` put in, in order.
pub open spec fn puts(s: DefItems, items: DefItems) -> DefItems
    decreases items.len(),
{
    if items.len() == 0 {
        s
    } else {
        map_put(puts(s, items.drop_last()), items.last().0, items.last().1)
    }
}

proof fn lemma_puts_push(s: DefItems, items: DefItems, x: (Seq<char>, DefV))
    ensures
        puts(s, items.push(x)) == map_put(puts(s, items), x.0, x.1),
{
    assert(items.push(x).drop_last() =~= items);
}

/// Putting in `a + b` is putting in `a`, then `b`.
pub proof fn lemma_puts_append(s: DefItems, a: DefItems, b: DefItems)
    ensures
        puts(s, a + b) == puts(puts(s, a), b),
    decreases b.len(),
{
    if b.len() == 0 {
        assert(a + b =~= a);
    } else {
        assert((a + b).drop_last() =~= a + b.drop_last());
        lemma_puts_append(s, a, b.drop_last());
    }
}

pub open spec fn default_repr(d: Option<ScalarV>) -> Option<Seq<char>> {
    match d {
        Some(v) => Some(repr_sv(v)),
        None => None,
    }
}

/// The definitions of a type's properties.
pub open spec fn prop_items(owner: Seq<char>, ps: Seq<PropV>) -> DefItems
    decreases ps.len(),
{
    if ps.len() == 0 {
        Seq::empty()
    } else {
        let p = ps.last();
        prop_items(owner, ps.drop_last()).push(("prop:"@ + owner + "."@ + p.0,
            (p.4.span, DefKindV::Property(owner, p.4.raw_type, default_repr(p.4.default)))))
    }
}

/// The definitions of the types and their properties.
pub open spec fn type_items(ents: Seq<(Seq<char>, crate::link::TypeV)>) -> DefItems
    decreases ents.len(),
{
    if ents.len() == 0 {
        Seq::empty()
    } else {
        let e = ents.last();
        type_items(ents.drop_last()) + seq![("type:"@ + e.0, (e.1.4, DefKindV::Type))] + prop_items(e.0, e.1.3)
    }
}

/// The definitions of the entities.
pub open spec fn entity_items(ents: Seq<(Seq<char>, crate::link::EntityV)>) -> DefItems
    decreases ents.len(),
{
    if ents.len() == 0 {
        Seq::empty()
    } else {
        let e = ents.last();
        entity_items(ents.drop_last()).push(("entity:@"@ + e.0, (e.1.3, DefKindV::Entity(e.1.4))))
    }
}

/// The definitions of a section's choices.
pub open spec fn choice_items(section: Seq<char>, cs: Seq<crate::link::ChoiceV>) -> DefItems
    decreases cs.len(),
{
    if cs.len() == 0 {
        Seq::empty()
    } else {
        let c = cs.last();
        choice_items(section, cs.drop_last()).push(("choice:"@ + c.1, (c.3, DefKindV::Choice(section, c.0))))
    }
}

/// The definitions of the sections and their choices.
pub open spec fn section_items(ents: Seq<(Seq<char>, crate::link::SectionV)>) -> DefItems
    decreases ents.len(),
{
    if ents.len() == 0 {
        Seq::empty()
    } else {
        let e = ents.last();
        section_items(ents.drop_last()) + seq![("section:"@ + e.0, (e.1.4, DefKindV::Section(e.1.0, e.1.2)))]
            + choice_items(e.0, e.1.3)
    }
}

/// The definitions of a location's exits: the destination is the resolved
/// one when there is one, else the one written.
pub open spec fn exit_items(slug: Seq<char>, xs: Seq<ExitV>, rest: Seq<ExitRest>) -> DefItems
    decreases xs.len(),
{
    if xs.len() == 0 {
        Seq::empty()
    } else {
        let k = xs.len() - 1;
        exit_items(slug, xs.drop_last(), rest).push(("exit:"@ + slug + "/"@ + xs[k].0,
            (rest[k].3, DefKindV::Exit(slug, match xs[k].1 { Some(d) => d, None => rest[k].0 }))))
    }
}

/// The definitions of the locations and their exits.
pub open spec fn location_items(ents: Seq<(Seq<char>, crate::link::LocationV)>) -> DefItems
    decreases ents.len(),
{
    if ents.len() == 0 {
        Seq::empty()
    } else {
        let e = ents.last();
        location_items(ents.drop_last()) + seq![("location:"@ + e.0, (e.1.3, DefKindV::Location(e.1.5)))]
            + exit_items(e.0, e.1.1, e.1.6)
    }
}

/// The definitions of the rules.
pub open spec fn rule_items(ents: Seq<(Seq<char>, crate::link::RuleV)>) -> DefItems
    decreases ents.len(),
{
    if ents.len() == 0 {
        Seq::empty()
    } else {
        let e = ents.last();
        rule_items(ents.drop_last()).push(("rule:"@ + e.0, (e.1.3, DefKindV::Rule)))
    }
}

/// Every definition of a symbol table, in the order the index takes them:
/// types (each followed by its properties), entities, sections (each
/// followed by its choices), locations (each followed by its exits), rules.
pub open spec fn def_items(t: SymbolTable) -> DefItems {
    type_items(crate::link::type_entries(t.types)) + entity_items(crate::link::entity_entries(t.entities))
        + section_items(crate::link::section_symbol_entries(t.sections))
        + location_items(crate::link::location_entries(t.locations)) + rule_items(crate::link::rule_entries(t.rules))
}

/// In a namespace with unique keys, the `i`-th key is found at `i`.
proof fn lemma_key_at<V>(ents: Seq<(Seq<char>, V)>, keys: Seq<Seq<char>>, i: int)
    requires
        keys == keys_of(ents),
        keys.no_duplicates(),
        0 <= i < ents.len(),
    ensures
        key_index(ents, keys[i]) == Some(i),
        ents[i].0 == keys[i],
{
    assert(keys_of(ents)[i] == ents[i].0);
    assert forall|j: int| 0 <= j < i implies (#[trigger] ents[j]).0 != keys[i] by {
        assert(keys_of(ents)[j] == ents[j].0);
    }
    crate::link::lemma_key_index_first(ents, keys[i], i);
}

fn cat2(a: &str, b: &str) -> (r: String)
    ensures
        r@ == a@ + b@,
{
    let mut v = crate::text::chars_of(a);
    push_str(&mut v, b);
    string_from_chars(v)
}

fn cat4(a: &str, b: &str, c: &str, d: &str) -> (r: String)
    ensures
        r@ == a@ + b@ + c@ + d@,
{
    let mut v = crate::text::chars_of(a);
    push_str(&mut v, b);
    push_str(&mut v, c);
    push_str(&mut v, d);
    string_from_chars(v)
}

/// Index mapping namespace-prefixed keys to their declaration sites.
pub struct DefinitionIndex {
    entries: IndexMap<String, DefinitionEntry>,
}

impl DefinitionIndex {
    /// The definitions, key with entry, in insertion order.
    pub closed spec fn spec_entries(&self) -> DefItems {
        definition_entries(self.entries)
    }

    /// Build the index from a resolved symbol table: a definition for each
    /// type, property, entity, section, choice, location, exit and rule.
    pub fn build(symbol_table: &SymbolTable) -> (idx: Self)
        ensures
            idx.spec_entries() == puts(Seq::empty(), def_items(*symbol_table)),
    {
        let mut m = definitions_new();
        let ghost e0 = definition_entries(m);
        add_types(&mut m, symbol_table);
        let ghost e1 = definition_entries(m);
        add_entities(&mut m, symbol_table);
        let ghost e2 = definition_entries(m);
        add_sections(&mut m, symbol_table);
        let ghost e3 = definition_entries(m);
        add_locations(&mut m, symbol_table);
        let ghost e4 = definition_entries(m);
        add_rules(&mut m, symbol_table);
        proof {
            let t = *symbol_table;
            let a = type_items(crate::link::type_entries(t.types));
            let b = entity_items(crate::link::entity_entries(t.entities));
            let c = section_items(crate::link::section_symbol_entries(t.sections));
            let d = location_items(crate::link::location_entries(t.locations));
            let r = rule_items(crate::link::rule_entries(t.rules));
            lemma_puts_append(e0, a + b + c + d, r);
            lemma_puts_append(e0, a + b + c, d);
            lemma_puts_append(e0, a + b, c);
            lemma_puts_append(e0, a, b);
        }
        DefinitionIndex { entries: m }
    }

    /// Look up a definition by its namespace-prefixed key.
    pub fn get(&self, key: &str) -> (r: Option<&DefinitionEntry>)
        ensures
            match key_index(self.spec_entries(), key@) {
                Some(i) => r is Some && def_view(*r.unwrap()) == self.spec_entries()[i].1,
                None => r is None,
            },
    {
        definition_get(&self.entries, key)
    }

    /// The keys of all definitions, in insertion order.
    pub fn keys(&self) -> (r: Vec<String>)
        ensures
            strings_view(r@) == keys_of(self.spec_entries()),
    {
        definition_keys(&self.entries)
    }

    /// All entries, in insertion order.
    pub fn entries(&self) -> (r: &IndexMap<String, DefinitionEntry>)
        ensures
            definition_entries(*r) == self.spec_entries(),
    {
        &self.entries
    }

    /// All (key, entry) pairs, in insertion order.
    pub fn iter(&self) -> (r: Vec<(String, &DefinitionEntry)>)
        ensures
            r@.len() == self.spec_entries().len(),
            forall|i: int| 0 <= i < r@.len() ==> (#[trigger] r@[i]).0@ == self.spec_entries()[i].0
                && def_view(*r@[i].1) == self.spec_entries()[i].1,
    {
        let ghost ents = self.spec_entries();
        let keys = definition_keys(&self.entries);
        proof { assert(keys_of(ents).len() == ents.len()); assert(strings_view(keys@).len() == keys@.len()); }
        let mut out: Vec<(String, &DefinitionEntry)> = Vec::new();
        let mut i: usize = 0;
        while i < keys.len()
            invariant
                i <= keys.len(),
                ents == self.spec_entries(),
                ents == definition_entries(self.entries),
                strings_view(keys@) == keys_of(ents),
                strings_view(keys@).no_duplicates(),
                keys@.len() == ents.len(),
                out@.len() == i,
                forall|j: int| 0 <= j < i ==> (#[trigger] out@[j]).0@ == ents[j].0 && def_view(*out@[j].1) == ents[j].1,
            decreases keys.len() - i,
        {
            proof {
                assert(strings_view(keys@)[i as int] == keys@[i as int]@);
                assert(keys_of(ents)[i as int] == ents[i as int].0);
                assert forall|j: int| 0 <= j < i implies (#[trigger] ents[j]).0 != keys@[i as int]@ by {
                    assert(keys_of(ents)[j] == ents[j].0);
                    assert(strings_view(keys@)[j] == keys@[j]@);
                }
                crate::link::lemma_key_index_first(ents, keys@[i as int]@, i as int);
            }
            let e = definition_get(&self.entries, keys[i].as_str()).unwrap();
            out.push((keys[i].clone(), e));
            i += 1;
        }
        out
    }

    /// The index as JSON: each definition with its key, span and kind
    /// metadata, in order, and the count.
    pub fn to_json(&self) -> (j: Json)
        ensures
            json_view(j) == definitions_json(self.spec_entries()),
    {
        let ghost ents = self.spec_entries();
        let keys = definition_keys(&self.entries);
        proof {
            assert(keys_of(ents).len() == ents.len());
            assert(strings_view(keys@).len() == keys@.len());
        }
        let mut items: Vec<Json> = Vec::new();
        proof { assert(json_views(items@) =~= ents.take(0).map_values(|e: (Seq<char>, DefV)| entry_json(e))); }
        let mut i: usize = 0;
        while i < keys.len()
            invariant
                i <= keys.len(),
                keys@.len() == ents.len(),
                ents == self.spec_entries(),
                strings_view(keys@) == keys_of(ents),
                strings_view(keys@).no_duplicates(),
                json_views(items@) == ents.take(i as int).map_values(|e: (Seq<char>, DefV)| entry_json(e)),
            decreases keys.len() - i,
        {
            proof {
                lemma_key_at(ents, strings_view(keys@), i as int);
                assert(strings_view(keys@)[i as int] == keys@[i as int]@);
            }
            let e = definition_get(&self.entries, keys[i].as_str()).unwrap();
            let mut m: Vec<(String, Json)> = Vec::new();
            proof { assert(json_members(m@) =~= Seq::<(Seq<char>, JsonV)>::empty()); }
            push_member(&mut m, "key", text_json(keys[i].as_str()));
            push_member(&mut m, "span", span_to_json(&e.span));
            push_member(&mut m, "definition", kind_to_json(&e.kind));
            proof {
                reveal_strlit("key");
                reveal_strlit("span");
                reveal_strlit("definition");
            }
            proof {
                assert(json_members(m@) =~= seq![("key"@, jstr(ents[i as int].0)), ("span"@, span_json(ents[i as int].1.0)),
                    ("definition"@, kind_json(ents[i as int].1.1))]);
            }
            let x = object(m);
            proof {
                assert(json_view(x) == entry_json(ents[i as int]));
                lemma_json_views_push(items@, x);
                assert(ents.take(i + 1).map_values(|e: (Seq<char>, DefV)| entry_json(e))
                    =~= ents.take(i as int).map_values(|e: (Seq<char>, DefV)| entry_json(e)).push(entry_json(ents[i as int])));
            }
            items.push(x);
            i += 1;
        }
        let n = definition_len(&self.entries);
        proof { assert(ents.take(keys@.len() as int) =~= ents); }
        let mut top: Vec<(String, Json)> = Vec::new();
        proof { assert(json_members(top@) =~= Seq::<(Seq<char>, JsonV)>::empty()); }
        push_member(&mut top, "definitions", Json::Array(items));
        push_member(&mut top, "count", Json::UInt(n as u64));
        proof {
            reveal_strlit("definitions");
            reveal_strlit("count");
            assert(json_members(top@) =~= seq![("definitions"@,
                JsonV::Array(ents.map_values(|e: (Seq<char>, DefV)| entry_json(e)))), ("count"@, JsonV::Int(ents.len() as int))]);
        }
        object(top)
    }

    /// Number of definitions in the index.
    pub fn len(&self) -> (n: usize)
        ensures
            n == self.spec_entries().len(),
    {
        definition_len(&self.entries)
    }

    /// Whether the index is empty.
    pub fn is_empty(&self) -> (b: bool)
        ensures
            b == (self.spec_entries().len() == 0),
    {
        definition_len(&self.entries) == 0
    }
}

fn add_types(m: &mut IndexMap<String, DefinitionEntry>, t: &SymbolTable)
    ensures
        definition_entries(*final(m)) == puts(definition_entries(*old(m)), type_items(crate::link::type_entries(t.types))),
{
    let ghost m0 = definition_entries(*m);
    let ghost ents = crate::link::type_entries(t.types);
    let keys = crate::link::type_keys(&t.types);
    proof {
        assert(keys_of(ents).len() == ents.len());
        assert(strings_view(keys@).len() == keys@.len());
        assert(ents.take(0) =~= Seq::<(Seq<char>, crate::link::TypeV)>::empty());
    }
    let mut i: usize = 0;
    while i < keys.len()
        invariant
            i <= keys.len(),
            keys@.len() == ents.len(),
            ents == crate::link::type_entries(t.types),
            strings_view(keys@) == keys_of(ents),
            strings_view(keys@).no_duplicates(),
            definition_entries(*m) == puts(m0, type_items(ents.take(i as int))),
        decreases keys.len() - i,
    {
        proof {
            lemma_key_at(ents, strings_view(keys@), i as int);
            assert(strings_view(keys@)[i as int] == keys@[i as int]@);
        }
        let key = keys[i].as_str();
        let ty = crate::link::type_get(&t.types, key).unwrap();
        let ghost x = type_items(ents.take(i as int));
        let ghost head = ("type:"@ + key@, (span_view(ty.declared_in), DefKindV::Type));
        let ghost ps = ents[i as int].1.3;
        proof { reveal_strlit("type:"); lemma_puts_push(m0, x, head); }
        definition_insert(m, cat2("type:", key), DefinitionEntry { span: ty.declared_in.clone(), kind: DefinitionKind::Type });
        proof { assert(x.push(head) + prop_items(key@, ps.take(0)) =~= x.push(head)); }
        let mut j: usize = 0;
        while j < ty.properties.len()
            invariant
                j <= ty.properties.len(),
                ps == ty.properties@.map_values(|p: crate::symbol_table::PropertySymbol| crate::link::prop_view(p)),
                definition_entries(*m) == puts(m0, x.push(head) + prop_items(key@, ps.take(j as int))),
            decreases ty.properties.len() - j,
        {
            let p = &ty.properties[j];
            let default_repr = match &p.default {
                Some(d) => Some(format_value(d)),
                None => None,
            };
            let ghost item = ("prop:"@ + key@ + "."@ + p.name@, (span_view(p.declared_in),
                DefKindV::Property(key@, p.raw_type_string@, opt_text(default_repr))));
            proof {
                reveal_strlit("prop:");
                reveal_strlit(".");
                assert(ps[j as int] == crate::link::prop_view(*p));
                assert(ps.take(j + 1).drop_last() =~= ps.take(j as int));
                assert(prop_items(key@, ps.take(j + 1)) == prop_items(key@, ps.take(j as int)).push(item));
                assert(x.push(head) + prop_items(key@, ps.take(j + 1))
                    =~= (x.push(head) + prop_items(key@, ps.take(j as int))).push(item));
                lemma_puts_push(m0, x.push(head) + prop_items(key@, ps.take(j as int)), item);
            }
            definition_insert(m, cat4("prop:", key, ".", p.name.as_str()), DefinitionEntry {
                span: p.declared_in.clone(),
                kind: DefinitionKind::Property {
                    owner_type: string_from_chars(crate::text::chars_of(key)),
                    property_type: p.raw_type_string.clone(),
                    default_repr,
                },
            });
            j += 1;
        }
        proof {
            assert(ps.take(ty.properties@.len() as int) =~= ps);
            assert(ents.take(i + 1).drop_last() =~= ents.take(i as int));
            assert(type_items(ents.take(i + 1)) =~= x + seq![head] + prop_items(key@, ps));
            assert(x + seq![head] =~= x.push(head));
        }
        i += 1;
    }
    proof { assert(ents.take(keys@.len() as int) =~= ents); }
}

fn add_entities(m: &mut IndexMap<String, DefinitionEntry>, t: &SymbolTable)
    ensures
        definition_entries(*final(m)) == puts(definition_entries(*old(m)), entity_items(crate::link::entity_entries(t.entities))),
{
    let ghost m0 = definition_entries(*m);
    let ghost ents = crate::link::entity_entries(t.entities);
    let keys = crate::link::entity_keys(&t.entities);
    proof {
        assert(keys_of(ents).len() == ents.len());
        assert(strings_view(keys@).len() == keys@.len());
        assert(ents.take(0) =~= Seq::<(Seq<char>, crate::link::EntityV)>::empty());
    }
    let mut i: usize = 0;
    while i < keys.len()
        invariant
            i <= keys.len(),
            keys@.len() == ents.len(),
            ents == crate::link::entity_entries(t.entities),
            strings_view(keys@) == keys_of(ents),
            strings_view(keys@).no_duplicates(),
            definition_entries(*m) == puts(m0, entity_items(ents.take(i as int))),
        decreases keys.len() - i,
    {
        proof {
            lemma_key_at(ents, strings_view(keys@), i as int);
            assert(strings_view(keys@)[i as int] == keys@[i as int]@);
        }
        let key = keys[i].as_str();
        let e = crate::link::entity_get(&t.entities, key).unwrap();
        let ghost item = ("entity:@"@ + key@, (span_view(e.declared_in), DefKindV::Entity(e.entity_type@)));
        proof {
            reveal_strlit("entity:@");
            assert(ents.take(i + 1).drop_last() =~= ents.take(i as int));
            lemma_puts_push(m0, entity_items(ents.take(i as int)), item);
        }
        definition_insert(m, cat2("entity:@", key), DefinitionEntry {
            span: e.declared_in.clone(),
            kind: DefinitionKind::Entity { entity_type: e.entity_type.clone() },
        });
        i += 1;
    }
    proof { assert(ents.take(keys@.len() as int) =~= ents); }
}

fn add_sections(m: &mut IndexMap<String, DefinitionEntry>, t: &SymbolTable)
    ensures
        definition_entries(*final(m)) == puts(definition_entries(*old(m)), section_items(crate::link::section_symbol_entries(t.sections))),
{
    let ghost m0 = definition_entries(*m);
    let ghost ents = crate::link::section_symbol_entries(t.sections);
    let keys = crate::link::section_symbol_keys(&t.sections);
    proof {
        assert(keys_of(ents).len() == ents.len());
        assert(strings_view(keys@).len() == keys@.len());
        assert(ents.take(0) =~= Seq::<(Seq<char>, crate::link::SectionV)>::empty());
    }
    let mut i: usize = 0;
    while i < keys.len()
        invariant
            i <= keys.len(),
            keys@.len() == ents.len(),
            ents == crate::link::section_symbol_entries(t.sections),
            strings_view(keys@) == keys_of(ents),
            strings_view(keys@).no_duplicates(),
            definition_entries(*m) == puts(m0, section_items(ents.take(i as int))),
        decreases keys.len() - i,
    {
        proof {
            lemma_key_at(ents, strings_view(keys@), i as int);
            assert(strings_view(keys@)[i as int] == keys@[i as int]@);
        }
        let key = keys[i].as_str();
        let sec = crate::link::section_symbol_get(&t.sections, key).unwrap();
        let ghost x = section_items(ents.take(i as int));
        let ghost head = ("section:"@ + key@, (span_view(sec.declared_in), DefKindV::Section(sec.local_name@, sec.file_stem@)));
        let ghost cs = ents[i as int].1.3;
        proof { reveal_strlit("section:"); lemma_puts_push(m0, x, head); }
        definition_insert(m, cat2("section:", key), DefinitionEntry {
            span: sec.declared_in.clone(),
            kind: DefinitionKind::Section { local_name: sec.local_name.clone(), file_stem: sec.file_stem.clone() },
        });
        proof { assert(x.push(head) + choice_items(key@, cs.take(0)) =~= x.push(head)); }
        let mut j: usize = 0;
        while j < sec.choices.len()
            invariant
                j <= sec.choices.len(),
                cs == sec.choices@.map_values(|c: crate::symbol_table::ChoiceSymbol| crate::link::choice_sym_view(c)),
                definition_entries(*m) == puts(m0, x.push(head) + choice_items(key@, cs.take(j as int))),
            decreases sec.choices.len() - j,
        {
            let c = &sec.choices[j];
            let ghost item = ("choice:"@ + c.compiled_id@, (span_view(c.declared_in), DefKindV::Choice(key@, c.label@)));
            proof {
                reveal_strlit("choice:");
                assert(cs[j as int] == crate::link::choice_sym_view(*c));
                assert(cs.take(j + 1).drop_last() =~= cs.take(j as int));
                assert(choice_items(key@, cs.take(j + 1)) == choice_items(key@, cs.take(j as int)).push(item));
                assert(x.push(head) + choice_items(key@, cs.take(j + 1))
                    =~= (x.push(head) + choice_items(key@, cs.take(j as int))).push(item));
                lemma_puts_push(m0, x.push(head) + choice_items(key@, cs.take(j as int)), item);
            }
            definition_insert(m, cat2("choice:", c.compiled_id.as_str()), DefinitionEntry {
                span: c.declared_in.clone(),
                kind: DefinitionKind::Choice { section_id: string_from_chars(crate::text::chars_of(key)), label: c.label.clone() },
            });
            j += 1;
        }
        proof {
            assert(cs.take(sec.choices@.len() as int) =~= cs);
            assert(ents.take(i + 1).drop_last() =~= ents.take(i as int));
            assert(section_items(ents.take(i + 1)) =~= x + seq![head] + choice_items(key@, cs));
            assert(x + seq![head] =~= x.push(head));
        }
        i += 1;
    }
    proof { assert(ents.take(keys@.len() as int) =~= ents); }
}

fn add_locations(m: &mut IndexMap<String, DefinitionEntry>, t: &SymbolTable)
    ensures
        definition_entries(*final(m)) == puts(definition_entries(*old(m)), location_items(crate::link::location_entries(t.locations))),
{
    let ghost m0 = definition_entries(*m);
    let ghost ents = crate::link::location_entries(t.locations);
    let keys = crate::link::location_keys(&t.locations);
    proof {
        assert(keys_of(ents).len() == ents.len());
        assert(strings_view(keys@).len() == keys@.len());
        assert(ents.take(0) =~= Seq::<(Seq<char>, crate::link::LocationV)>::empty());
    }
    let mut i: usize = 0;
    while i < keys.len()
        invariant
            i <= keys.len(),
            keys@.len() == ents.len(),
            ents == crate::link::location_entries(t.locations),
            strings_view(keys@) == keys_of(ents),
            strings_view(keys@).no_duplicates(),
            definition_entries(*m) == puts(m0, location_items(ents.take(i as int))),
        decreases keys.len() - i,
    {
        proof {
            lemma_key_at(ents, strings_view(keys@), i as int);
            assert(strings_view(keys@)[i as int] == keys@[i as int]@);
        }
        let key = keys[i].as_str();
        let loc = crate::link::location_get(&t.locations, key).unwrap();
        let ghost x = location_items(ents.take(i as int));
        let ghost head = ("location:"@ + key@, (span_view(loc.declared_in), DefKindV::Location(loc.display_name@)));
        let ghost xs = ents[i as int].1.1;
        let ghost rest = ents[i as int].1.6;
        proof { reveal_strlit("location:"); lemma_puts_push(m0, x, head); }
        definition_insert(m, cat2("location:", key), DefinitionEntry {
            span: loc.declared_in.clone(),
            kind: DefinitionKind::Location { display_name: loc.display_name.clone() },
        });
        proof { assert(x.push(head) + exit_items(key@, xs.take(0), rest) =~= x.push(head)); }
        let mut j: usize = 0;
        while j < loc.exits.len()
            invariant
                j <= loc.exits.len(),
                xs == crate::link::exits_view(loc.exits@),
                rest == loc.exits@.map_values(|x: crate::symbol_table::ExitSymbol| crate::link::exit_rest(x)),
                definition_entries(*m) == puts(m0, x.push(head) + exit_items(key@, xs.take(j as int), rest)),
            decreases loc.exits.len() - j,
        {
            let ex = &loc.exits[j];
            let destination = match &ex.resolved_destination {
                Some(d) => d.clone(),
                None => ex.destination.clone(),
            };
            let ghost item = ("exit:"@ + key@ + "/"@ + ex.direction@, (span_view(ex.declared_in),
                DefKindV::Exit(key@, destination@)));
            proof {
                reveal_strlit("exit:");
                reveal_strlit("/");
                assert(xs[j as int] == crate::link::exit_view(*ex));
                assert(rest[j as int] == crate::link::exit_rest(*ex));
                assert(xs.take(j + 1).drop_last() =~= xs.take(j as int));
                assert(xs.take(j + 1)[j as int] == xs[j as int]);
                assert(exit_items(key@, xs.take(j + 1), rest) == exit_items(key@, xs.take(j as int), rest).push(item));
                assert(x.push(head) + exit_items(key@, xs.take(j + 1), rest)
                    =~= (x.push(head) + exit_items(key@, xs.take(j as int), rest)).push(item));
                lemma_puts_push(m0, x.push(head) + exit_items(key@, xs.take(j as int), rest), item);
            }
            definition_insert(m, cat4("exit:", key, "/", ex.direction.as_str()), DefinitionEntry {
                span: ex.declared_in.clone(),
                kind: DefinitionKind::Exit { from_location: string_from_chars(crate::text::chars_of(key)), destination },
            });
            j += 1;
        }
        proof {
            assert(xs.take(loc.exits@.len() as int) =~= xs);
            assert(ents.take(i + 1).drop_last() =~= ents.take(i as int));
            assert(location_items(ents.take(i + 1)) =~= x + seq![head] + exit_items(key@, xs, rest));
            assert(x + seq![head] =~= x.push(head));
        }
        i += 1;
    }
    proof { assert(ents.take(keys@.len() as int) =~= ents); }
}

fn add_rules(m: &mut IndexMap<String, DefinitionEntry>, t: &SymbolTable)
    ensures
        definition_entries(*final(m)) == puts(definition_entries(*old(m)), rule_items(crate::link::rule_entries(t.rules))),
{
    let ghost m0 = definition_entries(*m);
    let ghost ents = crate::link::rule_entries(t.rules);
    let keys = crate::link::rule_keys(&t.rules);
    proof {
        assert(keys_of(ents).len() == ents.len());
        assert(strings_view(keys@).len() == keys@.len());
        assert(ents.take(0) =~= Seq::<(Seq<char>, crate::link::RuleV)>::empty());
    }
    let mut i: usize = 0;
    while i < keys.len()
        invariant
            i <= keys.len(),
            keys@.len() == ents.len(),
            ents == crate::link::rule_entries(t.rules),
            strings_view(keys@) == keys_of(ents),
            strings_view(keys@).no_duplicates(),
            definition_entries(*m) == puts(m0, rule_items(ents.take(i as int))),
        decreases keys.len() - i,
    {
        proof {
            lemma_key_at(ents, strings_view(keys@), i as int);
            assert(strings_view(keys@)[i as int] == keys@[i as int]@);
        }
        let key = keys[i].as_str();
        let r = crate::link::rule_get(&t.rules, key).unwrap();
        let ghost item = ("rule:"@ + key@, (span_view(r.declared_in), DefKindV::Rule));
        proof {
            reveal_strlit("rule:");
            assert(ents.take(i + 1).drop_last() =~= ents.take(i as int));
            lemma_puts_push(m0, rule_items(ents.take(i as int)), item);
        }
        definition_insert(m, cat2("rule:", key), DefinitionEntry { span: r.declared_in.clone(), kind: DefinitionKind::Rule });
        i += 1;
    }
    proof { assert(ents.take(keys@.len() as int) =~= ents); }
}

// ── JSON ──

/// A definition's kind metadata as the index's JSON gives it.
pub open spec fn kind_json(k: DefKindV) -> JsonV {
    match k {
        DefKindV::Type => JsonV::Object(seq![("kind"@, jstr("type"@))]),
        DefKindV::Entity(t) => JsonV::Object(seq![("kind"@, jstr("entity"@)), ("type_name"@, jstr(t))]),
        DefKindV::Property(o, pt, d) => JsonV::Object(seq![("kind"@, jstr("property"@)), ("type_name"@, jstr(o)),
            ("property_type"@, jstr(pt)), ("default"@, match d { Some(x) => jstr(x), None => JsonV::Null })]),
        DefKindV::Section(l, f) => JsonV::Object(seq![("kind"@, jstr("section"@)), ("local_name"@, jstr(l)),
            ("file_stem"@, jstr(f))]),
        DefKindV::Location(d) => JsonV::Object(seq![("kind"@, jstr("location"@)), ("display_name"@, jstr(d))]),
        DefKindV::Exit(f, d) => JsonV::Object(seq![("kind"@, jstr("exit"@)), ("from_location"@, jstr(f)),
            ("destination"@, jstr(d))]),
        DefKindV::Choice(s, l) => JsonV::Object(seq![("kind"@, jstr("choice"@)), ("section_id"@, jstr(s)),
            ("label"@, jstr(l))]),
        DefKindV::Rule => JsonV::Object(seq![("kind"@, jstr("rule"@))]),
    }
}

/// One definition as the index's JSON gives it.
pub open spec fn entry_json(e: (Seq<char>, DefV)) -> JsonV {
    JsonV::Object(seq![("key"@, jstr(e.0)), ("span"@, span_json(e.1.0)), ("definition"@, kind_json(e.1.1))])
}

/// The index as JSON: its definitions in order, and their count.
pub open spec fn definitions_json(entries: DefItems) -> JsonV {
    JsonV::Object(seq![("definitions"@, JsonV::Array(entries.map_values(|e: (Seq<char>, DefV)| entry_json(e)))),
        ("count"@, JsonV::Int(entries.len() as int))])
}

fn kind_to_json(k: &DefinitionKind) -> (j: Json)
    ensures
        json_view(j) == kind_json(kind_view(*k)),
{
    let mut m: Vec<(String, Json)> = Vec::new();
    proof { assert(json_members(m@) =~= Seq::<(Seq<char>, JsonV)>::empty()); }
    match k {
        DefinitionKind::Type => {
            push_member(&mut m, "kind", text_json("type"));
        },
        DefinitionKind::Entity { entity_type } => {
            push_member(&mut m, "kind", text_json("entity"));
            push_member(&mut m, "type_name", text_json(entity_type.as_str()));
        },
        DefinitionKind::Property { owner_type, property_type, default_repr } => {
            push_member(&mut m, "kind", text_json("property"));
            push_member(&mut m, "type_name", text_json(owner_type.as_str()));
            push_member(&mut m, "property_type", text_json(property_type.as_str()));
            let d = match default_repr {
                Some(x) => text_json(x.as_str()),
                None => Json::Null,
            };
            push_member(&mut m, "default", d);
        },
        DefinitionKind::Section { local_name, file_stem } => {
            push_member(&mut m, "kind", text_json("section"));
            push_member(&mut m, "local_name", text_json(local_name.as_str()));
            push_member(&mut m, "file_stem", text_json(file_stem.as_str()));
        },
        DefinitionKind::Location { display_name } => {
            push_member(&mut m, "kind", text_json("location"));
            push_member(&mut m, "display_name", text_json(display_name.as_str()));
        },
        DefinitionKind::Exit { from_location, destination } => {
            push_member(&mut m, "kind", text_json("exit"));
            push_member(&mut m, "from_location", text_json(from_location.as_str()));
            push_member(&mut m, "destination", text_json(destination.as_str()));
        },
        DefinitionKind::Choice { section_id, label } => {
            push_member(&mut m, "kind", text_json("choice"));
            push_member(&mut m, "section_id", text_json(section_id.as_str()));
            push_member(&mut m, "label", text_json(label.as_str()));
        },
        DefinitionKind::Rule => {
            push_member(&mut m, "kind", text_json("rule"));
        },
    }
    proof {
        reveal_strlit("kind"); reveal_strlit("type"); reveal_strlit("entity"); reveal_strlit("type_name");
        reveal_strlit("property"); reveal_strlit("property_type"); reveal_strlit("default");
        reveal_strlit("section"); reveal_strlit("local_name"); reveal_strlit("file_stem");
        reveal_strlit("location"); reveal_strlit("display_name"); reveal_strlit("exit");
        reveal_strlit("from_location"); reveal_strlit("destination"); reveal_strlit("choice");
        reveal_strlit("section_id"); reveal_strlit("label"); reveal_strlit("rule");
    }
    assert(json_members(m@) =~= match kind_json(kind_view(*k)) {
        JsonV::Object(ms) => ms,
        _ => Seq::empty(),
    });
    object(m)
}

} // verus!
