//! Name-resolution helpers used by LINK: edit distance for "did you mean"
//! suggestions and the property-type keyword table.

use vstd::prelude::*;
use crate::symbol_table::{
    ActionSymbol, AstNodeRef, ChoiceSymbol, EntitySymbol, ExitSymbol, LocationSymbol, PhaseSymbol, PropertySymbol,
    PropertyType, RuleSymbol, SectionSymbol, SelectDef, SequenceSymbol, TypeSymbol, Value,
};
use crate::text::{chars_of, str_equals};
use crate::ast::{opt_view, strings_view, ScalarV};
use crate::span::{SpanV, span_view};
use indexmap::IndexMap;

verus! {

broadcast use vstd::string::group_string_axioms;

pub open spec fn min_nat(x: nat, y: nat) -> nat {
    if x <= y { x } else { y }
}

/// The Levenshtein distance between two character sequences: the least
/// number of single-character insertions, deletions and substitutions that
/// turn `a` into `b`.
pub open spec fn levenshtein(a: Seq<char>, b: Seq<char>) -> nat
    decreases a.len() + b.len(),
{
    if a.len() == 0 {
        b.len()
    } else if b.len() == 0 {
        a.len()
    } else {
        let cost: nat = if a.last() == b.last() { 0 } else { 1 };
        min_nat(
            levenshtein(a.drop_last(), b.drop_last()) + cost,
            min_nat(levenshtein(a.drop_last(), b) + 1, levenshtein(a, b.drop_last()) + 1),
        )
    }
}

/// The distance never exceeds the longer of the two lengths.
pub proof fn lemma_levenshtein_bound(a: Seq<char>, b: Seq<char>)
    ensures
        levenshtein(a, b) <= if a.len() >= b.len() { a.len() } else { b.len() },
    decreases a.len() + b.len(),
{
    if a.len() > 0 && b.len() > 0 {
        lemma_levenshtein_bound(a.drop_last(), b.drop_last());
    }
}

/// A string is at distance zero from itself.
pub proof fn lemma_levenshtein_self(a: Seq<char>)
    ensures
        levenshtein(a, a) == 0,
    decreases a.len(),
{
    if a.len() > 0 {
        lemma_levenshtein_self(a.drop_last());
    }
}

/// Edit distance is symmetric: turning `a` into `b` costs what turning
/// `b` into `a` costs.
pub proof fn lemma_levenshtein_symmetric(a: Seq<char>, b: Seq<char>)
    ensures
        levenshtein(a, b) == levenshtein(b, a),
    decreases a.len() + b.len(),
{
    if a.len() > 0 && b.len() > 0 {
        lemma_levenshtein_symmetric(a.drop_last(), b.drop_last());
        lemma_levenshtein_symmetric(a.drop_last(), b);
        lemma_levenshtein_symmetric(a, b.drop_last());
    }
}

/// Distance zero means equal strings.
pub proof fn lemma_levenshtein_zero(a: Seq<char>, b: Seq<char>)
    requires
        levenshtein(a, b) == 0,
    ensures
        a == b,
    decreases a.len() + b.len(),
{
    if a.len() > 0 && b.len() > 0 {
        lemma_levenshtein_zero(a.drop_last(), b.drop_last());
        assert(a =~= a.drop_last().push(a.last()));
        assert(b =~= b.drop_last().push(b.last()));
    } else {
        assert(a =~= b);
    }
}

fn inc_saturating(x: usize) -> (r: usize)
    ensures
        r == if x < usize::MAX { x + 1 } else { x as int },
{
    if x < usize::MAX { x + 1 } else { x }
}

fn min_usize(x: usize, y: usize) -> (r: usize)
    ensures
        r == min_nat(x as nat, y as nat),
{
    if x <= y { x } else { y }
}

/// Levenshtein edit distance between two strings, counted in characters.
pub fn edit_distance(a: &str, b: &str) -> (d: usize)
    ensures
        d == levenshtein(a@, b@),
{
    let av = chars_of(a);
    let bv = chars_of(b);
    let na = av.len();
    let nb = bv.len();
    if na == 0 {
        return nb;
    }
    if nb == 0 {
        return na;
    }
    // Row `i` of the table holds the distances from `a[..i]` to every prefix of `b`.
    let mut prev: Vec<usize> = Vec::new();
    let mut j: usize = 0;
    while j < nb
        invariant
            j <= nb == bv@.len(),
            prev@.len() == j,
            forall|k: int| 0 <= k < j ==> prev@[k] == k,
        decreases nb - j,
    {
        prev.push(j);
        j += 1;
    }
    prev.push(nb);
    proof {
        assert forall|k: int| 0 <= k <= nb implies prev@[k] == levenshtein(av@.take(0), bv@.take(k)) by {
            assert(av@.take(0).len() == 0);
        }
    }
    let mut i: usize = 0;
    while i < na
        invariant
            i <= na == av@.len(),
            nb == bv@.len(),
            nb > 0,
            prev@.len() == nb + 1,
            forall|k: int| 0 <= k <= nb ==> prev@[k] == levenshtein(av@.take(i as int), bv@.take(k)),
        decreases na - i,
    {
        let mut curr: Vec<usize> = Vec::new();
        curr.push(i + 1);
        proof {
            assert(bv@.take(0).len() == 0);
            assert(av@.take(i + 1).len() == i + 1);
        }
        let mut j: usize = 0;
        while j < nb
            invariant
                i < na == av@.len(),
                j <= nb == bv@.len(),
                prev@.len() == nb + 1,
                forall|k: int| 0 <= k <= nb ==> prev@[k] == levenshtein(av@.take(i as int), bv@.take(k)),
                curr@.len() == j + 1,
                forall|k: int| 0 <= k <= j ==> curr@[k] == levenshtein(av@.take(i + 1), bv@.take(k)),
            decreases nb - j,
        {
            let ghost x = av@.take(i + 1);
            let ghost y = bv@.take(j + 1);
            proof {
                assert(x.drop_last() =~= av@.take(i as int));
                assert(y.drop_last() =~= bv@.take(j as int));
                assert(x.last() == av@[i as int]);
                assert(y.last() == bv@[j as int]);
                lemma_levenshtein_bound(x, y);
            }
            let cost: usize = if av[i] == bv[j] { 0 } else { 1 };
            let diag = if cost == 0 { prev[j] } else { inc_saturating(prev[j]) };
            let up = inc_saturating(prev[j + 1]);
            let left = inc_saturating(curr[j]);
            let v = min_usize(diag, min_usize(up, left));
            curr.push(v);
            j += 1;
        }
        prev = curr;
        i += 1;
    }
    proof {
        assert(av@.take(na as int) =~= av@);
        assert(bv@.take(nb as int) =~= bv@);
    }
    prev[nb]
}

/// Index of the best suggestion among `names` for `name`: a name at
/// distance 1 or 2, the nearest such, and the earliest among equally near.
pub open spec fn is_best_suggestion(name: Seq<char>, names: Seq<Seq<char>>, i: int) -> bool {
    let d = levenshtein(name, names[i]);
    &&& 0 <= i < names.len()
    &&& near(d)
    &&& forall|j: int| 0 <= j < i && near(#[trigger] levenshtein(name, names[j]))
        ==> levenshtein(name, names[j]) > d
    &&& forall|j: int| i < j < names.len() && near(#[trigger] levenshtein(name, names[j]))
        ==> levenshtein(name, names[j]) >= d
}

/// A distance close enough to suggest: 1 or 2.
pub open spec fn near(d: nat) -> bool {
    0 < d && d <= 2
}

pub open spec fn names_view(names: Seq<String>) -> Seq<Seq<char>> {
    names.map_values(|s: String| s@)
}

/// The suggestion for `name` among `names`: the best one, if any name is
/// near enough.
pub open spec fn suggestion_of(name: Seq<char>, names: Seq<Seq<char>>) -> Option<Seq<char>> {
    if exists|i: int| is_best_suggestion(name, names, i) {
        Some(names[choose|i: int| is_best_suggestion(name, names, i)])
    } else {
        None
    }
}

/// At most one index is the best suggestion.
pub proof fn lemma_best_suggestion_unique(name: Seq<char>, names: Seq<Seq<char>>, i: int, j: int)
    requires
        is_best_suggestion(name, names, i),
        is_best_suggestion(name, names, j),
    ensures
        i == j,
{
    if i < j {
        assert(near(levenshtein(name, names[i])));
    } else if j < i {
        assert(near(levenshtein(name, names[j])));
    }
}

/// Find the best suggestion for a misspelled `name` among the declared
/// `names` (in declaration order): the first name at the smallest edit
/// distance, provided that distance is 1 or 2.
pub fn find_suggestion(name: &str, names: &[String]) -> (r: Option<String>)
    ensures
        opt_view(r) == suggestion_of(name@, names_view(names@)),
        match r {
            Some(s) => exists|i: int| is_best_suggestion(name@, names_view(names@), i)
                && s@ == names@[i]@,
            None => forall|j: int| 0 <= j < names@.len()
                ==> !(near(#[trigger] levenshtein(name@, names@[j]@))),
        },
{
    let ghost nv = names_view(names@);
    let mut best: Option<usize> = None;
    let mut best_d: usize = 0;
    let mut k: usize = 0;
    while k < names.len()
        invariant
            k <= names@.len(),
            nv == names_view(names@),
            nv.len() == names@.len(),
            forall|j: int| 0 <= j < names@.len() ==> #[trigger] nv[j] == names@[j]@,
            match best {
                Some(i) => {
                    &&& i < k
                    &&& best_d == levenshtein(name@, nv[i as int])
                    &&& near(best_d as nat)
                    &&& forall|j: int| 0 <= j < i && near(#[trigger] levenshtein(name@, nv[j]))
                        ==> levenshtein(name@, nv[j]) > best_d
                    &&& forall|j: int| i < j < k && near(#[trigger] levenshtein(name@, nv[j]))
                        ==> levenshtein(name@, nv[j]) >= best_d
                },
                None => forall|j: int| 0 <= j < k ==> !(near(#[trigger] levenshtein(name@, nv[j]))),
            },
        decreases names@.len() - k,
    {
        let dist = edit_distance(name, names[k].as_str());
        assert(nv[k as int] == names@[k as int]@);
        if dist > 0 && dist <= 2 {
            let better = match best {
                Some(_) => dist < best_d,
                None => true,
            };
            if better {
                best = Some(k);
                best_d = dist;
            }
        }
        k += 1;
    }
    match best {
        Some(i) => {
            let found = names[i].clone();
            assert(is_best_suggestion(name@, names_view(names@), i as int));
            assert(found@ == names@[i as int]@);
            proof {
                let c = choose|x: int| is_best_suggestion(name@, names_view(names@), x);
                lemma_best_suggestion_unique(name@, names_view(names@), c, i as int);
            }
            Some(found)
        },
        None => {
            assert forall|j: int| 0 <= j < names@.len()
                implies !near(#[trigger] levenshtein(name@, names@[j]@)) by {
                assert(nv[j] == names@[j]@);
            }
            assert(!exists|x: int| is_best_suggestion(name@, names_view(names@), x)) by {
                if exists|x: int| is_best_suggestion(name@, names_view(names@), x) {
                    let x = choose|x: int| is_best_suggestion(name@, names_view(names@), x);
                    assert(nv[x] == names@[x]@);
                }
            }
            None
        },
    }
}

/// The property type named by a type keyword; unknown keywords read as `string`.
pub open spec fn property_type_of(s: Seq<char>) -> PropertyType {
    if s == "bool"@ || s == "boolean"@ {
        PropertyType::Boolean
    } else if s == "int"@ || s == "integer"@ {
        PropertyType::Integer
    } else if s == "num"@ || s == "number"@ {
        PropertyType::Number
    } else if s == "enum"@ {
        PropertyType::Enum
    } else if s == "ref"@ {
        PropertyType::Ref
    } else if s == "list"@ {
        PropertyType::List
    } else {
        PropertyType::String
    }
}

/// Parse a property type keyword into a `PropertyType`.
pub fn parse_property_type(s: &str) -> (t: PropertyType)
    ensures
        t == property_type_of(s@),
{
    let eq = |lit: &str| -> (b: bool)
        ensures b == (s@ == lit@)
    { crate::text::str_equals(s, lit) };
    if eq("bool") || eq("boolean") {
        PropertyType::Boolean
    } else if eq("int") || eq("integer") {
        PropertyType::Integer
    } else if eq("num") || eq("number") {
        PropertyType::Number
    } else if eq("enum") {
        PropertyType::Enum
    } else if eq("ref") {
        PropertyType::Ref
    } else if eq("list") {
        PropertyType::List
    } else {
        PropertyType::String
    }
}


// ── What resolution reads of the symbol table ──

/// A symbol-table value by its texts, in the shape of a scalar's.
pub open spec fn value_sv(v: Value) -> ScalarV
    decreases v, 1int,
{
    match v {
        Value::String(t) => ScalarV::Str(t@),
        Value::Integer(n) => ScalarV::Int(n as int),
        Value::Number(t) => ScalarV::Num(t@),
        Value::Boolean(b) => ScalarV::Bool(b),
        Value::List(items) => ScalarV::List(values_sv(items@)),
        Value::EntityRef(t) => ScalarV::Ref(t@),
    }
}

pub open spec fn values_sv(v: Seq<Value>) -> Seq<ScalarV>
    decreases v, 0int,
{
    if v.len() == 0 {
        Seq::empty()
    } else {
        values_sv(v.subrange(0, v.len() - 1)).push(value_sv(v[v.len() - 1]))
    }
}

/// Key-value pairs by their texts.
pub open spec fn value_pairs_sv(v: Seq<(String, Value)>) -> Seq<(Seq<char>, ScalarV)> {
    v.map_values(|p: (String, Value)| (p.0@, value_sv(p.1)))
}

/// An entity symbol by its texts: ID, declaring file, resolved type, the
/// span of its declaration, its declared type name and its property
/// overrides.
pub type EntityV = (Seq<char>, Seq<char>, Option<Seq<char>>, SpanV, Seq<char>, Seq<(Seq<char>, ScalarV)>);

pub open spec fn entity_view(e: EntitySymbol) -> EntityV {
    (e.id@, e.declared_in.file@, opt_view(e.type_symbol), span_view(e.declared_in), e.entity_type@,
        value_pairs_sv(e.property_overrides@))
}

/// The names of a type's properties, in order.
pub open spec fn property_names(v: Seq<PropertySymbol>) -> Seq<Seq<char>> {
    v.map_values(|p: PropertySymbol| p.name@)
}

/// The rest of a property: default, referenced type, list element type,
/// element values, element referenced type, description, span.
pub struct PropRest {
    pub default: Option<ScalarV>,
    pub ref_type: Option<Seq<char>>,
    pub element_type: Option<PropertyType>,
    pub element_values: Option<Seq<Seq<char>>>,
    pub element_ref_type: Option<Seq<char>>,
    pub description: Option<Seq<char>>,
    pub span: SpanV,
    pub raw_type: Seq<char>,
}

pub open spec fn opt_value_sv(o: Option<Value>) -> Option<ScalarV> {
    match o {
        Some(v) => Some(value_sv(v)),
        None => None,
    }
}

/// A property by its texts: name, type, enum values, visibility, and the
/// rest.
pub type PropV = (Seq<char>, PropertyType, Option<Seq<Seq<char>>>, crate::symbol_table::Visibility, PropRest);

pub open spec fn prop_view(p: PropertySymbol) -> PropV {
    (p.name@, p.property_type, crate::ast::opt_strings_view(p.values), p.visibility, PropRest {
        default: opt_value_sv(p.default),
        ref_type: opt_view(p.ref_type),
        element_type: p.element_type,
        element_values: crate::ast::opt_strings_view(p.element_values),
        element_ref_type: opt_view(p.element_ref_type),
        description: opt_view(p.description),
        span: span_view(p.declared_in),
        raw_type: p.raw_type_string@,
    })
}

/// A type symbol by its texts: declaring file, property names, traits,
/// properties, the span of its definition, its name.
pub type TypeV = (Seq<char>, Seq<Seq<char>>, Seq<Seq<char>>, Seq<PropV>, SpanV, Seq<char>);

pub open spec fn type_view(t: TypeSymbol) -> TypeV {
    (t.declared_in.file@, property_names(t.properties@), strings_view(t.traits@),
        t.properties@.map_values(|p: PropertySymbol| prop_view(p)), span_view(t.declared_in), t.name@)
}

/// A node reference by its file and index.
pub open spec fn node_ref_view(o: Option<AstNodeRef>) -> Option<(Seq<char>, usize)> {
    match o {
        Some(n) => Some((n.file@, n.node_index)),
        None => None,
    }
}

/// An exit by what resolution reads and writes: direction, resolved
/// destination.
pub type ExitV = (Seq<char>, Option<Seq<char>>);

pub open spec fn exit_view(x: ExitSymbol) -> ExitV {
    (x.direction@, opt_view(x.resolved_destination))
}

/// The rest of an exit: written destination, condition node,
/// blocked-message node, span.
pub type ExitRest = (Seq<char>, Option<(Seq<char>, usize)>, Option<(Seq<char>, usize)>, SpanV);

pub open spec fn exit_rest(x: ExitSymbol) -> ExitRest {
    (x.destination@, node_ref_view(x.condition_node), node_ref_view(x.blocked_message_node), span_view(x.declared_in))
}

pub open spec fn exits_view(v: Seq<ExitSymbol>) -> Seq<ExitV> {
    v.map_values(|x: ExitSymbol| exit_view(x))
}

/// A location symbol by its texts: declaring file, exits, placed
/// entities, the span of its heading, its ID, its display name, and the
/// rest of each exit (in the order of the exits).
pub type LocationV = (Seq<char>, Seq<ExitV>, Seq<Seq<char>>, SpanV, Seq<char>, Seq<char>, Seq<ExitRest>);

pub open spec fn location_view(l: LocationSymbol) -> LocationV {
    (l.declared_in.file@, exits_view(l.exits@), strings_view(l.contains@), span_view(l.declared_in), l.id@,
        l.display_name@, l.exits@.map_values(|x: ExitSymbol| exit_rest(x)))
}

pub fn clone_opt_string(o: &Option<String>) -> (r: Option<String>)
    ensures
        opt_view(r) == opt_view(*o),
{
    match o {
        Some(s) => Some(s.clone()),
        None => None,
    }
}

pub fn clone_strings(v: &Vec<String>) -> (r: Vec<String>)
    ensures
        strings_view(r@) == strings_view(v@),
{
    let mut out: Vec<String> = Vec::new();
    let mut i: usize = 0;
    while i < v.len()
        invariant
            i <= v.len(),
            out@.len() == i,
            forall|j: int| 0 <= j < i ==> (#[trigger] out@[j])@ == v@[j]@,
        decreases v.len() - i,
    {
        out.push(v[i].clone());
        i += 1;
    }
    assert(strings_view(out@) =~= strings_view(v@));
    out
}

fn clone_node_ref(o: &Option<AstNodeRef>) -> (r: Option<AstNodeRef>)
    ensures
        r == *o,
{
    match o {
        Some(n) => Some(n.clone()),
        None => None,
    }
}

impl ExitSymbol {
    /// A copy of the exit, its destination recorded as `dest`.
    pub fn with_destination(&self, dest: Option<String>) -> (r: ExitSymbol)
        ensures
            r.direction@ == self.direction@,
            r.resolved_destination == dest,
            r.destination@ == self.destination@,
            r.condition_node == self.condition_node,
            r.blocked_message_node == self.blocked_message_node,
            r.declared_in == self.declared_in,
    {
        ExitSymbol {
            direction: self.direction.clone(),
            destination: self.destination.clone(),
            resolved_destination: dest,
            condition_node: clone_node_ref(&self.condition_node),
            blocked_message_node: clone_node_ref(&self.blocked_message_node),
            declared_in: self.declared_in.clone(),
        }
    }
}

impl LocationSymbol {
    /// A copy with the same texts.
    pub fn duplicate(&self) -> (r: LocationSymbol)
        ensures
            location_view(r) == location_view(*self),
            r.id@ == self.id@,
            r.display_name@ == self.display_name@,
            r.declared_in == self.declared_in,
    {
        let mut exits: Vec<ExitSymbol> = Vec::new();
        let mut i: usize = 0;
        while i < self.exits.len()
            invariant
                i <= self.exits.len(),
                exits@.len() == i,
                forall|j: int| 0 <= j < i ==> exit_view(#[trigger] exits@[j]) == exit_view(self.exits@[j]),
                forall|j: int| 0 <= j < i ==> exit_rest(#[trigger] exits@[j]) == exit_rest(self.exits@[j]),
            decreases self.exits.len() - i,
        {
            let x = &self.exits[i];
            exits.push(x.with_destination(clone_opt_string(&x.resolved_destination)));
            i += 1;
        }
        assert(exits_view(exits@) =~= exits_view(self.exits@));
        assert(exits@.map_values(|x: ExitSymbol| exit_rest(x)) =~= self.exits@.map_values(|x: ExitSymbol| exit_rest(x)));
        LocationSymbol {
            id: self.id.clone(),
            display_name: self.display_name.clone(),
            exits,
            contains: clone_strings(&self.contains),
            declared_in: self.declared_in.clone(),
        }
    }
}

/// The position of the first entry with key `k`, if any.
pub open spec fn key_index<V>(s: Seq<(Seq<char>, V)>, k: Seq<char>) -> Option<int>
    decreases s.len(),
{
    if s.len() == 0 {
        None
    } else {
        match key_index(s.subrange(0, s.len() - 1), k) {
            Some(i) => Some(i),
            None => if s[s.len() - 1].0 == k { Some(s.len() - 1) } else { None },
        }
    }
}

/// `key_index` finds the first entry with the key, and finds none only
/// where no entry has it.
pub proof fn lemma_key_index<V>(s: Seq<(Seq<char>, V)>, k: Seq<char>)
    ensures
        match key_index(s, k) {
            Some(i) => 0 <= i < s.len() && s[i].0 == k && forall|j: int| 0 <= j < i ==> (#[trigger] s[j]).0 != k,
            None => forall|j: int| 0 <= j < s.len() ==> (#[trigger] s[j]).0 != k,
        },
    decreases s.len(),
{
    if s.len() > 0 {
        let p = s.subrange(0, s.len() - 1);
        lemma_key_index(p, k);
        assert forall|j: int| 0 <= j < p.len() implies p[j] == #[trigger] s[j] by {}
    }
}

/// An entry with key `k` that no earlier entry has is the one found.
pub proof fn lemma_key_index_first<V>(s: Seq<(Seq<char>, V)>, k: Seq<char>, i: int)
    requires
        0 <= i < s.len(),
        s[i].0 == k,
        forall|j: int| 0 <= j < i ==> (#[trigger] s[j]).0 != k,
    ensures
        key_index(s, k) == Some(i),
{
    lemma_key_index(s, k);
}

/// Where no entry has key `k`, none is found.
pub proof fn lemma_key_index_none<V>(s: Seq<(Seq<char>, V)>, k: Seq<char>)
    requires
        forall|j: int| 0 <= j < s.len() ==> (#[trigger] s[j]).0 != k,
    ensures
        key_index(s, k) is None,
{
    lemma_key_index(s, k);
}

/// The keys of a namespace, in insertion order.
pub open spec fn keys_of<V>(s: Seq<(Seq<char>, V)>) -> Seq<Seq<char>> {
    s.map_values(|e: (Seq<char>, V)| e.0)
}

/// The entries of an entity namespace, in insertion order: each key with
/// its entry's texts. Keys are unique, as in any `IndexMap`.
pub uninterp spec fn entity_entries(m: IndexMap<String, EntitySymbol>) -> Seq<(Seq<char>, EntityV)>;

/// The entries of a type namespace, in insertion order.
pub uninterp spec fn type_entries(m: IndexMap<String, TypeSymbol>) -> Seq<(Seq<char>, TypeV)>;

/// The entries of a location namespace, in insertion order.
pub uninterp spec fn location_entries(m: IndexMap<String, LocationSymbol>) -> Seq<(Seq<char>, LocationV)>;

/// The entries of a file's section table (local name to compiled ID), in
/// insertion order.
pub uninterp spec fn section_entries(m: IndexMap<String, String>) -> Seq<(Seq<char>, Seq<char>)>;

/// `IndexMap::get` on the entity namespace: the entry stored under `key`,
/// which is the only entry with that key, or `None` when there is none.
#[verifier::external_body]
pub(crate) fn entity_get<'a>(m: &'a IndexMap<String, EntitySymbol>, key: &str) -> (r: Option<&'a EntitySymbol>)
    ensures
        match key_index(entity_entries(*m), key@) {
            Some(i) => r is Some && entity_view(*r.unwrap()) == entity_entries(*m)[i].1,
            None => r is None,
        },
{
    m.get(key)
}

/// `IndexMap::keys` on the entity namespace, cloned: the keys in insertion
/// order, each once.
#[verifier::external_body]
pub(crate) fn entity_keys(m: &IndexMap<String, EntitySymbol>) -> (r: Vec<String>)
    ensures
        strings_view(r@) == keys_of(entity_entries(*m)),
        strings_view(r@).no_duplicates(),
{
    m.keys().cloned().collect()
}

/// `IndexMap::keys` on the type namespace, cloned: the keys in insertion
/// order, each once.
#[verifier::external_body]
pub(crate) fn type_keys(m: &IndexMap<String, TypeSymbol>) -> (r: Vec<String>)
    ensures
        strings_view(r@) == keys_of(type_entries(*m)),
        strings_view(r@).no_duplicates(),
{
    m.keys().cloned().collect()
}

/// `IndexMap::get` on the type namespace.
#[verifier::external_body]
pub(crate) fn type_get<'a>(m: &'a IndexMap<String, TypeSymbol>, key: &str) -> (r: Option<&'a TypeSymbol>)
    ensures
        match key_index(type_entries(*m), key@) {
            Some(i) => r is Some && type_view(*r.unwrap()) == type_entries(*m)[i].1,
            None => r is None,
        },
{
    m.get(key)
}

/// `IndexMap::get` on the location namespace.
#[verifier::external_body]
pub(crate) fn location_get<'a>(m: &'a IndexMap<String, LocationSymbol>, key: &str) -> (r: Option<&'a LocationSymbol>)
    ensures
        match key_index(location_entries(*m), key@) {
            Some(i) => r is Some && location_view(*r.unwrap()) == location_entries(*m)[i].1,
            None => r is None,
        },
{
    m.get(key)
}

/// `IndexMap::keys` on the location namespace, cloned: the keys in
/// insertion order, each once.
#[verifier::external_body]
pub(crate) fn location_keys(m: &IndexMap<String, LocationSymbol>) -> (r: Vec<String>)
    ensures
        strings_view(r@) == keys_of(location_entries(*m)),
        strings_view(r@).no_duplicates(),
{
    m.keys().cloned().collect()
}

/// `IndexMap::insert` on the location namespace: under a key already
/// present the value is replaced in place (the key keeps its position);
/// a new key is appended last.
#[verifier::external_body]
pub(crate) fn location_insert(m: &mut IndexMap<String, LocationSymbol>, key: String, value: LocationSymbol)
    ensures
        match key_index(location_entries(*old(m)), key@) {
            Some(i) => location_entries(*final(m)) == location_entries(*old(m)).update(i, (key@, location_view(value))),
            None => location_entries(*final(m)) == location_entries(*old(m)).push((key@, location_view(value))),
        },
{
    m.insert(key, value);
}

/// `IndexMap::get` on a section table: the compiled ID stored under `key`.
#[verifier::external_body]
pub(crate) fn section_get<'a>(m: &'a IndexMap<String, String>, key: &str) -> (r: Option<&'a String>)
    ensures
        match key_index(section_entries(*m), key@) {
            Some(i) => r is Some && r.unwrap()@ == section_entries(*m)[i].1,
            None => r is None,
        },
{
    m.get(key)
}

/// Per-file metadata computed during collection, used during resolution.
#[derive(Debug)]
pub struct FileContext {
    pub file_stem: String,
    /// The files whose declarations this file can see: itself and its
    /// direct imports.
    pub visible_scope: Vec<String>,
    /// Local section name to compiled section ID.
    pub local_sections: IndexMap<String, String>,
}

/// Whether `file` is in the visible scope.
pub fn in_scope(scope: &Vec<String>, file: &str) -> (b: bool)
    ensures
        b == strings_view(scope@).contains(file@),
{
    let mut i: usize = 0;
    while i < scope.len()
        invariant
            i <= scope.len(),
            forall|j: int| 0 <= j < i ==> (#[trigger] scope@[j])@ != file@,
        decreases scope.len() - i,
    {
        if str_equals(scope[i].as_str(), file) {
            assert(strings_view(scope@)[i as int] == file@);
            return true;
        }
        i += 1;
    }
    proof {
        if strings_view(scope@).contains(file@) {
            let j = choose|j: int| 0 <= j < strings_view(scope@).len() && strings_view(scope@)[j] == file@;
            assert(scope@[j]@ == file@);
        }
    }
    false
}


/// In a namespace whose keys are distinct, the entry holding key `k` at
/// position `i` is the one found by key.
pub proof fn lemma_key_index_unique<V>(s: Seq<(Seq<char>, V)>, i: int)
    requires
        0 <= i < s.len(),
        keys_of(s).no_duplicates(),
    ensures
        key_index(s, s[i].0) == Some(i),
{
    lemma_key_index(s, s[i].0);
    let j = key_index(s, s[i].0).unwrap();
    if j != i {
        assert(keys_of(s)[j] == keys_of(s)[i]);
    }
}


// ── Actions, rules and sequences ──

/// An action symbol by its texts: ID, target, target type, span.
pub type ActionV = (Seq<char>, Option<Seq<char>>, Option<Seq<char>>, SpanV);

pub open spec fn action_view(a: ActionSymbol) -> ActionV {
    (a.id@, opt_view(a.target), opt_view(a.target_type), span_view(a.declared_in))
}

/// A rule symbol by its texts: ID, actor, trigger, span, select clause.
pub type RuleV = (Seq<char>, Seq<char>, Seq<char>, SpanV, Option<crate::ast::SelectV>);

pub open spec fn select_def_view(s: Option<SelectDef>) -> Option<crate::ast::SelectV> {
    match s {
        Some(d) => Some((d.variable@, strings_view(d.from@), crate::ast::conds_view(d.where_clauses@), span_view(d.span))),
        None => None,
    }
}

pub open spec fn rule_view(r: RuleSymbol) -> RuleV {
    (r.id@, r.actor@, r.trigger@, span_view(r.declared_in), select_def_view(r.select))
}

/// A phase by its texts: ID, advance mode, action, actions, rule, span.
pub type PhaseV = (Seq<char>, Seq<char>, Option<Seq<char>>, Option<Seq<Seq<char>>>, Option<Seq<char>>, SpanV);

pub open spec fn phase_view(p: PhaseSymbol) -> PhaseV {
    (p.id@, p.advance@, opt_view(p.action), crate::ast::opt_strings_view(p.actions), opt_view(p.rule), span_view(p.declared_in))
}

/// A sequence symbol by its texts: ID, phases, span.
pub type SequenceV = (Seq<char>, Seq<PhaseV>, SpanV);

pub open spec fn sequence_view(q: SequenceSymbol) -> SequenceV {
    (q.id@, q.phases@.map_values(|p: PhaseSymbol| phase_view(p)), span_view(q.declared_in))
}

/// The entries of an action namespace, in insertion order.
pub uninterp spec fn action_entries(m: IndexMap<String, ActionSymbol>) -> Seq<(Seq<char>, ActionV)>;

/// The entries of a rule namespace, in insertion order.
pub uninterp spec fn rule_entries(m: IndexMap<String, RuleSymbol>) -> Seq<(Seq<char>, RuleV)>;

/// The entries of a sequence namespace, in insertion order.
pub uninterp spec fn sequence_entries(m: IndexMap<String, SequenceSymbol>) -> Seq<(Seq<char>, SequenceV)>;

/// `IndexMap::get` on the action namespace.
#[verifier::external_body]
pub(crate) fn action_get<'a>(m: &'a IndexMap<String, ActionSymbol>, key: &str) -> (r: Option<&'a ActionSymbol>)
    ensures
        match key_index(action_entries(*m), key@) {
            Some(i) => r is Some && action_view(*r.unwrap()) == action_entries(*m)[i].1,
            None => r is None,
        },
{
    m.get(key)
}

/// `IndexMap::keys` on the action namespace, cloned: the keys in
/// insertion order, each once.
#[verifier::external_body]
pub(crate) fn action_keys(m: &IndexMap<String, ActionSymbol>) -> (r: Vec<String>)
    ensures
        strings_view(r@) == keys_of(action_entries(*m)),
        strings_view(r@).no_duplicates(),
{
    m.keys().cloned().collect()
}

/// `IndexMap::contains_key` on the rule namespace.
#[verifier::external_body]
pub(crate) fn rule_contains(m: &IndexMap<String, RuleSymbol>, key: &str) -> (b: bool)
    ensures
        b == (key_index(rule_entries(*m), key@) is Some),
{
    m.contains_key(key)
}

/// `IndexMap::get` on the sequence namespace.
#[verifier::external_body]
pub(crate) fn sequence_get<'a>(m: &'a IndexMap<String, SequenceSymbol>, key: &str) -> (r: Option<&'a SequenceSymbol>)
    ensures
        match key_index(sequence_entries(*m), key@) {
            Some(i) => r is Some && sequence_view(*r.unwrap()) == sequence_entries(*m)[i].1,
            None => r is None,
        },
{
    m.get(key)
}

/// `IndexMap::keys` on the sequence namespace, cloned: the keys in
/// insertion order, each once.
#[verifier::external_body]
pub(crate) fn sequence_keys(m: &IndexMap<String, SequenceSymbol>) -> (r: Vec<String>)
    ensures
        strings_view(r@) == keys_of(sequence_entries(*m)),
        strings_view(r@).no_duplicates(),
{
    m.keys().cloned().collect()
}

// ── Insertion, and the section namespace ──

/// The entries of a namespace after `IndexMap::insert(k, v)`: under a key
/// already present the value is replaced in place, a new key is appended.
pub open spec fn map_put<V>(s: Seq<(Seq<char>, V)>, k: Seq<char>, v: V) -> Seq<(Seq<char>, V)> {
    match key_index(s, k) {
        Some(i) => s.update(i, (k, v)),
        None => s.push((k, v)),
    }
}

/// `IndexMap::insert` on the type namespace.
#[verifier::external_body]
pub(crate) fn type_insert(m: &mut IndexMap<String, TypeSymbol>, key: String, value: TypeSymbol)
    ensures
        type_entries(*final(m)) == map_put(type_entries(*old(m)), key@, type_view(value)),
{
    m.insert(key, value);
}

/// `IndexMap::insert` on the entity namespace.
#[verifier::external_body]
pub(crate) fn entity_insert(m: &mut IndexMap<String, EntitySymbol>, key: String, value: EntitySymbol)
    ensures
        entity_entries(*final(m)) == map_put(entity_entries(*old(m)), key@, entity_view(value)),
{
    m.insert(key, value);
}

/// A choice symbol by its texts: label, compiled ID, stickiness, span.
pub type ChoiceV = (Seq<char>, Seq<char>, bool, SpanV);

pub open spec fn choice_sym_view(c: ChoiceSymbol) -> ChoiceV {
    (c.label@, c.compiled_id@, c.sticky, span_view(c.declared_in))
}

/// A section symbol by its texts: local name, compiled ID, file stem,
/// choices, span.
pub type SectionV = (Seq<char>, Seq<char>, Seq<char>, Seq<ChoiceV>, SpanV);

pub open spec fn section_view(s: SectionSymbol) -> SectionV {
    (s.local_name@, s.compiled_id@, s.file_stem@, s.choices@.map_values(|c: ChoiceSymbol| choice_sym_view(c)),
        span_view(s.declared_in))
}

/// The entries of the section namespace (compiled ID to section), in
/// insertion order.
pub uninterp spec fn section_symbol_entries(m: IndexMap<String, SectionSymbol>) -> Seq<(Seq<char>, SectionV)>;

/// `IndexMap::get` on the section namespace.
#[verifier::external_body]
pub(crate) fn section_symbol_get<'a>(m: &'a IndexMap<String, SectionSymbol>, key: &str) -> (r: Option<&'a SectionSymbol>)
    ensures
        match key_index(section_symbol_entries(*m), key@) {
            Some(i) => r is Some && section_view(*r.unwrap()) == section_symbol_entries(*m)[i].1,
            None => r is None,
        },
{
    m.get(key)
}

/// `IndexMap::keys` on the section namespace, cloned: the keys in
/// insertion order, each once.
#[verifier::external_body]
pub(crate) fn section_symbol_keys(m: &IndexMap<String, SectionSymbol>) -> (r: Vec<String>)
    ensures
        strings_view(r@) == keys_of(section_symbol_entries(*m)),
        strings_view(r@).no_duplicates(),
{
    m.keys().cloned().collect()
}

/// `IndexMap::insert` on the section namespace.
#[verifier::external_body]
pub(crate) fn section_symbol_insert(m: &mut IndexMap<String, SectionSymbol>, key: String, value: SectionSymbol)
    ensures
        section_symbol_entries(*final(m)) == map_put(section_symbol_entries(*old(m)), key@, section_view(value)),
{
    m.insert(key, value);
}

/// `IndexMap::new` for a file's section table: no entries.
#[verifier::external_body]
pub(crate) fn section_table_new() -> (m: IndexMap<String, String>)
    ensures
        section_entries(m) == Seq::<(Seq<char>, Seq<char>)>::empty(),
{
    IndexMap::new()
}

/// `IndexMap::insert` on a file's section table.
#[verifier::external_body]
pub(crate) fn section_insert(m: &mut IndexMap<String, String>, key: String, value: String)
    ensures
        section_entries(*final(m)) == map_put(section_entries(*old(m)), key@, value@),
{
    m.insert(key, value);
}

/// `IndexMap::insert` on the action namespace.
#[verifier::external_body]
pub(crate) fn action_insert(m: &mut IndexMap<String, ActionSymbol>, key: String, value: ActionSymbol)
    ensures
        action_entries(*final(m)) == map_put(action_entries(*old(m)), key@, action_view(value)),
{
    m.insert(key, value);
}

/// `IndexMap::get` on the rule namespace.
#[verifier::external_body]
pub(crate) fn rule_get<'a>(m: &'a IndexMap<String, RuleSymbol>, key: &str) -> (r: Option<&'a RuleSymbol>)
    ensures
        match key_index(rule_entries(*m), key@) {
            Some(i) => r is Some && rule_view(*r.unwrap()) == rule_entries(*m)[i].1,
            None => r is None,
        },
{
    m.get(key)
}

/// `IndexMap::keys` on the rule namespace, cloned: the keys in insertion
/// order, each once.
#[verifier::external_body]
pub(crate) fn rule_keys(m: &IndexMap<String, RuleSymbol>) -> (r: Vec<String>)
    ensures
        strings_view(r@) == keys_of(rule_entries(*m)),
        strings_view(r@).no_duplicates(),
{
    m.keys().cloned().collect()
}

/// `IndexMap::insert` on the rule namespace.
#[verifier::external_body]
pub(crate) fn rule_insert(m: &mut IndexMap<String, RuleSymbol>, key: String, value: RuleSymbol)
    ensures
        rule_entries(*final(m)) == map_put(rule_entries(*old(m)), key@, rule_view(value)),
{
    m.insert(key, value);
}

/// `IndexMap::insert` on the sequence namespace.
#[verifier::external_body]
pub(crate) fn sequence_insert(m: &mut IndexMap<String, SequenceSymbol>, key: String, value: SequenceSymbol)
    ensures
        sequence_entries(*final(m)) == map_put(sequence_entries(*old(m)), key@, sequence_view(value)),
{
    m.insert(key, value);
}

// ── Empty namespaces ──

/// `IndexMap::new` for the type namespace: no entries.
#[verifier::external_body]
pub(crate) fn types_new() -> (m: IndexMap<String, TypeSymbol>)
    ensures
        type_entries(m) == Seq::<(Seq<char>, TypeV)>::empty(),
{
    IndexMap::new()
}

/// `IndexMap::new` for the entity namespace: no entries.
#[verifier::external_body]
pub(crate) fn entities_new() -> (m: IndexMap<String, EntitySymbol>)
    ensures
        entity_entries(m) == Seq::<(Seq<char>, EntityV)>::empty(),
{
    IndexMap::new()
}

/// `IndexMap::new` for the section namespace: no entries.
#[verifier::external_body]
pub(crate) fn sections_new() -> (m: IndexMap<String, SectionSymbol>)
    ensures
        section_symbol_entries(m) == Seq::<(Seq<char>, SectionV)>::empty(),
{
    IndexMap::new()
}

/// `IndexMap::new` for the location namespace: no entries.
#[verifier::external_body]
pub(crate) fn locations_new() -> (m: IndexMap<String, LocationSymbol>)
    ensures
        location_entries(m) == Seq::<(Seq<char>, LocationV)>::empty(),
{
    IndexMap::new()
}

/// `IndexMap::new` for the action namespace: no entries.
#[verifier::external_body]
pub(crate) fn actions_new() -> (m: IndexMap<String, ActionSymbol>)
    ensures
        action_entries(m) == Seq::<(Seq<char>, ActionV)>::empty(),
{
    IndexMap::new()
}

/// `IndexMap::new` for the rule namespace: no entries.
#[verifier::external_body]
pub(crate) fn rules_new() -> (m: IndexMap<String, RuleSymbol>)
    ensures
        rule_entries(m) == Seq::<(Seq<char>, RuleV)>::empty(),
{
    IndexMap::new()
}

/// `IndexMap::new` for the sequence namespace: no entries.
#[verifier::external_body]
pub(crate) fn sequences_new() -> (m: IndexMap<String, SequenceSymbol>)
    ensures
        sequence_entries(m) == Seq::<(Seq<char>, SequenceV)>::empty(),
{
    IndexMap::new()
}

} // verus!
