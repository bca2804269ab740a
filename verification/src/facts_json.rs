//! The facts of a world as JSON.

use vstd::prelude::*;
use crate::facts::{
    compare_op_str, compare_op_token, literal_kind_name, literal_kind_str, write_op_str, write_op_token, ChoiceFact,
    ExitEdge, FactSet, FactSite, JumpEdge, JumpTarget, PropertyRead, PropertyWrite, RuleFact,
};
use crate::json::{
    jstr, json_members, json_view, json_views, lemma_json_views_push, object, push_member, span_json, span_to_json,
    text_json, Json, JsonV,
};
use crate::span::span_view;

verus! {

broadcast use vstd::string::group_string_axioms;

/// A fact site as JSON.
pub open spec fn site_json(s: FactSite) -> JsonV {
    match s {
        FactSite::Choice(id) => JsonV::Object(seq![("kind"@, jstr("choice"@)), ("id"@, jstr(id@))]),
        FactSite::Exit(id) => JsonV::Object(seq![("kind"@, jstr("exit"@)), ("id"@, jstr(id@))]),
        FactSite::Rule(id) => JsonV::Object(seq![("kind"@, jstr("rule"@)), ("id"@, jstr(id@))]),
    }
}

/// A jump target as JSON.
pub open spec fn target_json(t: JumpTarget) -> JsonV {
    match t {
        JumpTarget::Section(id) => JsonV::Object(seq![("kind"@, jstr("section"@)), ("id"@, jstr(id@))]),
        JumpTarget::Exit(id) => JsonV::Object(seq![("kind"@, jstr("exit"@)), ("id"@, jstr(id@))]),
        JumpTarget::End => JsonV::Object(seq![("kind"@, jstr("end"@))]),
    }
}

/// A list of indices as JSON.
pub open spec fn indices_json(v: Seq<usize>) -> JsonV {
    JsonV::Array(v.map_values(|i: usize| JsonV::Int(i as int)))
}

pub open spec fn read_json(r: PropertyRead) -> JsonV {
    JsonV::Object(seq![("site"@, site_json(r.site)), ("entity_type"@, jstr(r.entity_type@)),
        ("property"@, jstr(r.property@)), ("operator"@, jstr(compare_op_token(r.operator))),
        ("value_literal"@, jstr(r.value_literal@)), ("value_kind"@, jstr(literal_kind_name(r.value_kind))),
        ("span"@, span_json(span_view(r.span)))])
}

pub open spec fn write_json(w: PropertyWrite) -> JsonV {
    JsonV::Object(seq![("site"@, site_json(w.site)), ("entity_type"@, jstr(w.entity_type@)),
        ("property"@, jstr(w.property@)), ("operator"@, jstr(write_op_token(w.operator))),
        ("value_expr"@, jstr(w.value_expr@)), ("value_kind"@, match w.value_kind {
            Some(k) => jstr(literal_kind_name(k)),
            None => JsonV::Null,
        }), ("span"@, span_json(span_view(w.span)))])
}

pub open spec fn exit_json(e: ExitEdge) -> JsonV {
    JsonV::Object(seq![("from_location"@, jstr(e.from_location@)), ("to_location"@, jstr(e.to_location@)),
        ("exit_name"@, jstr(e.exit_name@)), ("is_conditional"@, JsonV::Bool(e.is_conditional)),
        ("guard_reads"@, indices_json(e.guard_reads@)), ("span"@, span_json(span_view(e.span)))])
}

pub open spec fn jump_json(j: JumpEdge) -> JsonV {
    JsonV::Object(seq![("from_section"@, jstr(j.from_section@)), ("target"@, target_json(j.target)),
        ("span"@, span_json(span_view(j.span)))])
}

pub open spec fn choice_json(c: ChoiceFact) -> JsonV {
    JsonV::Object(seq![("section"@, jstr(c.section@)), ("choice_id"@, jstr(c.choice_id@)), ("label"@, jstr(c.label@)),
        ("sticky"@, JsonV::Bool(c.sticky)), ("condition_reads"@, indices_json(c.condition_reads@)),
        ("effect_writes"@, indices_json(c.effect_writes@)), ("span"@, span_json(span_view(c.span)))])
}

pub open spec fn rule_json(r: RuleFact) -> JsonV {
    JsonV::Object(seq![("rule_id"@, jstr(r.rule_id@)), ("condition_reads"@, indices_json(r.condition_reads@)),
        ("effect_writes"@, indices_json(r.effect_writes@)), ("span"@, span_json(span_view(r.span)))])
}

/// All the facts as JSON, one array per kind.
pub open spec fn facts_json(reads: Seq<PropertyRead>, writes: Seq<PropertyWrite>, exits: Seq<ExitEdge>,
    jumps: Seq<JumpEdge>, choices: Seq<ChoiceFact>, rules: Seq<RuleFact>) -> JsonV {
    JsonV::Object(seq![
        ("reads"@, JsonV::Array(reads.map_values(|r: PropertyRead| read_json(r)))),
        ("writes"@, JsonV::Array(writes.map_values(|w: PropertyWrite| write_json(w)))),
        ("exits"@, JsonV::Array(exits.map_values(|e: ExitEdge| exit_json(e)))),
        ("jumps"@, JsonV::Array(jumps.map_values(|j: JumpEdge| jump_json(j)))),
        ("choices"@, JsonV::Array(choices.map_values(|c: ChoiceFact| choice_json(c)))),
        ("rules"@, JsonV::Array(rules.map_values(|r: RuleFact| rule_json(r)))),
    ])
}

fn kind_id(kind: &str, id: &str) -> (j: Json)
    ensures
        json_view(j) == JsonV::Object(seq![("kind"@, jstr(kind@)), ("id"@, jstr(id@))]),
{
    let mut m: Vec<(String, Json)> = Vec::new();
    proof { assert(json_members(m@) =~= Seq::<(Seq<char>, JsonV)>::empty()); }
    push_member(&mut m, "kind", text_json(kind));
    push_member(&mut m, "id", text_json(id));
    proof { reveal_strlit("kind"); reveal_strlit("id"); }
    assert(json_members(m@) =~= seq![("kind"@, jstr(kind@)), ("id"@, jstr(id@))]);
    object(m)
}

fn site_to_json(s: &FactSite) -> (j: Json)
    ensures
        json_view(j) == site_json(*s),
{
    proof { reveal_strlit("choice"); reveal_strlit("exit"); reveal_strlit("rule"); }
    match s {
        FactSite::Choice(id) => kind_id("choice", id.as_str()),
        FactSite::Exit(id) => kind_id("exit", id.as_str()),
        FactSite::Rule(id) => kind_id("rule", id.as_str()),
    }
}

fn target_to_json(t: &JumpTarget) -> (j: Json)
    ensures
        json_view(j) == target_json(*t),
{
    proof { reveal_strlit("section"); reveal_strlit("exit"); reveal_strlit("end"); reveal_strlit("kind"); }
    match t {
        JumpTarget::Section(id) => kind_id("section", id.as_str()),
        JumpTarget::Exit(id) => kind_id("exit", id.as_str()),
        JumpTarget::End => {
            let mut m: Vec<(String, Json)> = Vec::new();
            proof { assert(json_members(m@) =~= Seq::<(Seq<char>, JsonV)>::empty()); }
            push_member(&mut m, "kind", text_json("end"));
            assert(json_members(m@) =~= seq![("kind"@, jstr("end"@))]);
            object(m)
        },
    }
}

fn indices_to_json(v: &Vec<usize>) -> (j: Json)
    ensures
        json_view(j) == indices_json(v@),
{
    let mut items: Vec<Json> = Vec::new();
    let mut i: usize = 0;
    proof { assert(json_views(items@) =~= v@.take(0).map_values(|i: usize| JsonV::Int(i as int))); }
    while i < v.len()
        invariant
            i <= v.len(),
            json_views(items@) == v@.take(i as int).map_values(|i: usize| JsonV::Int(i as int)),
        decreases v.len() - i,
    {
        let x = Json::UInt(v[i] as u64);
        proof {
            lemma_json_views_push(items@, x);
            assert(v@.take(i + 1).map_values(|i: usize| JsonV::Int(i as int))
                =~= v@.take(i as int).map_values(|i: usize| JsonV::Int(i as int)).push(JsonV::Int(v@[i as int] as int)));
        }
        items.push(x);
        i += 1;
    }
    proof { assert(v@.take(v.len() as int) =~= v@); }
    Json::Array(items)
}

fn read_to_json(r: &PropertyRead) -> (j: Json)
    ensures
        json_view(j) == read_json(*r),
{
    let mut m: Vec<(String, Json)> = Vec::new();
    proof { assert(json_members(m@) =~= Seq::<(Seq<char>, JsonV)>::empty()); }
    push_member(&mut m, "site", site_to_json(&r.site));
    push_member(&mut m, "entity_type", text_json(r.entity_type.as_str()));
    push_member(&mut m, "property", text_json(r.property.as_str()));
    push_member(&mut m, "operator", text_json(compare_op_str(&r.operator)));
    push_member(&mut m, "value_literal", text_json(r.value_literal.as_str()));
    push_member(&mut m, "value_kind", text_json(literal_kind_str(&r.value_kind)));
    push_member(&mut m, "span", span_to_json(&r.span));
    proof {
        reveal_strlit("site"); reveal_strlit("entity_type"); reveal_strlit("property"); reveal_strlit("operator");
        reveal_strlit("value_literal"); reveal_strlit("value_kind"); reveal_strlit("span");
    }
    assert(json_members(m@) =~= match read_json(*r) { JsonV::Object(ms) => ms, _ => Seq::empty() });
    object(m)
}

fn write_to_json(w: &PropertyWrite) -> (j: Json)
    ensures
        json_view(j) == write_json(*w),
{
    let mut m: Vec<(String, Json)> = Vec::new();
    proof { assert(json_members(m@) =~= Seq::<(Seq<char>, JsonV)>::empty()); }
    push_member(&mut m, "site", site_to_json(&w.site));
    push_member(&mut m, "entity_type", text_json(w.entity_type.as_str()));
    push_member(&mut m, "property", text_json(w.property.as_str()));
    push_member(&mut m, "operator", text_json(write_op_str(&w.operator)));
    push_member(&mut m, "value_expr", text_json(w.value_expr.as_str()));
    let k = match &w.value_kind {
        Some(k) => text_json(literal_kind_str(k)),
        None => Json::Null,
    };
    push_member(&mut m, "value_kind", k);
    push_member(&mut m, "span", span_to_json(&w.span));
    proof {
        reveal_strlit("site"); reveal_strlit("entity_type"); reveal_strlit("property"); reveal_strlit("operator");
        reveal_strlit("value_expr"); reveal_strlit("value_kind"); reveal_strlit("span");
    }
    assert(json_members(m@) =~= match write_json(*w) { JsonV::Object(ms) => ms, _ => Seq::empty() });
    object(m)
}

fn exit_to_json(e: &ExitEdge) -> (j: Json)
    ensures
        json_view(j) == exit_json(*e),
{
    let mut m: Vec<(String, Json)> = Vec::new();
    proof { assert(json_members(m@) =~= Seq::<(Seq<char>, JsonV)>::empty()); }
    push_member(&mut m, "from_location", text_json(e.from_location.as_str()));
    push_member(&mut m, "to_location", text_json(e.to_location.as_str()));
    push_member(&mut m, "exit_name", text_json(e.exit_name.as_str()));
    push_member(&mut m, "is_conditional", Json::Bool(e.is_conditional));
    push_member(&mut m, "guard_reads", indices_to_json(&e.guard_reads));
    push_member(&mut m, "span", span_to_json(&e.span));
    proof {
        reveal_strlit("from_location"); reveal_strlit("to_location"); reveal_strlit("exit_name");
        reveal_strlit("is_conditional"); reveal_strlit("guard_reads"); reveal_strlit("span");
    }
    assert(json_members(m@) =~= match exit_json(*e) { JsonV::Object(ms) => ms, _ => Seq::empty() });
    object(m)
}

fn jump_to_json(jp: &JumpEdge) -> (j: Json)
    ensures
        json_view(j) == jump_json(*jp),
{
    let mut m: Vec<(String, Json)> = Vec::new();
    proof { assert(json_members(m@) =~= Seq::<(Seq<char>, JsonV)>::empty()); }
    push_member(&mut m, "from_section", text_json(jp.from_section.as_str()));
    push_member(&mut m, "target", target_to_json(&jp.target));
    push_member(&mut m, "span", span_to_json(&jp.span));
    proof { reveal_strlit("from_section"); reveal_strlit("target"); reveal_strlit("span"); }
    assert(json_members(m@) =~= match jump_json(*jp) { JsonV::Object(ms) => ms, _ => Seq::empty() });
    object(m)
}

fn choice_to_json(c: &ChoiceFact) -> (j: Json)
    ensures
        json_view(j) == choice_json(*c),
{
    let mut m: Vec<(String, Json)> = Vec::new();
    proof { assert(json_members(m@) =~= Seq::<(Seq<char>, JsonV)>::empty()); }
    push_member(&mut m, "section", text_json(c.section.as_str()));
    push_member(&mut m, "choice_id", text_json(c.choice_id.as_str()));
    push_member(&mut m, "label", text_json(c.label.as_str()));
    push_member(&mut m, "sticky", Json::Bool(c.sticky));
    push_member(&mut m, "condition_reads", indices_to_json(&c.condition_reads));
    push_member(&mut m, "effect_writes", indices_to_json(&c.effect_writes));
    push_member(&mut m, "span", span_to_json(&c.span));
    proof {
        reveal_strlit("section"); reveal_strlit("choice_id"); reveal_strlit("label"); reveal_strlit("sticky");
        reveal_strlit("condition_reads"); reveal_strlit("effect_writes"); reveal_strlit("span");
    }
    assert(json_members(m@) =~= match choice_json(*c) { JsonV::Object(ms) => ms, _ => Seq::empty() });
    object(m)
}

fn rule_to_json(r: &RuleFact) -> (j: Json)
    ensures
        json_view(j) == rule_json(*r),
{
    let mut m: Vec<(String, Json)> = Vec::new();
    proof { assert(json_members(m@) =~= Seq::<(Seq<char>, JsonV)>::empty()); }
    push_member(&mut m, "rule_id", text_json(r.rule_id.as_str()));
    push_member(&mut m, "condition_reads", indices_to_json(&r.condition_reads));
    push_member(&mut m, "effect_writes", indices_to_json(&r.effect_writes));
    push_member(&mut m, "span", span_to_json(&r.span));
    proof {
        reveal_strlit("rule_id"); reveal_strlit("condition_reads"); reveal_strlit("effect_writes"); reveal_strlit("span");
    }
    assert(json_members(m@) =~= match rule_json(*r) { JsonV::Object(ms) => ms, _ => Seq::empty() });
    object(m)
}

impl FactSet {
    /// The facts as JSON: reads, writes, exits, jumps, choices and rules,
    /// each in order.
    pub fn to_json(&self) -> (j: Json)
        ensures
            json_view(j) == facts_json(self.spec_reads(), self.spec_writes(), self.spec_exits(), self.spec_jumps(),
                self.spec_choices(), self.spec_rules()),
    {
        let reads = self.reads();
        let mut a: Vec<Json> = Vec::new();
        let mut i: usize = 0;
        proof { assert(json_views(a@) =~= reads@.take(0).map_values(|r: PropertyRead| read_json(r))); }
        while i < reads.len()
            invariant
                i <= reads@.len(),
                json_views(a@) == reads@.take(i as int).map_values(|r: PropertyRead| read_json(r)),
            decreases reads@.len() - i,
        {
            let x = read_to_json(&reads[i]);
            proof {
                lemma_json_views_push(a@, x);
                assert(reads@.take(i + 1).map_values(|r: PropertyRead| read_json(r))
                    =~= reads@.take(i as int).map_values(|r: PropertyRead| read_json(r)).push(read_json(reads@[i as int])));
            }
            a.push(x);
            i += 1;
        }
        proof { assert(reads@.take(reads@.len() as int) =~= reads@); }

        let writes = self.writes();
        let mut b: Vec<Json> = Vec::new();
        let mut i: usize = 0;
        proof { assert(json_views(b@) =~= writes@.take(0).map_values(|w: PropertyWrite| write_json(w))); }
        while i < writes.len()
            invariant
                i <= writes@.len(),
                json_views(b@) == writes@.take(i as int).map_values(|w: PropertyWrite| write_json(w)),
            decreases writes@.len() - i,
        {
            let x = write_to_json(&writes[i]);
            proof {
                lemma_json_views_push(b@, x);
                assert(writes@.take(i + 1).map_values(|w: PropertyWrite| write_json(w))
                    =~= writes@.take(i as int).map_values(|w: PropertyWrite| write_json(w)).push(write_json(writes@[i as int])));
            }
            b.push(x);
            i += 1;
        }
        proof { assert(writes@.take(writes@.len() as int) =~= writes@); }

        let exits = self.exits();
        let mut c: Vec<Json> = Vec::new();
        let mut i: usize = 0;
        proof { assert(json_views(c@) =~= exits@.take(0).map_values(|e: ExitEdge| exit_json(e))); }
        while i < exits.len()
            invariant
                i <= exits@.len(),
                json_views(c@) == exits@.take(i as int).map_values(|e: ExitEdge| exit_json(e)),
            decreases exits@.len() - i,
        {
            let x = exit_to_json(&exits[i]);
            proof {
                lemma_json_views_push(c@, x);
                assert(exits@.take(i + 1).map_values(|e: ExitEdge| exit_json(e))
                    =~= exits@.take(i as int).map_values(|e: ExitEdge| exit_json(e)).push(exit_json(exits@[i as int])));
            }
            c.push(x);
            i += 1;
        }
        proof { assert(exits@.take(exits@.len() as int) =~= exits@); }

        let jumps = self.jumps();
        let mut d: Vec<Json> = Vec::new();
        let mut i: usize = 0;
        proof { assert(json_views(d@) =~= jumps@.take(0).map_values(|j: JumpEdge| jump_json(j))); }
        while i < jumps.len()
            invariant
                i <= jumps@.len(),
                json_views(d@) == jumps@.take(i as int).map_values(|j: JumpEdge| jump_json(j)),
            decreases jumps@.len() - i,
        {
            let x = jump_to_json(&jumps[i]);
            proof {
                lemma_json_views_push(d@, x);
                assert(jumps@.take(i + 1).map_values(|j: JumpEdge| jump_json(j))
                    =~= jumps@.take(i as int).map_values(|j: JumpEdge| jump_json(j)).push(jump_json(jumps@[i as int])));
            }
            d.push(x);
            i += 1;
        }
        proof { assert(jumps@.take(jumps@.len() as int) =~= jumps@); }

        let choices = self.choices();
        let mut e: Vec<Json> = Vec::new();
        let mut i: usize = 0;
        proof { assert(json_views(e@) =~= choices@.take(0).map_values(|c: ChoiceFact| choice_json(c))); }
        while i < choices.len()
            invariant
                i <= choices@.len(),
                json_views(e@) == choices@.take(i as int).map_values(|c: ChoiceFact| choice_json(c)),
            decreases choices@.len() - i,
        {
            let x = choice_to_json(&choices[i]);
            proof {
                lemma_json_views_push(e@, x);
                assert(choices@.take(i + 1).map_values(|c: ChoiceFact| choice_json(c))
                    =~= choices@.take(i as int).map_values(|c: ChoiceFact| choice_json(c)).push(choice_json(choices@[i as int])));
            }
            e.push(x);
            i += 1;
        }
        proof { assert(choices@.take(choices@.len() as int) =~= choices@); }

        let rules = self.rules();
        let mut f: Vec<Json> = Vec::new();
        let mut i: usize = 0;
        proof { assert(json_views(f@) =~= rules@.take(0).map_values(|r: RuleFact| rule_json(r))); }
        while i < rules.len()
            invariant
                i <= rules@.len(),
                json_views(f@) == rules@.take(i as int).map_values(|r: RuleFact| rule_json(r)),
            decreases rules@.len() - i,
        {
            let x = rule_to_json(&rules[i]);
            proof {
                lemma_json_views_push(f@, x);
                assert(rules@.take(i + 1).map_values(|r: RuleFact| rule_json(r))
                    =~= rules@.take(i as int).map_values(|r: RuleFact| rule_json(r)).push(rule_json(rules@[i as int])));
            }
            f.push(x);
            i += 1;
        }
        proof { assert(rules@.take(rules@.len() as int) =~= rules@); }

        let mut m: Vec<(String, Json)> = Vec::new();
        proof { assert(json_members(m@) =~= Seq::<(Seq<char>, JsonV)>::empty()); }
        push_member(&mut m, "reads", Json::Array(a));
        push_member(&mut m, "writes", Json::Array(b));
        push_member(&mut m, "exits", Json::Array(c));
        push_member(&mut m, "jumps", Json::Array(d));
        push_member(&mut m, "choices", Json::Array(e));
        push_member(&mut m, "rules", Json::Array(f));
        proof {
            reveal_strlit("reads"); reveal_strlit("writes"); reveal_strlit("exits"); reveal_strlit("jumps");
            reveal_strlit("choices"); reveal_strlit("rules");
        }
        assert(json_members(m@) =~= match facts_json(self.spec_reads(), self.spec_writes(), self.spec_exits(),
            self.spec_jumps(), self.spec_choices(), self.spec_rules()) { JsonV::Object(ms) => ms, _ => Seq::empty() });
        object(m)
    }
}

} // verus!
