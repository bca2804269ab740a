//! Extraction of the analysis facts from the resolved world: the exits of
//! the symbol table, then the reads, writes, jumps, choices and rules of the
//! files' content, file by file in compilation order.

use vstd::prelude::*;
use crate::ast::{ConditionExpr, ContentNode, EffectType};
use crate::facts::{
    first_where, classify_literal, classify_write_value_kind, compare_op_of, make_exit_id, write_op_of, CompareOp,
    ChoiceFact, ExitEdge, FactSet, FactSetBuilder, FactSite, JumpEdge, JumpTarget, LiteralKind, PropertyRead,
    PropertyWrite, RuleFact, WriteOp,
};
use crate::symbol_table::{PropertySymbol, SymbolTable};

verus! {

broadcast use vstd::string::group_string_axioms;

// ── What changes in the builder ──

/// The exits keep their number and everything but their guard reads.
pub open spec fn exits_kept(a: Seq<ExitEdge>, b: Seq<ExitEdge>) -> bool {
    &&& a.len() == b.len()
    &&& forall|i: int| #![trigger b[i]] 0 <= i < a.len() ==> {
        &&& b[i].from_location == a[i].from_location
        &&& b[i].to_location == a[i].to_location
        &&& b[i].exit_name == a[i].exit_name
        &&& b[i].is_conditional == a[i].is_conditional
        &&& b[i].span == a[i].span
    }
}

/// `b` is `a` with facts appended (and exit guards possibly filled in).
pub open spec fn grows(a: FactSetBuilder, b: FactSetBuilder) -> bool {
    &&& b.wf()
    &&& a.spec_reads().len() <= b.spec_reads().len()
    &&& b.spec_reads().take(a.spec_reads().len() as int) == a.spec_reads()
    &&& a.spec_writes().len() <= b.spec_writes().len()
    &&& b.spec_writes().take(a.spec_writes().len() as int) == a.spec_writes()
    &&& a.spec_jumps().len() <= b.spec_jumps().len()
    &&& b.spec_jumps().take(a.spec_jumps().len() as int) == a.spec_jumps()
    &&& a.spec_choices().len() <= b.spec_choices().len()
    &&& b.spec_choices().take(a.spec_choices().len() as int) == a.spec_choices()
    &&& a.spec_rules().len() <= b.spec_rules().len()
    &&& b.spec_rules().take(a.spec_rules().len() as int) == a.spec_rules()
    &&& exits_kept(a.spec_exits(), b.spec_exits())
}

pub proof fn lemma_grows_refl(a: FactSetBuilder)
    requires
        a.wf(),
    ensures
        grows(a, a),
{
    assert(a.spec_reads().take(a.spec_reads().len() as int) =~= a.spec_reads());
    assert(a.spec_writes().take(a.spec_writes().len() as int) =~= a.spec_writes());
    assert(a.spec_jumps().take(a.spec_jumps().len() as int) =~= a.spec_jumps());
    assert(a.spec_choices().take(a.spec_choices().len() as int) =~= a.spec_choices());
    assert(a.spec_rules().take(a.spec_rules().len() as int) =~= a.spec_rules());
}

pub proof fn lemma_grows_trans(a: FactSetBuilder, b: FactSetBuilder, c: FactSetBuilder)
    requires
        grows(a, b),
        grows(b, c),
    ensures
        grows(a, c),
{
    assert(c.spec_reads().take(a.spec_reads().len() as int)
        =~= c.spec_reads().take(b.spec_reads().len() as int).take(a.spec_reads().len() as int));
    assert(c.spec_writes().take(a.spec_writes().len() as int)
        =~= c.spec_writes().take(b.spec_writes().len() as int).take(a.spec_writes().len() as int));
    assert(c.spec_jumps().take(a.spec_jumps().len() as int)
        =~= c.spec_jumps().take(b.spec_jumps().len() as int).take(a.spec_jumps().len() as int));
    assert(c.spec_choices().take(a.spec_choices().len() as int)
        =~= c.spec_choices().take(b.spec_choices().len() as int).take(a.spec_choices().len() as int));
    assert(c.spec_rules().take(a.spec_rules().len() as int)
        =~= c.spec_rules().take(b.spec_rules().len() as int).take(a.spec_rules().len() as int));
    assert forall|i: int| #![trigger c.spec_exits()[i]] 0 <= i < a.spec_exits().len() implies {
        &&& c.spec_exits()[i].from_location == a.spec_exits()[i].from_location
        &&& c.spec_exits()[i].to_location == a.spec_exits()[i].to_location
        &&& c.spec_exits()[i].exit_name == a.spec_exits()[i].exit_name
        &&& c.spec_exits()[i].is_conditional == a.spec_exits()[i].is_conditional
        &&& c.spec_exits()[i].span == a.spec_exits()[i].span
    } by {
        assert(b.spec_exits()[i] == b.spec_exits()[i]);
    }
}

/// The read a property comparison gives: its resolved type and property
/// and its operator, when it has all three.
pub open spec fn read_target(pc: crate::ast::PropertyComparison) -> Option<(Seq<char>, Seq<char>, CompareOp)> {
    match pc.annotation {
        Some(a) => match (a.resolved_type, a.resolved_property, compare_op_of(pc.operator@)) {
            (Some(t), Some(p), Some(op)) => Some((t@, p@, op)),
            _ => None,
        },
        None => None,
    }
}

/// The write an effect gives: for an assignment, its resolved type and
/// property and its operator, when it has all three.
pub open spec fn write_target(e: crate::ast::Effect) -> Option<(Seq<char>, Seq<char>, WriteOp)> {
    match e.effect_type {
        EffectType::Assign { operator, .. } => match e.annotation {
            Some(a) => match (a.resolved_type, a.resolved_property, write_op_of(operator@)) {
                (Some(t), Some(p), Some(op)) => Some((t@, p@, op)),
                _ => None,
            },
            None => None,
        },
        _ => None,
    }
}

/// A fact site by its texts.
pub enum SiteV {
    Choice(Seq<char>),
    Exit(Seq<char>),
    Rule(Seq<char>),
}

pub open spec fn site_view(s: FactSite) -> SiteV {
    match s {
        FactSite::Choice(id) => SiteV::Choice(id@),
        FactSite::Exit(id) => SiteV::Exit(id@),
        FactSite::Rule(id) => SiteV::Rule(id@),
    }
}

/// A read fact by its texts: site, type, property, operator, literal,
/// literal kind, span.
pub type ReadV = (SiteV, Seq<char>, Seq<char>, CompareOp, Seq<char>, LiteralKind, crate::span::SpanV);

/// A write fact by its texts: site, type, property, operator, value
/// expression, value kind, span.
pub type WriteV = (SiteV, Seq<char>, Seq<char>, WriteOp, Seq<char>, Option<LiteralKind>, crate::span::SpanV);

pub open spec fn read_views(rs: Seq<PropertyRead>) -> Seq<ReadV> {
    rs.map_values(|r: PropertyRead| (site_view(r.site), r.entity_type@, r.property@, r.operator, r.value_literal@,
        r.value_kind, crate::span::span_view(r.span)))
}

pub open spec fn write_views(ws: Seq<PropertyWrite>) -> Seq<WriteV> {
    ws.map_values(|w: PropertyWrite| (site_view(w.site), w.entity_type@, w.property@, w.operator, w.value_expr@,
        w.value_kind, crate::span::span_view(w.span)))
}

/// The declared type of a property, looked up in the symbol table: that of
/// the type's first property of that name.
pub open spec fn prop_type_in(table: SymbolTable, t: Seq<char>, prop: Seq<char>) -> Option<crate::symbol_table::PropertyType> {
    match crate::link::key_index(crate::link::type_entries(table.types), t) {
        Some(i) => match first_where(crate::link::type_entries(table.types)[i].1.3, |p: crate::link::PropV| p.0 == prop) {
            Some(j) => Some(crate::link::type_entries(table.types)[i].1.3[j].1),
            None => None,
        },
        None => None,
    }
}

/// The read a property comparison gives at a site.
pub open spec fn pc_reads(pc: crate::ast::PropertyComparison, site: SiteV, table: SymbolTable) -> Seq<ReadV> {
    match read_target(pc) {
        Some((t, p, op)) => seq![(site, t, p, op, pc.value@, match prop_type_in(table, t, p) {
            Some(pt) => crate::facts::literal_kind_of(pt),
            None => LiteralKind::Str,
        }, crate::span::span_view(pc.span))],
        None => Seq::empty(),
    }
}

pub open spec fn value_expr_of(e: crate::ast::Effect) -> Seq<char> {
    match e.effect_type {
        EffectType::Assign { value_expr, .. } => value_expr@,
        _ => Seq::empty(),
    }
}

/// The write an effect gives at a site.
pub open spec fn effect_writes_of(e: crate::ast::Effect, site: SiteV, table: SymbolTable) -> Seq<WriteV> {
    match write_target(e) {
        Some((t, p, op)) => seq![(site, t, p, op, value_expr_of(e), match prop_type_in(table, t, p) {
            Some(pt) => crate::facts::write_value_kind_of(op, value_expr_of(e), pt),
            None => None,
        }, crate::span::span_view(e.span))],
        None => Seq::empty(),
    }
}

/// The read a condition gives at a site.
pub open spec fn expr_reads(e: ConditionExpr, site: SiteV, table: SymbolTable) -> Seq<ReadV> {
    match e {
        ConditionExpr::PropertyComparison(pc) => pc_reads(pc, site, table),
        _ => Seq::empty(),
    }
}

/// The reads a list of conditions gives at a site, in order.
pub open spec fn exprs_reads(es: Seq<ConditionExpr>, site: SiteV, table: SymbolTable) -> Seq<ReadV>
    decreases es.len(),
{
    if es.len() == 0 {
        Seq::empty()
    } else {
        exprs_reads(es.drop_last(), site, table) + expr_reads(es.last(), site, table)
    }
}

/// The writes a list of effects gives at a site, in order.
pub open spec fn effects_writes(es: Seq<crate::ast::Effect>, site: SiteV, table: SymbolTable) -> Seq<WriteV>
    decreases es.len(),
{
    if es.len() == 0 {
        Seq::empty()
    } else {
        effects_writes(es.drop_last(), site, table) + effect_writes_of(es.last(), site, table)
    }
}

/// The reads of an exit declaration's guard conditions at its exit.
pub open spec fn guard_reads_of(ns: Seq<ContentNode>, site: SiteV, table: SymbolTable) -> Seq<ReadV>
    decreases ns.len(),
{
    if ns.len() == 0 {
        Seq::empty()
    } else {
        guard_reads_of(ns.drop_last(), site, table) + match ns.last() {
            ContentNode::Condition(c) => expr_reads(c.expr, site, table),
            _ => Seq::empty(),
        }
    }
}

/// The reads and writes of a rule block at its rule.
pub open spec fn rule_rw(rb: crate::ast::RuleBlock, table: SymbolTable) -> (Seq<ReadV>, Seq<WriteV>) {
    let site = SiteV::Rule(rb.name@);
    (exprs_reads(rb.where_clauses@, site, table) + match rb.select {
        Some(sel) => exprs_reads(sel.where_clauses@, site, table),
        None => Seq::empty(),
    }, effects_writes(rb.effects@, site, table))
}

/// The reads and writes of a node inside a choice: its own at the choice's
/// site, or those of a nested choice at that choice's site.
pub open spec fn inner_rw(n: ContentNode, site: SiteV, section: Option<Seq<char>>, table: SymbolTable)
    -> (Seq<ReadV>, Seq<WriteV>)
    decreases n, 2int,
{
    match n {
        ContentNode::Condition(c) => (expr_reads(c.expr, site, table), Seq::empty()),
        ContentNode::OrConditionBlock(o) => (exprs_reads(o.conditions@, site, table), Seq::empty()),
        ContentNode::Effect(e) => (Seq::empty(), effect_writes_of(e, site, table)),
        ContentNode::Choice(c) => choice_rw(c, section, table),
        _ => (Seq::empty(), Seq::empty()),
    }
}

/// The reads and writes of a choice, when its section has it.
pub open spec fn choice_rw(c: crate::ast::Choice, section: Option<Seq<char>>, table: SymbolTable)
    -> (Seq<ReadV>, Seq<WriteV>)
    decreases c, 1int,
{
    match section {
        None => (Seq::empty(), Seq::empty()),
        Some(s) => match choice_compiled_id(table, s, c.label@, c.sticky) {
            None => (Seq::empty(), Seq::empty()),
            Some(id) => {
                proof { assert(decreases_to!(c => c.content@)); }
                inner_seq_rw(c.content@, SiteV::Choice(id), section, table)
            },
        },
    }
}

pub open spec fn inner_seq_rw(ns: Seq<ContentNode>, site: SiteV, section: Option<Seq<char>>, table: SymbolTable)
    -> (Seq<ReadV>, Seq<WriteV>)
    decreases ns, 0int,
{
    if ns.len() == 0 {
        (Seq::empty(), Seq::empty())
    } else {
        let p = inner_seq_rw(ns.subrange(0, ns.len() - 1), site, section, table);
        let q = inner_rw(ns[ns.len() - 1], site, section, table);
        (p.0 + q.0, p.1 + q.1)
    }
}

/// The reads and writes of a top-level node, given the current location
/// and section.
pub open spec fn top_rw(n: ContentNode, location: Option<Seq<char>>, section: Option<Seq<char>>, table: SymbolTable)
    -> (Seq<ReadV>, Seq<WriteV>)
{
    match n {
        ContentNode::ExitDeclaration(x) => match location {
            Some(l) => (guard_reads_of(x.children@, SiteV::Exit(crate::facts::exit_id_text(l, x.direction@)), table),
                Seq::empty()),
            None => (Seq::empty(), Seq::empty()),
        },
        ContentNode::Choice(c) => choice_rw(c, section, table),
        ContentNode::RuleBlock(rb) => rule_rw(rb, table),
        _ => (Seq::empty(), Seq::empty()),
    }
}

/// The property `property` of the type `entity_type`, looked up in the
/// symbol table: the first property of that name.
fn lookup_property<'a>(entity_type: &str, property: &str, table: &'a SymbolTable) -> (r: Option<&'a PropertySymbol>)
    ensures
        r is Some ==> r.unwrap().name@ == property@,
        match crate::link::key_index(crate::link::type_entries(table.types), entity_type@) {
            Some(i) => match first_where(crate::link::type_entries(table.types)[i].1.3,
                |p: crate::link::PropV| p.0 == property@) {
                Some(j) => r is Some
                    && crate::link::prop_view(*r.unwrap()) == crate::link::type_entries(table.types)[i].1.3[j],
                None => r is None,
            },
            None => r is None,
        },
{
    match crate::link::type_get(&table.types, entity_type) {
        Some(t) => {
            let ghost ps = t.properties@.map_values(|p: PropertySymbol| crate::link::prop_view(p));
            let ghost pr = |p: crate::link::PropV| p.0 == property@;
            let ghost ents = crate::link::type_entries(table.types);
            let ghost idx = crate::link::key_index(ents, entity_type@).unwrap();
            proof { crate::facts::lemma_first_where(ps, pr); }
            let mut i: usize = 0;
            while i < t.properties.len()
                invariant
                    i <= t.properties.len(),
                    ps == t.properties@.map_values(|p: PropertySymbol| crate::link::prop_view(p)),
                    forall|q: crate::link::PropV| #[trigger] pr(q) == (q.0 == property@),
                    pr == (|p: crate::link::PropV| p.0 == property@),
                    ents == crate::link::type_entries(table.types),
                    crate::link::key_index(ents, entity_type@) == Some(idx),
                    crate::link::type_view(*t) == ents[idx].1,
                    forall|k: int| 0 <= k < i ==> !pr(#[trigger] ps[k]),
                decreases t.properties.len() - i,
            {
                proof { assert(ps[i as int] == crate::link::prop_view(t.properties@[i as int])); }
                if crate::text::str_equals(t.properties[i].name.as_str(), property) {
                    proof {
                        assert(pr(ps[i as int]));
                        crate::facts::lemma_first_where(ps, pr);
                        let w = first_where(ps, pr).unwrap();
                        if w < i {
                            assert(!pr(ps[w]));
                        } else if w > i {
                            assert(!pr(ps[i as int]));
                        }
                    }
                    return Some(&t.properties[i]);
                }
                assert(!pr(ps[i as int]));
                i += 1;
            }
            proof {
                if first_where(ps, pr) is Some {
                    let w = first_where(ps, pr).unwrap();
                    assert(!pr(ps[w]));
                }
            }
            None
        },
        None => None,
    }
}

/// Record the read a property comparison gives at `site`, if it gives one;
/// returns its index.
pub fn extract_property_read(
    pc: &crate::ast::PropertyComparison,
    site: &FactSite,
    table: &SymbolTable,
    builder: &mut FactSetBuilder,
) -> (r: Option<usize>)
    requires
        old(builder).wf(),
    ensures
        grows(*old(builder), *final(builder)),
        final(builder).spec_writes() == old(builder).spec_writes(),
        final(builder).spec_exits() == old(builder).spec_exits(),
        final(builder).spec_jumps() == old(builder).spec_jumps(),
        final(builder).spec_choices() == old(builder).spec_choices(),
        final(builder).spec_rules() == old(builder).spec_rules(),
        read_views(final(builder).spec_reads()) == read_views(old(builder).spec_reads()) + pc_reads(*pc, site_view(*site), *table),
        match read_target(*pc) {
            Some((t, p, op)) => {
                &&& r is Some && r.unwrap() == old(builder).spec_reads().len()
                &&& final(builder).spec_reads().len() == old(builder).spec_reads().len() + 1
                &&& final(builder).spec_reads().last().site == *site
                &&& final(builder).spec_reads().last().entity_type@ == t
                &&& final(builder).spec_reads().last().property@ == p
                &&& final(builder).spec_reads().last().operator == op
                &&& final(builder).spec_reads().last().value_literal@ == pc.value@
                &&& final(builder).spec_reads().last().span == pc.span
            },
            None => r is None && final(builder).spec_reads() == old(builder).spec_reads(),
        },
{
    proof { lemma_grows_refl(*builder); }
    let a = match &pc.annotation {
        Some(a) => a,
        None => return None,
    };
    let t = match &a.resolved_type {
        Some(t) => t,
        None => return None,
    };
    let p = match &a.resolved_property {
        Some(p) => p,
        None => return None,
    };
    let op = match CompareOp::from_token(pc.operator.as_str()) {
        Some(op) => op,
        None => return None,
    };
    let kind = match lookup_property(t.as_str(), p.as_str(), table) {
        Some(ps) => classify_literal(&ps.property_type),
        None => LiteralKind::Str,
    };
    let ghost b0 = *builder;
    let idx = builder.push_read(PropertyRead {
        site: site.clone(),
        entity_type: t.clone(),
        property: p.clone(),
        operator: op,
        value_literal: pc.value.clone(),
        value_kind: kind,
        span: pc.span.clone(),
    });
    proof {
        assert(builder.spec_reads().take(b0.spec_reads().len() as int) =~= b0.spec_reads());
        assert(builder.spec_writes().take(b0.spec_writes().len() as int) =~= b0.spec_writes());
        assert(builder.spec_jumps().take(b0.spec_jumps().len() as int) =~= b0.spec_jumps());
        assert(builder.spec_choices().take(b0.spec_choices().len() as int) =~= b0.spec_choices());
        assert(builder.spec_rules().take(b0.spec_rules().len() as int) =~= b0.spec_rules());
    }
    Some(idx)
}

/// Record the write an effect gives at `site`, if it gives one; returns
/// its index.
pub fn extract_property_write(
    effect: &crate::ast::Effect,
    site: &FactSite,
    table: &SymbolTable,
    builder: &mut FactSetBuilder,
) -> (r: Option<usize>)
    requires
        old(builder).wf(),
    ensures
        grows(*old(builder), *final(builder)),
        final(builder).spec_reads() == old(builder).spec_reads(),
        final(builder).spec_exits() == old(builder).spec_exits(),
        final(builder).spec_jumps() == old(builder).spec_jumps(),
        final(builder).spec_choices() == old(builder).spec_choices(),
        final(builder).spec_rules() == old(builder).spec_rules(),
        write_views(final(builder).spec_writes()) == write_views(old(builder).spec_writes())
            + effect_writes_of(*effect, site_view(*site), *table),
        match write_target(*effect) {
            Some((t, p, op)) => {
                &&& r is Some && r.unwrap() == old(builder).spec_writes().len()
                &&& final(builder).spec_writes().len() == old(builder).spec_writes().len() + 1
                &&& final(builder).spec_writes().last().site == *site
                &&& final(builder).spec_writes().last().entity_type@ == t
                &&& final(builder).spec_writes().last().property@ == p
                &&& final(builder).spec_writes().last().operator == op
                &&& final(builder).spec_writes().last().value_expr@ == (match effect.effect_type {
                    EffectType::Assign { value_expr, .. } => value_expr@,
                    _ => Seq::empty(),
                })
                &&& final(builder).spec_writes().last().span == effect.span
            },
            None => r is None && final(builder).spec_writes() == old(builder).spec_writes(),
        },
{
    proof { lemma_grows_refl(*builder); }
    let (operator, value_expr) = match &effect.effect_type {
        EffectType::Assign { operator, value_expr, .. } => (operator, value_expr),
        _ => return None,
    };
    let a = match &effect.annotation {
        Some(a) => a,
        None => return None,
    };
    let t = match &a.resolved_type {
        Some(t) => t,
        None => return None,
    };
    let p = match &a.resolved_property {
        Some(p) => p,
        None => return None,
    };
    let op = match WriteOp::from_token(operator.as_str()) {
        Some(op) => op,
        None => return None,
    };
    let kind = match lookup_property(t.as_str(), p.as_str(), table) {
        Some(ps) => classify_write_value_kind(&op, value_expr.as_str(), &ps.property_type),
        None => None,
    };
    let ghost b0 = *builder;
    let idx = builder.push_write(PropertyWrite {
        site: site.clone(),
        entity_type: t.clone(),
        property: p.clone(),
        operator: op,
        value_expr: value_expr.clone(),
        value_kind: kind,
        span: effect.span.clone(),
    });
    proof {
        assert(builder.spec_reads().take(b0.spec_reads().len() as int) =~= b0.spec_reads());
        assert(builder.spec_writes().take(b0.spec_writes().len() as int) =~= b0.spec_writes());
        assert(builder.spec_jumps().take(b0.spec_jumps().len() as int) =~= b0.spec_jumps());
        assert(builder.spec_choices().take(b0.spec_choices().len() as int) =~= b0.spec_choices());
        assert(builder.spec_rules().take(b0.spec_rules().len() as int) =~= b0.spec_rules());
    }
    Some(idx)
}

/// `new` is `old` followed by the indices `a`, `a + 1`, ..., `b - 1`.
pub open spec fn appends_range(new: Seq<usize>, old: Seq<usize>, a: int, b: int) -> bool {
    &&& a <= b
    &&& new.len() == old.len() + (b - a)
    &&& forall|k: int| 0 <= k < old.len() ==> #[trigger] new[k] == old[k]
    &&& forall|k: int| old.len() <= k < new.len() ==> #[trigger] new[k] as int == a + (k - old.len())
}

/// The reads from position `from` on all sit at `site`.
pub open spec fn reads_at_site(reads: Seq<PropertyRead>, from: int, site: FactSite) -> bool {
    forall|k: int| from <= k < reads.len() ==> (#[trigger] reads[k]).site == site
}

/// The writes from position `from` on all sit at `site`.
pub open spec fn writes_at_site(writes: Seq<PropertyWrite>, from: int, site: FactSite) -> bool {
    forall|k: int| from <= k < writes.len() ==> (#[trigger] writes[k]).site == site
}

/// Record the read of a condition, if it is a property comparison that
/// gives one, and add its index to `acc`.
fn extract_expr_read(
    expr: &ConditionExpr,
    site: &FactSite,
    table: &SymbolTable,
    builder: &mut FactSetBuilder,
    acc: &mut Vec<usize>,
)
    requires
        old(builder).wf(),
    ensures
        grows(*old(builder), *final(builder)),
        final(builder).spec_writes() == old(builder).spec_writes(),
        final(builder).spec_exits() == old(builder).spec_exits(),
        final(builder).spec_jumps() == old(builder).spec_jumps(),
        final(builder).spec_choices() == old(builder).spec_choices(),
        final(builder).spec_rules() == old(builder).spec_rules(),
        reads_at_site(final(builder).spec_reads(), old(builder).spec_reads().len() as int, *site),
        appends_range(final(acc)@, old(acc)@, old(builder).spec_reads().len() as int, final(builder).spec_reads().len() as int),
        final(builder).spec_reads().len() == old(builder).spec_reads().len() + (match *expr {
            ConditionExpr::PropertyComparison(pc) => if read_target(pc) is Some { 1int } else { 0int },
            _ => 0int,
        }),
        read_views(final(builder).spec_reads()) == read_views(old(builder).spec_reads())
            + expr_reads(*expr, site_view(*site), *table),
{
    proof { lemma_grows_refl(*builder); }
    let ghost a0 = acc@;
    let ghost r0 = read_views(builder.spec_reads());
    proof { assert(r0 + Seq::<ReadV>::empty() =~= r0); }
    match expr {
        ConditionExpr::PropertyComparison(pc) => {
            match extract_property_read(pc, site, table, builder) {
                Some(idx) => {
                    acc.push(idx);
                    assert(acc@ == a0.push(idx));
                },
                None => {
                },
            }
        },
        _ => {
        },
    }
}

/// Record the reads of a list of conditions at `site`, adding their indices
/// to `acc`.
fn extract_expr_reads(
    exprs: &Vec<ConditionExpr>,
    site: &FactSite,
    table: &SymbolTable,
    builder: &mut FactSetBuilder,
    acc: &mut Vec<usize>,
)
    requires
        old(builder).wf(),
    ensures
        grows(*old(builder), *final(builder)),
        final(builder).spec_writes() == old(builder).spec_writes(),
        final(builder).spec_exits() == old(builder).spec_exits(),
        final(builder).spec_jumps() == old(builder).spec_jumps(),
        final(builder).spec_choices() == old(builder).spec_choices(),
        final(builder).spec_rules() == old(builder).spec_rules(),
        reads_at_site(final(builder).spec_reads(), old(builder).spec_reads().len() as int, *site),
        appends_range(final(acc)@, old(acc)@, old(builder).spec_reads().len() as int, final(builder).spec_reads().len() as int),
        read_views(final(builder).spec_reads()) == read_views(old(builder).spec_reads())
            + exprs_reads(exprs@, site_view(*site), *table),
{
    proof { lemma_grows_refl(*builder); }
    let ghost b0 = *builder;
    let ghost a0 = acc@;
    proof {
        assert(exprs@.take(0) =~= Seq::<ConditionExpr>::empty());
        assert(read_views(b0.spec_reads()) + exprs_reads(exprs@.take(0), site_view(*site), *table) =~= read_views(b0.spec_reads()));
    }
    let mut i: usize = 0;
    while i < exprs.len()
        invariant
            i <= exprs.len(),
            b0 == *old(builder),
            a0 == old(acc)@,
            grows(b0, *builder),
            builder.spec_writes() == b0.spec_writes(),
            builder.spec_exits() == b0.spec_exits(),
            builder.spec_jumps() == b0.spec_jumps(),
            builder.spec_choices() == b0.spec_choices(),
            builder.spec_rules() == b0.spec_rules(),
            reads_at_site(builder.spec_reads(), b0.spec_reads().len() as int, *site),
            appends_range(acc@, a0, b0.spec_reads().len() as int, builder.spec_reads().len() as int),
            read_views(builder.spec_reads()) == read_views(b0.spec_reads())
                + exprs_reads(exprs@.take(i as int), site_view(*site), *table),
        decreases exprs.len() - i,
    {
        let ghost b1 = *builder;
        let ghost a1 = acc@;
        extract_expr_read(&exprs[i], site, table, builder, acc);
        proof {
            assert(exprs@.take(i + 1).drop_last() =~= exprs@.take(i as int));
            assert(exprs@.take(i + 1).last() == exprs@[i as int]);
            assert(read_views(b0.spec_reads()) + exprs_reads(exprs@.take(i + 1), site_view(*site), *table)
                =~= read_views(b0.spec_reads()) + exprs_reads(exprs@.take(i as int), site_view(*site), *table)
                    + expr_reads(exprs@[i as int], site_view(*site), *table));
            lemma_grows_trans(b0, b1, *builder);
            assert forall|k: int| b0.spec_reads().len() <= k < builder.spec_reads().len()
                implies (#[trigger] builder.spec_reads()[k]).site == *site by {
                if k < b1.spec_reads().len() {
                    assert(builder.spec_reads()[k] == builder.spec_reads().take(b1.spec_reads().len() as int)[k]);
                }
            }
        }
        i += 1;
    }
    proof { assert(exprs@.take(exprs@.len() as int) =~= exprs@); }
}

/// Record a rule: the reads of its conditions and of its selection's
/// conditions, the writes of its effects, and the rule itself.
pub fn extract_rule(rule_block: &crate::ast::RuleBlock, builder: &mut FactSetBuilder, table: &SymbolTable)
    requires
        old(builder).wf(),
    ensures
        grows(*old(builder), *final(builder)),
        final(builder).spec_exits() == old(builder).spec_exits(),
        final(builder).spec_jumps() == old(builder).spec_jumps(),
        final(builder).spec_choices() == old(builder).spec_choices(),
        final(builder).spec_rules().len() == old(builder).spec_rules().len() + 1,
        final(builder).spec_rules().last().rule_id@ == rule_block.name@,
        final(builder).spec_rules().last().span == rule_block.span,
        appends_range(final(builder).spec_rules().last().condition_reads@, Seq::empty(), old(builder).spec_reads().len() as int, final(builder).spec_reads().len() as int),
        appends_range(final(builder).spec_rules().last().effect_writes@, Seq::empty(), old(builder).spec_writes().len() as int, final(builder).spec_writes().len() as int),
        reads_at_site(final(builder).spec_reads(), old(builder).spec_reads().len() as int,
            FactSite::Rule(rule_block.name)),
        writes_at_site(final(builder).spec_writes(), old(builder).spec_writes().len() as int,
            FactSite::Rule(rule_block.name)),
        sites_consistent(*old(builder)) ==> sites_consistent(*final(builder)),
        read_views(final(builder).spec_reads()) == read_views(old(builder).spec_reads()) + rule_rw(*rule_block, *table).0,
        write_views(final(builder).spec_writes()) == write_views(old(builder).spec_writes()) + rule_rw(*rule_block, *table).1,
{
    let ghost b0 = *builder;
    let rule_id = rule_block.name.clone();
    let site = FactSite::Rule(rule_id.clone());
    let mut condition_reads: Vec<usize> = Vec::new();
    let mut effect_writes: Vec<usize> = Vec::new();
    extract_expr_reads(&rule_block.where_clauses, &site, table, builder, &mut condition_reads);
    let ghost b1 = *builder;
    match &rule_block.select {
        Some(select) => {
            extract_expr_reads(&select.where_clauses, &site, table, builder, &mut condition_reads);
            proof {
                lemma_grows_trans(b0, b1, *builder);
                assert forall|k: int| b0.spec_reads().len() <= k < builder.spec_reads().len()
                    implies (#[trigger] builder.spec_reads()[k]).site == site by {
                    if k < b1.spec_reads().len() {
                        assert(builder.spec_reads()[k] == builder.spec_reads().take(b1.spec_reads().len() as int)[k]);
                    }
                }
            }
        },
        None => {
        },
    }
    let ghost b2 = *builder;
    let ghost sv = SiteV::Rule(rule_block.name@);
    proof {
        lemma_grows_refl(b2);
        assert(site_view(site) == sv);
        assert(read_views(b2.spec_reads()) == read_views(b0.spec_reads()) + rule_rw(*rule_block, *table).0) by {
            match rule_block.select {
                Some(sel) => {
                    assert(read_views(b0.spec_reads()) + rule_rw(*rule_block, *table).0
                        =~= read_views(b0.spec_reads()) + exprs_reads(rule_block.where_clauses@, sv, *table)
                            + exprs_reads(sel.where_clauses@, sv, *table));
                },
                None => {
                    assert(rule_rw(*rule_block, *table).0 =~= exprs_reads(rule_block.where_clauses@, sv, *table));
                },
            }
        }
        assert(rule_block.effects@.take(0) =~= Seq::<crate::ast::Effect>::empty());
        assert(write_views(b0.spec_writes()) + effects_writes(rule_block.effects@.take(0), sv, *table)
            =~= write_views(b0.spec_writes()));
    }
    assert(reads_at_site(b2.spec_reads(), b0.spec_reads().len() as int, site));
    assert(appends_range(condition_reads@, Seq::empty(), b0.spec_reads().len() as int, b2.spec_reads().len() as int));
    let mut i: usize = 0;
    while i < rule_block.effects.len()
        invariant
            i <= rule_block.effects.len(),
            grows(b0, *builder),
            grows(b2, *builder),
            builder.spec_reads() == b2.spec_reads(),
            builder.spec_exits() == b0.spec_exits(),
            builder.spec_jumps() == b0.spec_jumps(),
            builder.spec_choices() == b0.spec_choices(),
            builder.spec_rules() == b0.spec_rules(),
            b2.spec_writes() == b0.spec_writes(),
            appends_range(effect_writes@, Seq::empty(), b0.spec_writes().len() as int, builder.spec_writes().len() as int),
            writes_at_site(builder.spec_writes(), b0.spec_writes().len() as int, site),
            sv == site_view(site),
            write_views(builder.spec_writes()) == write_views(b0.spec_writes())
                + effects_writes(rule_block.effects@.take(i as int), sv, *table),
        decreases rule_block.effects.len() - i,
    {
        let ghost b3 = *builder;
        let ghost e0 = effect_writes@;
        match extract_property_write(&rule_block.effects[i], &site, table, builder) {
            Some(idx) => {
                effect_writes.push(idx);
                assert(effect_writes@ == e0.push(idx));
                proof {
                    assert forall|k: int| b0.spec_writes().len() <= k < builder.spec_writes().len()
                        implies (#[trigger] builder.spec_writes()[k]).site == site by {
                        if k < b3.spec_writes().len() {
                            assert(builder.spec_writes()[k] == builder.spec_writes().take(b3.spec_writes().len() as int)[k]);
                        }
                    }
                }
            },
            None => {},
        }
        proof {
            lemma_grows_trans(b0, b3, *builder);
            lemma_grows_trans(b2, b3, *builder);
            let es = rule_block.effects@;
            assert(es.take(i + 1).drop_last() =~= es.take(i as int));
            assert(es.take(i + 1).last() == es[i as int]);
            assert(write_views(b0.spec_writes()) + effects_writes(es.take(i + 1), sv, *table)
                =~= write_views(b0.spec_writes()) + effects_writes(es.take(i as int), sv, *table)
                    + effect_writes_of(es[i as int], sv, *table));
        }
        i += 1;
    }
    proof { assert(rule_block.effects@.take(rule_block.effects@.len() as int) =~= rule_block.effects@); }
    let ghost b4 = *builder;
    proof {
        assert forall|k: int| 0 <= k < condition_reads@.len() implies (#[trigger] condition_reads@[k] as int) < builder.spec_reads().len() by {}
        assert forall|k: int| 0 <= k < effect_writes@.len() implies (#[trigger] effect_writes@[k] as int) < builder.spec_writes().len() by {}
    }
    builder.push_rule(RuleFact { rule_id, condition_reads, effect_writes, span: rule_block.span.clone() });
    proof {
        assert(builder.spec_rules().take(b4.spec_rules().len() as int) =~= b4.spec_rules());
        assert(builder.spec_rules().take(b0.spec_rules().len() as int) =~= b0.spec_rules());
        lemma_grows_refl(b4);
        if sites_consistent(b0) {
            lemma_consistent_kept(b0, b4);
            let n = b4.spec_rules().len() as int;
            assert forall|c: int, k: int| 0 <= c < builder.spec_rules().len() && 0 <= k < builder.spec_rules()[c].condition_reads@.len()
                implies builder.spec_reads()[#[trigger] builder.spec_rules()[c].condition_reads@[k] as int].site
                    == FactSite::Rule(builder.spec_rules()[c].rule_id) by {
                if c < n {
                    assert(builder.spec_rules()[c] == b4.spec_rules()[c]);
                } else {
                    assert(builder.spec_rules()[c] == builder.spec_rules().last());
                    let x = builder.spec_rules()[c].condition_reads@[k] as int;
                    assert(x == b0.spec_reads().len() + k);
                    assert(b2.spec_reads()[x].site == site);
                }
            }
            assert forall|c: int, k: int| 0 <= c < builder.spec_rules().len() && 0 <= k < builder.spec_rules()[c].effect_writes@.len()
                implies builder.spec_writes()[#[trigger] builder.spec_rules()[c].effect_writes@[k] as int].site
                    == FactSite::Rule(builder.spec_rules()[c].rule_id) by {
                if c < n {
                    assert(builder.spec_rules()[c] == b4.spec_rules()[c]);
                } else {
                    assert(builder.spec_rules()[c] == builder.spec_rules().last());
                    let x = builder.spec_rules()[c].effect_writes@[k] as int;
                    assert(x == b0.spec_writes().len() + k);
                    assert(b4.spec_writes()[x].site == site);
                }
            }
        }
    }
}

/// The IDs of recorded exits, in order.
pub open spec fn exit_ids(exits: Seq<ExitEdge>) -> Seq<Seq<char>> {
    exits.map_values(|e: ExitEdge| e.id_view())
}

/// A jump target by its texts.
pub enum TargetV {
    Section(Seq<char>),
    Exit(Seq<char>),
    End,
}

pub open spec fn target_view(t: JumpTarget) -> TargetV {
    match t {
        JumpTarget::Section(s) => TargetV::Section(s@),
        JumpTarget::Exit(x) => TargetV::Exit(x@),
        JumpTarget::End => TargetV::End,
    }
}

/// A jump fact by its texts: section, target, span.
pub type JumpV = (Seq<char>, TargetV, crate::span::SpanV);

pub open spec fn jump_views(js: Seq<JumpEdge>) -> Seq<JumpV> {
    js.map_values(|j: JumpEdge| (j.from_section@, target_view(j.target), crate::span::span_view(j.span)))
}

/// A choice fact by its texts: section, choice ID, label, stickiness, span.
pub type ChoiceFactV = (Seq<char>, Seq<char>, Seq<char>, bool, crate::span::SpanV);

pub open spec fn choice_views(cs: Seq<ChoiceFact>) -> Seq<ChoiceFactV> {
    cs.map_values(|c: ChoiceFact| (c.section@, c.choice_id@, c.label@, c.sticky, crate::span::span_view(c.span)))
}

/// The target a recorded jump goes to.
pub open spec fn jump_target_of(j: crate::ast::Jump) -> TargetV {
    let a = j.annotation.unwrap();
    match a.resolved_section {
        Some(s) => TargetV::Section(s@),
        None => match a.resolved_location {
            Some(l) => TargetV::Exit(crate::facts::exit_id_text(l@, j.target@)),
            None => TargetV::End,
        },
    }
}

/// The jump fact a jump gives in `section`, if it gives one.
pub open spec fn jump_fact(j: crate::ast::Jump, section: Option<Seq<char>>, ids: Seq<Seq<char>>) -> Seq<JumpV> {
    if jump_recorded(j, section, ids) {
        seq![(section.unwrap(), jump_target_of(j), crate::span::span_view(j.span))]
    } else {
        Seq::empty()
    }
}

/// The jump and choice facts of a node in `section`.
pub open spec fn node_out(n: ContentNode, section: Option<Seq<char>>, table: SymbolTable, ids: Seq<Seq<char>>)
    -> (Seq<JumpV>, Seq<ChoiceFactV>)
    decreases n, 2int,
{
    match n {
        ContentNode::Jump(j) => (jump_fact(j, section, ids), Seq::empty()),
        ContentNode::Choice(c) => choice_out(c, section, table, ids),
        _ => (Seq::empty(), Seq::empty()),
    }
}

/// The jump and choice facts of a choice: those of its content, then the
/// choice itself, when its section has it.
pub open spec fn choice_out(c: crate::ast::Choice, section: Option<Seq<char>>, table: SymbolTable, ids: Seq<Seq<char>>)
    -> (Seq<JumpV>, Seq<ChoiceFactV>)
    decreases c, 1int,
{
    match section {
        None => (Seq::empty(), Seq::empty()),
        Some(s) => match choice_compiled_id(table, s, c.label@, c.sticky) {
            None => (Seq::empty(), Seq::empty()),
            Some(id) => {
                proof { assert(decreases_to!(c => c.content@)); }
                let inner = content_out(c.content@, section, table, ids);
                (inner.0, inner.1.push((s, id, c.label@, c.sticky, crate::span::span_view(c.span))))
            },
        },
    }
}

/// The jump and choice facts of nodes in `section`, in order.
pub open spec fn content_out(ns: Seq<ContentNode>, section: Option<Seq<char>>, table: SymbolTable, ids: Seq<Seq<char>>)
    -> (Seq<JumpV>, Seq<ChoiceFactV>)
    decreases ns, 0int,
{
    if ns.len() == 0 {
        (Seq::empty(), Seq::empty())
    } else {
        let p = content_out(ns.subrange(0, ns.len() - 1), section, table, ids);
        let q = node_out(ns[ns.len() - 1], section, table, ids);
        (p.0 + q.0, p.1 + q.1)
    }
}

/// Whether a jump is recorded: it is resolved, it stands in a section, and
/// it goes to a section, to an exit already recorded, or to `end`.
pub open spec fn jump_recorded(j: crate::ast::Jump, section: Option<Seq<char>>, ids: Seq<Seq<char>>) -> bool {
    &&& j.annotation is Some
    &&& section is Some
    &&& ({
        let a = j.annotation.unwrap();
        ||| a.resolved_section is Some
        ||| (a.resolved_location is Some
                && ids.contains(crate::facts::exit_id_text(a.resolved_location.unwrap()@, j.target@)))
        ||| (a.resolved_section is None && a.resolved_location is None && j.target@ == "end"@)
    })
}

/// The target a recorded jump has.
pub open spec fn jump_target_ok(t: JumpTarget, j: crate::ast::Jump) -> bool {
    let a = j.annotation.unwrap();
    match a.resolved_section {
        Some(s) => t matches JumpTarget::Section(x) && x@ == s@,
        None => match a.resolved_location {
            Some(l) => t matches JumpTarget::Exit(x) && x@ == crate::facts::exit_id_text(l@, j.target@),
            None => t is End,
        },
    }
}

/// Record the jump edge of a jump in the current section, when it has a
/// known target.
pub fn extract_jump(jump: &crate::ast::Jump, builder: &mut FactSetBuilder, current_section: &Option<String>)
    requires
        old(builder).wf(),
    ensures
        grows(*old(builder), *final(builder)),
        final(builder).spec_reads() == old(builder).spec_reads(),
        final(builder).spec_writes() == old(builder).spec_writes(),
        final(builder).spec_exits() == old(builder).spec_exits(),
        final(builder).spec_choices() == old(builder).spec_choices(),
        final(builder).spec_rules() == old(builder).spec_rules(),
        jump_views(final(builder).spec_jumps()) == jump_views(old(builder).spec_jumps())
            + jump_fact(*jump, crate::ast::opt_view(*current_section), exit_ids(old(builder).spec_exits())),
        if jump_recorded(*jump, crate::ast::opt_view(*current_section), exit_ids(old(builder).spec_exits())) {
            &&& final(builder).spec_jumps().len() == old(builder).spec_jumps().len() + 1
            &&& final(builder).spec_jumps().last().from_section@ == current_section.unwrap()@
            &&& final(builder).spec_jumps().last().span == jump.span
            &&& jump_target_ok(final(builder).spec_jumps().last().target, *jump)
        } else {
            final(builder).spec_jumps() == old(builder).spec_jumps()
        },
{
    proof { lemma_grows_refl(*builder); reveal_strlit("end"); }
    let ann = match &jump.annotation {
        Some(a) => a,
        None => return,
    };
    let section_id = match current_section {
        Some(id) => id.clone(),
        None => return,
    };
    let target = match &ann.resolved_section {
        Some(section) => JumpTarget::Section(section.clone()),
        None => match &ann.resolved_location {
            Some(loc_id) => {
                let exit_id = make_exit_id(loc_id.as_str(), jump.target.as_str());
                if builder.has_exit_id(exit_id.as_str()) {
                    proof {
                        let i = choose|i: int| 0 <= i < builder.spec_exits().len()
                            && (#[trigger] builder.spec_exits()[i]).id_view() == exit_id@;
                        assert(exit_ids(builder.spec_exits())[i] == exit_id@);
                    }
                    JumpTarget::Exit(exit_id)
                } else {
                    return;
                }
            },
            None => {
                if crate::text::str_equals(jump.target.as_str(), "end") {
                    JumpTarget::End
                } else {
                    return;
                }
            },
        },
    };
    let ghost b0 = *builder;
    builder.push_jump(JumpEdge { from_section: section_id, target, span: jump.span.clone() });
    proof {
        assert(target_view(builder.spec_jumps().last().target) == jump_target_of(*jump));
        assert(jump_views(builder.spec_jumps()) =~= jump_views(b0.spec_jumps())
            + jump_fact(*jump, crate::ast::opt_view(*current_section), exit_ids(b0.spec_exits())));
        assert(builder.spec_jumps().take(b0.spec_jumps().len() as int) =~= b0.spec_jumps());
        assert(builder.spec_reads().take(b0.spec_reads().len() as int) =~= b0.spec_reads());
        assert(builder.spec_writes().take(b0.spec_writes().len() as int) =~= b0.spec_writes());
        assert(builder.spec_choices().take(b0.spec_choices().len() as int) =~= b0.spec_choices());
        assert(builder.spec_rules().take(b0.spec_rules().len() as int) =~= b0.spec_rules());
    }
}

/// Record the reads of an exit declaration's guard conditions, at the exit
/// of the current location, and attach them to that exit.
pub fn extract_exit_guards(
    exit_decl: &crate::ast::ExitDeclaration,
    builder: &mut FactSetBuilder,
    table: &SymbolTable,
    current_location: &Option<String>,
)
    requires
        old(builder).wf(),
    ensures
        grows(*old(builder), *final(builder)),
        final(builder).spec_writes() == old(builder).spec_writes(),
        final(builder).spec_jumps() == old(builder).spec_jumps(),
        final(builder).spec_choices() == old(builder).spec_choices(),
        final(builder).spec_rules() == old(builder).spec_rules(),
        current_location is None ==> final(builder).spec_reads() == old(builder).spec_reads()
            && final(builder).spec_exits() == old(builder).spec_exits(),
        guards_ok(old(builder).spec_reads(), old(builder).spec_exits())
            ==> guards_ok(final(builder).spec_reads(), final(builder).spec_exits()),
        current_location matches Some(l) ==> read_views(final(builder).spec_reads()) == read_views(old(builder).spec_reads())
            + guard_reads_of(exit_decl.children@, SiteV::Exit(crate::facts::exit_id_text(l@, exit_decl.direction@)), *table),
        current_location is Some ==> forall|k: int| old(builder).spec_reads().len() <= k < final(builder).spec_reads().len()
            ==> ((#[trigger] final(builder).spec_reads()[k]).site matches FactSite::Exit(x)
                && x@ == crate::facts::exit_id_text(current_location.unwrap()@, exit_decl.direction@)),
{
    proof { lemma_grows_refl(*builder); }
    let loc_id = match current_location {
        Some(id) => id,
        None => return,
    };
    let ghost b0 = *builder;
    let mut guard_reads: Vec<usize> = Vec::new();
    let exit_id = make_exit_id(loc_id.as_str(), exit_decl.direction.as_str());
    let site = FactSite::Exit(exit_id);
    let ghost sv = site_view(site);
    proof {
        assert(exit_decl.children@.take(0) =~= Seq::<ContentNode>::empty());
        assert(read_views(b0.spec_reads()) + guard_reads_of(exit_decl.children@.take(0), sv, *table)
            =~= read_views(b0.spec_reads()));
    }
    let mut i: usize = 0;
    while i < exit_decl.children.len()
        invariant
            i <= exit_decl.children.len(),
            grows(b0, *builder),
            builder.spec_writes() == b0.spec_writes(),
            builder.spec_exits() == b0.spec_exits(),
            builder.spec_jumps() == b0.spec_jumps(),
            builder.spec_choices() == b0.spec_choices(),
            builder.spec_rules() == b0.spec_rules(),
            reads_at_site(builder.spec_reads(), b0.spec_reads().len() as int, site),
            appends_range(guard_reads@, Seq::empty(), b0.spec_reads().len() as int, builder.spec_reads().len() as int),
            sv == site_view(site),
            read_views(builder.spec_reads()) == read_views(b0.spec_reads())
                + guard_reads_of(exit_decl.children@.take(i as int), sv, *table),
        decreases exit_decl.children.len() - i,
    {
        match &exit_decl.children[i] {
            ContentNode::Condition(cond) => {
                let ghost b1 = *builder;
                extract_expr_read(&cond.expr, &site, table, builder, &mut guard_reads);
                proof {
                    lemma_grows_trans(b0, b1, *builder);
                    assert forall|k: int| b0.spec_reads().len() <= k < builder.spec_reads().len()
                        implies (#[trigger] builder.spec_reads()[k]).site == site by {
                        if k < b1.spec_reads().len() {
                            assert(builder.spec_reads()[k] == builder.spec_reads().take(b1.spec_reads().len() as int)[k]);
                        }
                    }
                }
            },
            _ => {},
        }
        proof {
            let c = exit_decl.children@;
            assert(c.take(i + 1).drop_last() =~= c.take(i as int));
            assert(c.take(i + 1).last() == c[i as int]);
            let g = match c[i as int] {
                ContentNode::Condition(cd) => expr_reads(cd.expr, sv, *table),
                _ => Seq::empty(),
            };
            assert(read_views(b0.spec_reads()) + guard_reads_of(c.take(i + 1), sv, *table)
                =~= read_views(b0.spec_reads()) + guard_reads_of(c.take(i as int), sv, *table) + g);
            if !(c[i as int] is Condition) {
                assert(read_views(b0.spec_reads()) + guard_reads_of(c.take(i as int), sv, *table) + g
                    =~= read_views(b0.spec_reads()) + guard_reads_of(c.take(i as int), sv, *table));
            }
        }
        i += 1;
    }
    proof { assert(exit_decl.children@.take(exit_decl.children@.len() as int) =~= exit_decl.children@); }
    proof {
        if guards_ok(b0.spec_reads(), b0.spec_exits()) {
            lemma_guards_kept(b0, *builder);
        }
    }
    if guard_reads.len() > 0 {
        let ghost b2 = *builder;
        let ghost gr = guard_reads@;
        proof {
            assert forall|k: int| 0 <= k < guard_reads@.len() implies (#[trigger] guard_reads@[k] as int) < builder.spec_reads().len() by {}
        }
        builder.set_exit_guard_reads(loc_id.as_str(), exit_decl.direction.as_str(), guard_reads);
        proof {
            if guards_ok(b2.spec_reads(), b2.spec_exits()) {
                assert forall|e: int, k: int| 0 <= e < builder.spec_exits().len() && 0 <= k < builder.spec_exits()[e].guard_reads@.len()
                    implies (builder.spec_reads()[#[trigger] builder.spec_exits()[e].guard_reads@[k] as int].site matches FactSite::Exit(x)
                        && x@ == builder.spec_exits()[e].id_view()) by {
                    match first_where(b2.spec_exits(),
                        |e: ExitEdge| e.from_location@ == loc_id@ && e.exit_name@ == exit_decl.direction@) {
                        Some(w) => {
                            if e == w {
                                assert(builder.spec_exits()[e].guard_reads@ == gr);
                                let x = gr[k] as int;
                                assert(x == b0.spec_reads().len() + k);
                                assert(b2.spec_reads()[x].site == site);
                            } else {
                                assert(builder.spec_exits()[e] == b2.spec_exits()[e]);
                            }
                        },
                        None => {
                            assert(builder.spec_exits()[e] == b2.spec_exits()[e]);
                        },
                    }
                }
            }
            lemma_grows_refl(b2);
            assert(builder.spec_reads() == b2.spec_reads());
            assert(exits_kept(b2.spec_exits(), builder.spec_exits()));
            assert(grows(b2, *builder));
            lemma_grows_trans(b0, b2, *builder);
        }
    }
}

/// Each choice's and each rule's read and write indices point at reads and
/// writes made at that choice or rule.
pub open spec fn sites_ok(reads: Seq<PropertyRead>, writes: Seq<PropertyWrite>, choices: Seq<ChoiceFact>,
    rules: Seq<RuleFact>) -> bool {
    &&& forall|c: int, k: int| 0 <= c < choices.len() && 0 <= k < choices[c].condition_reads@.len()
        ==> reads[#[trigger] choices[c].condition_reads@[k] as int].site == FactSite::Choice(choices[c].choice_id)
    &&& forall|c: int, k: int| 0 <= c < choices.len() && 0 <= k < choices[c].effect_writes@.len()
        ==> writes[#[trigger] choices[c].effect_writes@[k] as int].site == FactSite::Choice(choices[c].choice_id)
    &&& forall|c: int, k: int| 0 <= c < rules.len() && 0 <= k < rules[c].condition_reads@.len()
        ==> reads[#[trigger] rules[c].condition_reads@[k] as int].site == FactSite::Rule(rules[c].rule_id)
    &&& forall|c: int, k: int| 0 <= c < rules.len() && 0 <= k < rules[c].effect_writes@.len()
        ==> writes[#[trigger] rules[c].effect_writes@[k] as int].site == FactSite::Rule(rules[c].rule_id)
}

/// The builder's choices and rules point at reads and writes made there.
pub open spec fn sites_consistent(b: FactSetBuilder) -> bool {
    sites_ok(b.spec_reads(), b.spec_writes(), b.spec_choices(), b.spec_rules())
}

/// Each exit's guard reads point at reads made at that exit.
pub open spec fn guards_ok(reads: Seq<PropertyRead>, exits: Seq<ExitEdge>) -> bool {
    forall|e: int, k: int| 0 <= e < exits.len() && 0 <= k < exits[e].guard_reads@.len()
        ==> (reads[#[trigger] exits[e].guard_reads@[k] as int].site matches FactSite::Exit(x)
            && x@ == exits[e].id_view())
}

/// Appending reads keeps the exits' guards pointing where they did.
proof fn lemma_guards_kept(a: FactSetBuilder, b: FactSetBuilder)
    requires
        a.wf(),
        guards_ok(a.spec_reads(), a.spec_exits()),
        grows(a, b),
        b.spec_exits() == a.spec_exits(),
    ensures
        guards_ok(b.spec_reads(), b.spec_exits()),
{
    assert forall|e: int, k: int| 0 <= e < b.spec_exits().len() && 0 <= k < b.spec_exits()[e].guard_reads@.len()
        implies (b.spec_reads()[#[trigger] b.spec_exits()[e].guard_reads@[k] as int].site matches FactSite::Exit(x)
            && x@ == b.spec_exits()[e].id_view()) by {
        let x = a.spec_exits()[e].guard_reads@[k] as int;
        assert(indices_below_at(a.spec_exits()[e].guard_reads@, k, a.spec_reads().len() as int));
        assert(b.spec_reads()[x] == b.spec_reads().take(a.spec_reads().len() as int)[x]);
    }
}

/// Appending facts keeps the old choices and rules consistent.
proof fn lemma_consistent_kept(a: FactSetBuilder, b: FactSetBuilder)
    requires
        a.wf(),
        sites_consistent(a),
        grows(a, b),
        b.spec_choices().len() == a.spec_choices().len(),
        b.spec_rules().len() == a.spec_rules().len(),
    ensures
        sites_consistent(b),
{
    assert forall|c: int, k: int| 0 <= c < b.spec_choices().len() && 0 <= k < b.spec_choices()[c].condition_reads@.len()
        implies b.spec_reads()[#[trigger] b.spec_choices()[c].condition_reads@[k] as int].site
            == FactSite::Choice(b.spec_choices()[c].choice_id) by {
        assert(b.spec_choices()[c] == b.spec_choices().take(a.spec_choices().len() as int)[c]);
        let x = a.spec_choices()[c].condition_reads@[k] as int;
        assert(indices_below_at(a.spec_choices()[c].condition_reads@, k, a.spec_reads().len() as int));
        assert(b.spec_reads()[x] == b.spec_reads().take(a.spec_reads().len() as int)[x]);
    }
    assert forall|c: int, k: int| 0 <= c < b.spec_choices().len() && 0 <= k < b.spec_choices()[c].effect_writes@.len()
        implies b.spec_writes()[#[trigger] b.spec_choices()[c].effect_writes@[k] as int].site
            == FactSite::Choice(b.spec_choices()[c].choice_id) by {
        assert(b.spec_choices()[c] == b.spec_choices().take(a.spec_choices().len() as int)[c]);
        let x = a.spec_choices()[c].effect_writes@[k] as int;
        assert(indices_below_at(a.spec_choices()[c].effect_writes@, k, a.spec_writes().len() as int));
        assert(b.spec_writes()[x] == b.spec_writes().take(a.spec_writes().len() as int)[x]);
    }
    assert forall|c: int, k: int| 0 <= c < b.spec_rules().len() && 0 <= k < b.spec_rules()[c].condition_reads@.len()
        implies b.spec_reads()[#[trigger] b.spec_rules()[c].condition_reads@[k] as int].site
            == FactSite::Rule(b.spec_rules()[c].rule_id) by {
        assert(b.spec_rules()[c] == b.spec_rules().take(a.spec_rules().len() as int)[c]);
        let x = a.spec_rules()[c].condition_reads@[k] as int;
        assert(indices_below_at(a.spec_rules()[c].condition_reads@, k, a.spec_reads().len() as int));
        assert(b.spec_reads()[x] == b.spec_reads().take(a.spec_reads().len() as int)[x]);
    }
    assert forall|c: int, k: int| 0 <= c < b.spec_rules().len() && 0 <= k < b.spec_rules()[c].effect_writes@.len()
        implies b.spec_writes()[#[trigger] b.spec_rules()[c].effect_writes@[k] as int].site
            == FactSite::Rule(b.spec_rules()[c].rule_id) by {
        assert(b.spec_rules()[c] == b.spec_rules().take(a.spec_rules().len() as int)[c]);
        let x = a.spec_rules()[c].effect_writes@[k] as int;
        assert(indices_below_at(a.spec_rules()[c].effect_writes@, k, a.spec_writes().len() as int));
        assert(b.spec_writes()[x] == b.spec_writes().take(a.spec_writes().len() as int)[x]);
    }
}

spec fn indices_below_at(v: Seq<usize>, k: int, n: int) -> bool {
    (v[k] as int) < n
}

/// Every index of `acc` points at a read made at `site`.
pub open spec fn reads_point_at(acc: Seq<usize>, reads: Seq<PropertyRead>, site: FactSite) -> bool {
    forall|k: int| 0 <= k < acc.len() ==> (#[trigger] acc[k] as int) < reads.len() && reads[acc[k] as int].site == site
}

/// Every index of `acc` points at a write made at `site`.
pub open spec fn writes_point_at(acc: Seq<usize>, writes: Seq<PropertyWrite>, site: FactSite) -> bool {
    forall|k: int| 0 <= k < acc.len() ==> (#[trigger] acc[k] as int) < writes.len() && writes[acc[k] as int].site == site
}

proof fn lemma_reads_point_grow(acc0: Seq<usize>, acc1: Seq<usize>, a: FactSetBuilder, b: FactSetBuilder, site: FactSite)
    requires
        reads_point_at(acc0, a.spec_reads(), site),
        grows(a, b),
        appends_range(acc1, acc0, a.spec_reads().len() as int, b.spec_reads().len() as int),
        reads_at_site(b.spec_reads(), a.spec_reads().len() as int, site),
    ensures
        reads_point_at(acc1, b.spec_reads(), site),
{
    assert forall|k: int| 0 <= k < acc1.len() implies (#[trigger] acc1[k] as int) < b.spec_reads().len()
        && b.spec_reads()[acc1[k] as int].site == site by {
        if k < acc0.len() {
            assert(acc1[k] == acc0[k]);
            assert(b.spec_reads()[acc0[k] as int] == b.spec_reads().take(a.spec_reads().len() as int)[acc0[k] as int]);
        }
    }
}

proof fn lemma_writes_point_grow(acc0: Seq<usize>, acc1: Seq<usize>, a: FactSetBuilder, b: FactSetBuilder, site: FactSite)
    requires
        writes_point_at(acc0, a.spec_writes(), site),
        grows(a, b),
        appends_range(acc1, acc0, a.spec_writes().len() as int, b.spec_writes().len() as int),
        writes_at_site(b.spec_writes(), a.spec_writes().len() as int, site),
    ensures
        writes_point_at(acc1, b.spec_writes(), site),
{
    assert forall|k: int| 0 <= k < acc1.len() implies (#[trigger] acc1[k] as int) < b.spec_writes().len()
        && b.spec_writes()[acc1[k] as int].site == site by {
        if k < acc0.len() {
            assert(acc1[k] == acc0[k]);
            assert(b.spec_writes()[acc0[k] as int] == b.spec_writes().take(a.spec_writes().len() as int)[acc0[k] as int]);
        }
    }
}

/// The compiled ID of the first choice with this label and stickiness.
pub open spec fn choice_id_in(cs: Seq<crate::link::ChoiceV>, label: Seq<char>, sticky: bool) -> Option<Seq<char>>
    decreases cs.len(),
{
    if cs.len() == 0 {
        None
    } else if cs[0].0 == label && cs[0].2 == sticky {
        Some(cs[0].1)
    } else {
        choice_id_in(cs.drop_first(), label, sticky)
    }
}

/// The compiled ID of a choice of a section, looked up in the symbol table.
pub open spec fn choice_compiled_id(table: SymbolTable, section: Seq<char>, label: Seq<char>, sticky: bool) -> Option<Seq<char>> {
    match crate::link::key_index(crate::link::section_symbol_entries(table.sections), section) {
        Some(i) => choice_id_in(crate::link::section_symbol_entries(table.sections)[i].1.3, label, sticky),
        None => None,
    }
}

fn find_choice_id(sec: &crate::symbol_table::SectionSymbol, label: &str, sticky: bool) -> (r: Option<String>)
    ensures
        crate::ast::opt_view(r) == choice_id_in(crate::link::section_view(*sec).3, label@, sticky),
{
    let ghost cs = crate::link::section_view(*sec).3;
    assert(cs.skip(0) =~= cs);
    let mut i: usize = 0;
    while i < sec.choices.len()
        invariant
            i <= sec.choices.len(),
            cs == crate::link::section_view(*sec).3,
            cs.len() == sec.choices@.len(),
            choice_id_in(cs, label@, sticky) == choice_id_in(cs.skip(i as int), label@, sticky),
        decreases sec.choices.len() - i,
    {
        proof {
            assert(cs.skip(i as int)[0] == cs[i as int]);
            assert(cs.skip(i as int).drop_first() =~= cs.skip(i + 1));
        }
        if crate::text::str_equals(sec.choices[i].label.as_str(), label) && sec.choices[i].sticky == sticky {
            return Some(sec.choices[i].compiled_id.clone());
        }
        i += 1;
    }
    proof { assert(cs.skip(i as int).len() == 0); }
    None
}

/// Record a choice in the current section: the reads of its conditions,
/// the writes of its effects, its nested choices and jumps, then the
/// choice itself.
pub fn extract_choice(
    choice: &crate::ast::Choice,
    builder: &mut FactSetBuilder,
    table: &SymbolTable,
    current_section: &Option<String>,
)
    requires
        old(builder).wf(),
    ensures
        grows(*old(builder), *final(builder)),
        final(builder).spec_exits() == old(builder).spec_exits(),
        final(builder).spec_rules() == old(builder).spec_rules(),
        sites_consistent(*old(builder)) ==> sites_consistent(*final(builder)),
        jump_views(final(builder).spec_jumps()) == jump_views(old(builder).spec_jumps())
            + choice_out(*choice, crate::ast::opt_view(*current_section), *table, exit_ids(old(builder).spec_exits())).0,
        choice_views(final(builder).spec_choices()) == choice_views(old(builder).spec_choices())
            + choice_out(*choice, crate::ast::opt_view(*current_section), *table, exit_ids(old(builder).spec_exits())).1,
        read_views(final(builder).spec_reads()) == read_views(old(builder).spec_reads())
            + choice_rw(*choice, crate::ast::opt_view(*current_section), *table).0,
        write_views(final(builder).spec_writes()) == write_views(old(builder).spec_writes())
            + choice_rw(*choice, crate::ast::opt_view(*current_section), *table).1,
        match *current_section {
            None => *final(builder) == *old(builder),
            Some(s) => match choice_compiled_id(*table, s@, choice.label@, choice.sticky) {
                None => *final(builder) == *old(builder),
                Some(id) => {
                    &&& final(builder).spec_choices().len() > old(builder).spec_choices().len()
                    &&& final(builder).spec_choices().last().choice_id@ == id
                    &&& final(builder).spec_choices().last().section@ == s@
                    &&& final(builder).spec_choices().last().label@ == choice.label@
                    &&& final(builder).spec_choices().last().sticky == choice.sticky
                    &&& final(builder).spec_choices().last().span == choice.span
                },
            },
        },
    decreases choice.content@,
{
    proof { lemma_grows_refl(*builder); }
    let section_id = match current_section {
        Some(id) => id.clone(),
        None => return,
    };
    let choice_id = match crate::link::section_symbol_get(&table.sections, section_id.as_str()) {
        Some(sec) => match find_choice_id(sec, choice.label.as_str(), choice.sticky) {
            Some(id) => id,
            None => return,
        },
        None => return,
    };
    let site = FactSite::Choice(choice_id.clone());
    let mut condition_reads: Vec<usize> = Vec::new();
    let mut effect_writes: Vec<usize> = Vec::new();
    let ghost b0 = *builder;
    let ghost sec = crate::ast::opt_view(*current_section);
    let ghost ex = exit_ids(b0.spec_exits());
    let ghost sid = section_id@;
    let ghost cid = choice_id@;
    assert(choice_compiled_id(*table, sid, choice.label@, choice.sticky) == Some(cid));
    assert(sec == Some(sid));
    let ghost sv = SiteV::Choice(cid);
    assert(site_view(site) == sv);
    proof {
        assert(read_views(b0.spec_reads()) + inner_seq_rw(choice.content@.subrange(0, 0), sv, sec, *table).0
            =~= read_views(b0.spec_reads()));
        assert(write_views(b0.spec_writes()) + inner_seq_rw(choice.content@.subrange(0, 0), sv, sec, *table).1
            =~= write_views(b0.spec_writes()));
        assert(choice.content@.subrange(0, 0) =~= Seq::<ContentNode>::empty());
        assert(jump_views(b0.spec_jumps()) + content_out(choice.content@.subrange(0, 0), sec, *table, ex).0
            =~= jump_views(b0.spec_jumps()));
        assert(choice_views(b0.spec_choices()) + content_out(choice.content@.subrange(0, 0), sec, *table, ex).1
            =~= choice_views(b0.spec_choices()));
    }
    let mut i: usize = 0;
    while i < choice.content.len()
        invariant
            i <= choice.content.len(),
            sec == crate::ast::opt_view(*current_section),
            ex == exit_ids(b0.spec_exits()),
            sv == site_view(site),
            read_views(builder.spec_reads()) == read_views(b0.spec_reads())
                + inner_seq_rw(choice.content@.subrange(0, i as int), sv, sec, *table).0,
            write_views(builder.spec_writes()) == write_views(b0.spec_writes())
                + inner_seq_rw(choice.content@.subrange(0, i as int), sv, sec, *table).1,
            jump_views(builder.spec_jumps()) == jump_views(b0.spec_jumps())
                + content_out(choice.content@.subrange(0, i as int), sec, *table, ex).0,
            choice_views(builder.spec_choices()) == choice_views(b0.spec_choices())
                + content_out(choice.content@.subrange(0, i as int), sec, *table, ex).1,
            b0.wf(),
            grows(b0, *builder),
            builder.spec_exits() == b0.spec_exits(),
            builder.spec_rules() == b0.spec_rules(),
            sites_consistent(b0) ==> sites_consistent(*builder),
            reads_point_at(condition_reads@, builder.spec_reads(), site),
            writes_point_at(effect_writes@, builder.spec_writes(), site),
        decreases choice.content.len() - i,
    {
        let ghost b1 = *builder;
        let ghost c1 = condition_reads@;
        let ghost e1 = effect_writes@;
        proof { lemma_grows_refl(b1); }
        match &choice.content[i] {
            ContentNode::Condition(cond) => {
                extract_expr_read(&cond.expr, &site, table, builder, &mut condition_reads);
                proof { lemma_reads_point_grow(c1, condition_reads@, b1, *builder, site); }
            },
            ContentNode::OrConditionBlock(or_block) => {
                extract_expr_reads(&or_block.conditions, &site, table, builder, &mut condition_reads);
                proof { lemma_reads_point_grow(c1, condition_reads@, b1, *builder, site); }
            },
            ContentNode::Effect(effect) => {
                match extract_property_write(effect, &site, table, builder) {
                    Some(idx) => {
                        effect_writes.push(idx);
                        assert(effect_writes@ == e1.push(idx));
                    },
                    None => {},
                }
                proof { lemma_writes_point_grow(e1, effect_writes@, b1, *builder, site); }
            },
            ContentNode::Choice(nested) => {
                proof {
                    assert(decreases_to!(choice.content@ => choice.content@[i as int]));
                    assert(decreases_to!(choice.content@[i as int] => nested.content@));
                }
                extract_choice(nested, builder, table, current_section);
                proof {
                    lemma_reads_point_kept(c1, b1, *builder, site);
                    lemma_writes_point_kept(e1, b1, *builder, site);
                }
            },
            ContentNode::Jump(jump) => {
                extract_jump(jump, builder, current_section);
            },
            _ => {},
        }
        proof {
            lemma_grows_trans(b0, b1, *builder);
            if sites_consistent(b0) {
                if builder.spec_choices().len() == b1.spec_choices().len() {
                    lemma_consistent_kept(b1, *builder);
                }
            }
            let c = choice.content@;
            let q = node_out(c[i as int], sec, *table, ex);
            assert(c.subrange(0, i + 1).subrange(0, i as int) =~= c.subrange(0, i as int));
            assert(c.subrange(0, i + 1)[i as int] == c[i as int]);
            assert(jump_views(builder.spec_jumps()) == jump_views(b1.spec_jumps()) + q.0);
            assert(choice_views(builder.spec_choices()) == choice_views(b1.spec_choices()) + q.1);
            assert(jump_views(b0.spec_jumps()) + content_out(c.subrange(0, i + 1), sec, *table, ex).0
                =~= jump_views(b0.spec_jumps()) + content_out(c.subrange(0, i as int), sec, *table, ex).0 + q.0);
            assert(choice_views(b0.spec_choices()) + content_out(c.subrange(0, i + 1), sec, *table, ex).1
                =~= choice_views(b0.spec_choices()) + content_out(c.subrange(0, i as int), sec, *table, ex).1 + q.1);
            let w = inner_rw(c[i as int], sv, sec, *table);
            assert(read_views(builder.spec_reads()) == read_views(b1.spec_reads()) + w.0);
            assert(write_views(builder.spec_writes()) == write_views(b1.spec_writes()) + w.1);
            assert(read_views(b0.spec_reads()) + inner_seq_rw(c.subrange(0, i + 1), sv, sec, *table).0
                =~= read_views(b0.spec_reads()) + inner_seq_rw(c.subrange(0, i as int), sv, sec, *table).0 + w.0);
            assert(write_views(b0.spec_writes()) + inner_seq_rw(c.subrange(0, i + 1), sv, sec, *table).1
                =~= write_views(b0.spec_writes()) + inner_seq_rw(c.subrange(0, i as int), sv, sec, *table).1 + w.1);
        }
        i += 1;
    }
    let ghost b4 = *builder;
    let ghost cr = condition_reads@;
    let ghost ew = effect_writes@;
    proof {
        assert forall|k: int| 0 <= k < condition_reads@.len() implies (#[trigger] condition_reads@[k] as int) < builder.spec_reads().len() by {}
        assert forall|k: int| 0 <= k < effect_writes@.len() implies (#[trigger] effect_writes@[k] as int) < builder.spec_writes().len() by {}
    }
    builder.push_choice(ChoiceFact {
        section: section_id,
        choice_id,
        label: choice.label.clone(),
        sticky: choice.sticky,
        condition_reads,
        effect_writes,
        span: choice.span.clone(),
    });
    proof {
        let c = choice.content@;
        assert(c.subrange(0, c.len() as int) =~= c);
        assert(choice_rw(*choice, sec, *table) == inner_seq_rw(c, sv, sec, *table));
        let inner = content_out(c, sec, *table, ex);
        assert(choice_out(*choice, sec, *table, ex) == (inner.0, inner.1.push((sid, cid, choice.label@, choice.sticky,
            crate::span::span_view(choice.span)))));
        assert(choice_views(builder.spec_choices()) =~= choice_views(b4.spec_choices()).push((sid, cid, choice.label@,
            choice.sticky, crate::span::span_view(choice.span))));
        assert(choice_views(b0.spec_choices()) + inner.1.push((sid, cid, choice.label@, choice.sticky,
            crate::span::span_view(choice.span))) =~= (choice_views(b0.spec_choices()) + inner.1).push((sid, cid,
            choice.label@, choice.sticky, crate::span::span_view(choice.span))));
    }
    proof {
        assert(builder.spec_choices().take(b4.spec_choices().len() as int) =~= b4.spec_choices());
        lemma_grows_refl(b4);
        assert(grows(b4, *builder));
        lemma_grows_trans(b0, b4, *builder);
        if sites_consistent(b0) {
            let n = b4.spec_choices().len() as int;
            assert forall|c: int, k: int| 0 <= c < builder.spec_choices().len() && 0 <= k < builder.spec_choices()[c].condition_reads@.len()
                implies builder.spec_reads()[#[trigger] builder.spec_choices()[c].condition_reads@[k] as int].site
                    == FactSite::Choice(builder.spec_choices()[c].choice_id) by {
                if c < n {
                    assert(builder.spec_choices()[c] == b4.spec_choices()[c]);
                } else {
                    assert(builder.spec_choices()[c] == builder.spec_choices().last());
                    assert(builder.spec_choices()[c].condition_reads@ == cr);
                    assert(b4.spec_reads()[cr[k] as int].site == site);
                }
            }
            assert forall|c: int, k: int| 0 <= c < builder.spec_choices().len() && 0 <= k < builder.spec_choices()[c].effect_writes@.len()
                implies builder.spec_writes()[#[trigger] builder.spec_choices()[c].effect_writes@[k] as int].site
                    == FactSite::Choice(builder.spec_choices()[c].choice_id) by {
                if c < n {
                    assert(builder.spec_choices()[c] == b4.spec_choices()[c]);
                    assert(b4.spec_writes()[b4.spec_choices()[c].effect_writes@[k] as int].site
                        == FactSite::Choice(b4.spec_choices()[c].choice_id));
                    assert(builder.spec_writes() == b4.spec_writes());
                } else {
                    assert(builder.spec_choices()[c] == builder.spec_choices().last());
                    assert(builder.spec_choices()[c].effect_writes@ == ew);
                    assert(b4.spec_writes()[ew[k] as int].site == site);
                }
            }
        }
    }
}

proof fn lemma_reads_point_kept(acc: Seq<usize>, a: FactSetBuilder, b: FactSetBuilder, site: FactSite)
    requires
        reads_point_at(acc, a.spec_reads(), site),
        grows(a, b),
    ensures
        reads_point_at(acc, b.spec_reads(), site),
{
    assert forall|k: int| 0 <= k < acc.len() implies (#[trigger] acc[k] as int) < b.spec_reads().len()
        && b.spec_reads()[acc[k] as int].site == site by {
        assert(b.spec_reads()[acc[k] as int] == b.spec_reads().take(a.spec_reads().len() as int)[acc[k] as int]);
    }
}

proof fn lemma_writes_point_kept(acc: Seq<usize>, a: FactSetBuilder, b: FactSetBuilder, site: FactSite)
    requires
        writes_point_at(acc, a.spec_writes(), site),
        grows(a, b),
    ensures
        writes_point_at(acc, b.spec_writes(), site),
{
    assert forall|k: int| 0 <= k < acc.len() implies (#[trigger] acc[k] as int) < b.spec_writes().len()
        && b.spec_writes()[acc[k] as int].site == site by {
        assert(b.spec_writes()[acc[k] as int] == b.spec_writes().take(a.spec_writes().len() as int)[acc[k] as int]);
    }
}

/// A rule fact by its texts: rule ID and span.
pub open spec fn rule_views(rules: Seq<RuleFact>) -> Seq<(Seq<char>, crate::span::SpanV)> {
    rules.map_values(|r: RuleFact| (r.rule_id@, crate::span::span_view(r.span)))
}

/// The rule a top-level node records, if it is a rule block.
pub open spec fn node_rules(n: ContentNode) -> Seq<(Seq<char>, crate::span::SpanV)> {
    match n {
        ContentNode::RuleBlock(rb) => seq![(rb.name@, crate::span::span_view(rb.span))],
        _ => Seq::empty(),
    }
}

/// The rules a file's top-level content records, in order.
pub open spec fn content_rules(nodes: Seq<ContentNode>) -> Seq<(Seq<char>, crate::span::SpanV)>
    decreases nodes.len(),
{
    if nodes.len() == 0 {
        Seq::empty()
    } else {
        content_rules(nodes.drop_last()) + node_rules(nodes.last())
    }
}

/// The rules the files record, file by file.
pub open spec fn files_rules(files: Seq<crate::graph::FileNode>) -> Seq<(Seq<char>, crate::span::SpanV)>
    decreases files.len(),
{
    if files.len() == 0 {
        Seq::empty()
    } else {
        files_rules(files.drop_last()) + content_rules(files.last().ast.content@)
    }
}

/// The section a file's walk stands in after the nodes `ns`: set by each
/// section label, none before the first.
pub open spec fn sec_after(ns: Seq<ContentNode>, stem: Seq<char>, table: SymbolTable) -> Option<Seq<char>>
    decreases ns.len(),
{
    if ns.len() == 0 {
        None
    } else {
        match ns.last() {
            ContentNode::SectionLabel(sl) => label_section(table, stem, sl.name@),
            _ => sec_after(ns.drop_last(), stem, table),
        }
    }
}

/// The location a file's walk stands in after the nodes `ns`: set by each
/// location heading, none before the first.
pub open spec fn loc_after(ns: Seq<ContentNode>, table: SymbolTable) -> Option<Seq<char>>
    decreases ns.len(),
{
    if ns.len() == 0 {
        None
    } else {
        match ns.last() {
            ContentNode::LocationHeading(lh) => heading_location(table, lh.display_name@),
            _ => loc_after(ns.drop_last(), table),
        }
    }
}

/// The reads and writes of a file's top-level content.
pub open spec fn top_seq_rw(ns: Seq<ContentNode>, stem: Seq<char>, table: SymbolTable) -> (Seq<ReadV>, Seq<WriteV>)
    decreases ns.len(),
{
    if ns.len() == 0 {
        (Seq::empty(), Seq::empty())
    } else {
        let p = top_seq_rw(ns.drop_last(), stem, table);
        let q = top_rw(ns.last(), loc_after(ns.drop_last(), table), sec_after(ns.drop_last(), stem, table), table);
        (p.0 + q.0, p.1 + q.1)
    }
}

/// The reads and writes of the files, file by file.
pub open spec fn files_rw(files: Seq<crate::graph::FileNode>, table: SymbolTable) -> (Seq<ReadV>, Seq<WriteV>)
    decreases files.len(),
{
    if files.len() == 0 {
        (Seq::empty(), Seq::empty())
    } else {
        let p = files_rw(files.drop_last(), table);
        let f = files.last();
        let q = top_seq_rw(f.ast.content@, crate::graph::file_stem_of(f.path@), table);
        (p.0 + q.0, p.1 + q.1)
    }
}

/// The jump and choice facts of a file's top-level content.
pub open spec fn top_out(ns: Seq<ContentNode>, stem: Seq<char>, table: SymbolTable, ids: Seq<Seq<char>>)
    -> (Seq<JumpV>, Seq<ChoiceFactV>)
    decreases ns.len(),
{
    if ns.len() == 0 {
        (Seq::empty(), Seq::empty())
    } else {
        let p = top_out(ns.drop_last(), stem, table, ids);
        let q = node_out(ns.last(), sec_after(ns.drop_last(), stem, table), table, ids);
        (p.0 + q.0, p.1 + q.1)
    }
}

/// The jump and choice facts of the files, file by file.
pub open spec fn files_out(files: Seq<crate::graph::FileNode>, table: SymbolTable, ids: Seq<Seq<char>>)
    -> (Seq<JumpV>, Seq<ChoiceFactV>)
    decreases files.len(),
{
    if files.len() == 0 {
        (Seq::empty(), Seq::empty())
    } else {
        let p = files_out(files.drop_last(), table, ids);
        let f = files.last();
        let q = top_out(f.ast.content@, crate::graph::file_stem_of(f.path@), table, ids);
        (p.0 + q.0, p.1 + q.1)
    }
}

/// The location a heading names, when the symbol table has it.
pub open spec fn heading_location(table: SymbolTable, display_name: Seq<char>) -> Option<Seq<char>> {
    let slug = crate::slugify::spec_slugify(display_name);
    if crate::link::key_index(crate::link::location_entries(table.locations), slug) is Some {
        Some(slug)
    } else {
        None
    }
}

/// The compiled ID of the section a label names in the file with this
/// stem, when the symbol table has it.
pub open spec fn label_section(table: SymbolTable, file_stem: Seq<char>, name: Seq<char>) -> Option<Seq<char>> {
    let key = file_stem + "/"@ + name;
    match crate::link::key_index(crate::link::section_symbol_entries(table.sections), key) {
        Some(i) => Some(crate::link::section_symbol_entries(table.sections)[i].1.1),
        None => None,
    }
}

/// Record the facts of a top-level content node, and follow the current
/// location and section.
pub fn extract_top_level_node(
    node: &ContentNode,
    builder: &mut FactSetBuilder,
    table: &SymbolTable,
    file_stem: &str,
    current_location: &mut Option<String>,
    current_section: &mut Option<String>,
)
    requires
        old(builder).wf(),
    ensures
        grows(*old(builder), *final(builder)),
        sites_consistent(*old(builder)) ==> sites_consistent(*final(builder)),
        guards_ok(old(builder).spec_reads(), old(builder).spec_exits())
            ==> guards_ok(final(builder).spec_reads(), final(builder).spec_exits()),
        rule_views(final(builder).spec_rules()) == rule_views(old(builder).spec_rules()) + node_rules(*node),
        jump_views(final(builder).spec_jumps()) == jump_views(old(builder).spec_jumps())
            + node_out(*node, crate::ast::opt_view(*old(current_section)), *table, exit_ids(old(builder).spec_exits())).0,
        choice_views(final(builder).spec_choices()) == choice_views(old(builder).spec_choices())
            + node_out(*node, crate::ast::opt_view(*old(current_section)), *table, exit_ids(old(builder).spec_exits())).1,
        read_views(final(builder).spec_reads()) == read_views(old(builder).spec_reads())
            + top_rw(*node, crate::ast::opt_view(*old(current_location)), crate::ast::opt_view(*old(current_section)), *table).0,
        write_views(final(builder).spec_writes()) == write_views(old(builder).spec_writes())
            + top_rw(*node, crate::ast::opt_view(*old(current_location)), crate::ast::opt_view(*old(current_section)), *table).1,
        match *node {
            ContentNode::LocationHeading(lh) => {
                &&& crate::ast::opt_view(*final(current_location)) == heading_location(*table, lh.display_name@)
                &&& *final(current_section) == *old(current_section)
                &&& *final(builder) == *old(builder)
            },
            ContentNode::SectionLabel(sl) => {
                &&& crate::ast::opt_view(*final(current_section)) == label_section(*table, file_stem@, sl.name@)
                &&& *final(current_location) == *old(current_location)
                &&& *final(builder) == *old(builder)
            },
            _ => {
                &&& *final(current_location) == *old(current_location)
                &&& *final(current_section) == *old(current_section)
            },
        },
{
    proof { lemma_grows_refl(*builder); reveal_strlit("/"); }
    let ghost b0 = *builder;
    match node {
        ContentNode::LocationHeading(lh) => {
            let slug = crate::slugify::slugify(lh.display_name.as_str());
            if crate::link::location_get(&table.locations, slug.as_str()).is_some() {
                *current_location = Some(slug);
            } else {
                *current_location = None;
            }
        },
        ContentNode::SectionLabel(sl) => {
            let mut k = crate::text::chars_of(file_stem);
            crate::text::push_str(&mut k, "/");
            let n = crate::text::chars_of(sl.name.as_str());
            crate::text::push_chars(&mut k, &n);
            let key = crate::text::string_from_chars(k);
            match crate::link::section_symbol_get(&table.sections, key.as_str()) {
                Some(sec) => {
                    *current_section = Some(sec.compiled_id.clone());
                },
                None => {
                    *current_section = None;
                },
            }
        },
        ContentNode::Choice(choice) => {
            extract_choice(choice, builder, table, current_section);
            proof {
                if guards_ok(b0.spec_reads(), b0.spec_exits()) { lemma_guards_kept(b0, *builder); }
            }
        },
        ContentNode::Jump(jump) => {
            extract_jump(jump, builder, current_section);
        },
        ContentNode::ExitDeclaration(exit_decl) => {
            extract_exit_guards(exit_decl, builder, table, current_location);
            proof {
                if sites_consistent(b0) {
                    lemma_consistent_kept(b0, *builder);
                }
            }
        },
        ContentNode::RuleBlock(rule_block) => {
            extract_rule(rule_block, builder, table);
            proof {
                if guards_ok(b0.spec_reads(), b0.spec_exits()) { lemma_guards_kept(b0, *builder); }
                assert(builder.spec_rules().drop_last() == builder.spec_rules().take(b0.spec_rules().len() as int));
                assert(rule_views(builder.spec_rules()) =~= rule_views(b0.spec_rules()) + node_rules(*node));
            }
        },
        _ => {},
    }
    proof {
        if !(node is RuleBlock) {
            assert(rule_views(builder.spec_rules()) =~= rule_views(b0.spec_rules()) + node_rules(*node));
        }
        let tr = top_rw(*node, crate::ast::opt_view(*old(current_location)), crate::ast::opt_view(*old(current_section)), *table);
        if !(node is Choice) && !(node is RuleBlock) && !(node is ExitDeclaration) {
            assert(read_views(builder.spec_reads()) =~= read_views(b0.spec_reads()) + tr.0);
            assert(write_views(builder.spec_writes()) =~= write_views(b0.spec_writes()) + tr.1);
        }
        if node is ExitDeclaration && (*old(current_location)) is None {
            assert(read_views(builder.spec_reads()) =~= read_views(b0.spec_reads()) + tr.0);
        }
        if node is ExitDeclaration {
            assert(write_views(builder.spec_writes()) =~= write_views(b0.spec_writes()) + tr.1);
        }
        if !(node is Choice) && !(node is Jump) {
            assert(jump_views(builder.spec_jumps()) =~= jump_views(b0.spec_jumps())
                + node_out(*node, crate::ast::opt_view(*old(current_section)), *table, exit_ids(b0.spec_exits())).0);
            assert(choice_views(builder.spec_choices()) =~= choice_views(b0.spec_choices())
                + node_out(*node, crate::ast::opt_view(*old(current_section)), *table, exit_ids(b0.spec_exits())).1);
        }
    }
}

/// An exit edge by its texts: from, to, exit name, whether it is
/// guarded, span.
pub type EdgeV = (Seq<char>, Seq<char>, Seq<char>, bool, crate::span::SpanV);

pub open spec fn edge_of(e: ExitEdge) -> EdgeV {
    (e.from_location@, e.to_location@, e.exit_name@, e.is_conditional, crate::span::span_view(e.span))
}

pub open spec fn edges_of(s: Seq<ExitEdge>) -> Seq<EdgeV> {
    s.map_values(|e: ExitEdge| edge_of(e))
}

/// The edges of a location's exits that have a resolved destination, in
/// order.
pub open spec fn loc_edges(id: Seq<char>, xs: Seq<crate::link::ExitV>, rest: Seq<crate::link::ExitRest>) -> Seq<EdgeV>
    decreases xs.len(),
{
    if xs.len() == 0 {
        Seq::empty()
    } else {
        let k = xs.len() - 1;
        loc_edges(id, xs.drop_last(), rest) + match xs[k].1 {
            Some(d) => seq![(id, d, xs[k].0, rest[k].1 is Some, rest[k].3)],
            None => Seq::empty(),
        }
    }
}

/// The edges of all locations' exits, the locations in the order of the
/// namespace.
pub open spec fn table_edges(entries: Seq<(Seq<char>, crate::link::LocationV)>) -> Seq<EdgeV>
    decreases entries.len(),
{
    if entries.len() == 0 {
        Seq::empty()
    } else {
        let l = entries[entries.len() - 1];
        table_edges(entries.drop_last()) + loc_edges(l.0, l.1.1, l.1.6)
    }
}

proof fn lemma_edges_kept(a: Seq<ExitEdge>, b: Seq<ExitEdge>)
    requires
        exits_kept(a, b),
    ensures
        edges_of(a) == edges_of(b),
{
    assert forall|i: int| 0 <= i < a.len() implies edges_of(a)[i] == edges_of(b)[i] by {
        assert(b[i] == b[i]);
    }
    assert(edges_of(a) =~= edges_of(b));
}

/// What `extract_facts` states of the fact set it extracts from the files
/// and the symbol table.
pub open spec fn extracted(fs: FactSet, files: Seq<crate::graph::FileNode>, table: SymbolTable) -> bool {
    &&& fs.wf()
    &&& sites_ok(fs.spec_reads(), fs.spec_writes(), fs.spec_choices(), fs.spec_rules())
    &&& guards_ok(fs.spec_reads(), fs.spec_exits())
    &&& rule_views(fs.spec_rules()) == files_rules(files)
    &&& jump_views(fs.spec_jumps()) == files_out(files, table, exit_ids(fs.spec_exits())).0
    &&& choice_views(fs.spec_choices()) == files_out(files, table, exit_ids(fs.spec_exits())).1
    &&& read_views(fs.spec_reads()) == files_rw(files, table).0
    &&& write_views(fs.spec_writes()) == files_rw(files, table).1
    &&& edges_of(fs.spec_exits()) == table_edges(crate::link::location_entries(table.locations))
}

/// Extract the analysis facts of the resolved world: the resolved exits of
/// the symbol table's locations, in order, then the facts of each file's
/// content, the files in compilation order.
pub fn extract_facts(files: &Vec<crate::graph::FileNode>, table: &SymbolTable) -> (fs: FactSet)
    ensures
        fs.wf(),
        sites_ok(fs.spec_reads(), fs.spec_writes(), fs.spec_choices(), fs.spec_rules()),
        guards_ok(fs.spec_reads(), fs.spec_exits()),
        rule_views(fs.spec_rules()) == files_rules(files@),
        jump_views(fs.spec_jumps()) == files_out(files@, *table, exit_ids(fs.spec_exits())).0,
        choice_views(fs.spec_choices()) == files_out(files@, *table, exit_ids(fs.spec_exits())).1,
        read_views(fs.spec_reads()) == files_rw(files@, *table).0,
        write_views(fs.spec_writes()) == files_rw(files@, *table).1,
        edges_of(fs.spec_exits()) == table_edges(crate::link::location_entries(table.locations)),
{
    let mut builder = FactSetBuilder::new();
    let ghost ents = crate::link::location_entries(table.locations);
    // Phase A: the exits of the symbol table.
    let keys = crate::link::location_keys(&table.locations);
    proof {
        assert(edges_of(builder.spec_exits()) =~= table_edges(ents.take(0)));
        assert(crate::link::keys_of(ents).len() == ents.len());
        assert(crate::ast::strings_view(keys@).len() == keys@.len());
    }
    let mut i: usize = 0;
    while i < keys.len()
        invariant
            i <= keys.len(),
            ents == crate::link::location_entries(table.locations),
            crate::ast::strings_view(keys@) == crate::link::keys_of(ents),
            crate::ast::strings_view(keys@).no_duplicates(),
            keys@.len() == ents.len(),
            builder.wf(),
            builder.spec_reads().len() == 0,
            builder.spec_writes().len() == 0,
            builder.spec_choices().len() == 0,
            builder.spec_rules().len() == 0,
            builder.spec_jumps().len() == 0,
            forall|e: int| 0 <= e < builder.spec_exits().len() ==> (#[trigger] builder.spec_exits()[e]).guard_reads@.len() == 0,
            edges_of(builder.spec_exits()) == table_edges(ents.take(i as int)),
        decreases keys.len() - i,
    {
        proof {
            assert(crate::ast::strings_view(keys@)[i as int] == keys@[i as int]@);
            assert(crate::link::keys_of(ents)[i as int] == ents[i as int].0);
            assert(ents[i as int].0 == keys@[i as int]@);
            assert forall|j: int| 0 <= j < i implies (#[trigger] ents[j]).0 != keys@[i as int]@ by {
                assert(crate::link::keys_of(ents)[j] == ents[j].0);
                assert(crate::ast::strings_view(keys@)[j] == keys@[j]@);
            }
            crate::link::lemma_key_index_first(ents, keys@[i as int]@, i as int);
        }
        let loc = crate::link::location_get(&table.locations, keys[i].as_str()).unwrap();
        let ghost xs = ents[i as int].1.1;
        let ghost rest = ents[i as int].1.6;
        proof { assert(xs.take(0) =~= Seq::<crate::link::ExitV>::empty()); }
        let mut j: usize = 0;
        while j < loc.exits.len()
            invariant
                i < keys.len(),
                j <= loc.exits.len(),
                xs == crate::link::exits_view(loc.exits@),
                rest == loc.exits@.map_values(|x: crate::symbol_table::ExitSymbol| crate::link::exit_rest(x)),
                builder.wf(),
                builder.spec_reads().len() == 0,
                builder.spec_writes().len() == 0,
                builder.spec_choices().len() == 0,
                builder.spec_rules().len() == 0,
                builder.spec_jumps().len() == 0,
                forall|e: int| 0 <= e < builder.spec_exits().len() ==> (#[trigger] builder.spec_exits()[e]).guard_reads@.len() == 0,
                edges_of(builder.spec_exits()) == table_edges(ents.take(i as int)) + loc_edges(keys@[i as int]@, xs.take(j as int), rest),
            decreases loc.exits.len() - j,
        {
            let x = &loc.exits[j];
            let ghost e0 = builder.spec_exits();
            proof {
                assert(xs.take(j + 1).drop_last() =~= xs.take(j as int));
                assert(xs.take(j + 1)[j as int] == crate::link::exit_view(loc.exits@[j as int]));
                assert(rest[j as int] == crate::link::exit_rest(loc.exits@[j as int]));
            }
            match &x.resolved_destination {
                Some(dest) => {
                    let edge = ExitEdge {
                        from_location: keys[i].clone(),
                        to_location: dest.clone(),
                        exit_name: x.direction.clone(),
                        is_conditional: x.condition_node.is_some(),
                        guard_reads: Vec::new(),
                        span: x.declared_in.clone(),
                    };
                    builder.push_exit(edge);
                    proof {
                        assert(edges_of(builder.spec_exits()) =~= edges_of(e0).push(edge_of(builder.spec_exits().last())));
                    }
                },
                None => {
                    proof {
                        assert(loc_edges(keys@[i as int]@, xs.take(j + 1), rest) =~= loc_edges(keys@[i as int]@, xs.take(j as int), rest));
                    }
                },
            }
            j += 1;
        }
        proof {
            assert(xs.take(loc.exits@.len() as int) =~= xs);
            assert(ents.take(i + 1).drop_last() =~= ents.take(i as int));
        }
        i += 1;
    }
    proof {
        assert(ents.take(keys@.len() as int) =~= ents);
        assert(sites_consistent(builder));
        assert(guards_ok(builder.spec_reads(), builder.spec_exits()));
        lemma_grows_refl(builder);
        assert(rule_views(builder.spec_rules()) =~= files_rules(files@.take(0)));
        assert(jump_views(builder.spec_jumps()) =~= files_out(files@.take(0), *table, exit_ids(builder.spec_exits())).0);
        assert(choice_views(builder.spec_choices()) =~= files_out(files@.take(0), *table, exit_ids(builder.spec_exits())).1);
        assert(read_views(builder.spec_reads()) =~= files_rw(files@.take(0), *table).0);
        assert(write_views(builder.spec_writes()) =~= files_rw(files@.take(0), *table).1);
    }
    let ghost ba = builder;
    // Phase B: the content of the files, in compilation order.
    let mut f: usize = 0;
    while f < files.len()
        invariant
            f <= files.len(),
            builder.wf(),
            sites_consistent(builder),
            guards_ok(builder.spec_reads(), builder.spec_exits()),
            grows(ba, builder),
            rule_views(builder.spec_rules()) == files_rules(files@.take(f as int)),
            exit_ids(builder.spec_exits()) == exit_ids(ba.spec_exits()),
            jump_views(builder.spec_jumps()) == files_out(files@.take(f as int), *table, exit_ids(ba.spec_exits())).0,
            choice_views(builder.spec_choices()) == files_out(files@.take(f as int), *table, exit_ids(ba.spec_exits())).1,
            read_views(builder.spec_reads()) == files_rw(files@.take(f as int), *table).0,
            write_views(builder.spec_writes()) == files_rw(files@.take(f as int), *table).1,
        decreases files.len() - f,
    {
        let stem = crate::graph::file_stem(files[f].path.as_str());
        let mut current_location: Option<String> = None;
        let mut current_section: Option<String> = None;
        let mut n: usize = 0;
        proof {
            assert(files@[f as int].ast.content@.take(0) =~= Seq::<ContentNode>::empty());
            assert(files_rules(files@.take(f as int)) + content_rules(Seq::<ContentNode>::empty())
                =~= files_rules(files@.take(f as int)));
            let fo = files_out(files@.take(f as int), *table, exit_ids(ba.spec_exits()));
            assert(fo.0 + top_out(Seq::<ContentNode>::empty(), stem@, *table, exit_ids(ba.spec_exits())).0 =~= fo.0);
            assert(fo.1 + top_out(Seq::<ContentNode>::empty(), stem@, *table, exit_ids(ba.spec_exits())).1 =~= fo.1);
            let fr = files_rw(files@.take(f as int), *table);
            assert(fr.0 + top_seq_rw(Seq::<ContentNode>::empty(), stem@, *table).0 =~= fr.0);
            assert(fr.1 + top_seq_rw(Seq::<ContentNode>::empty(), stem@, *table).1 =~= fr.1);
        }
        while n < files[f].ast.content.len()
            invariant
                f < files.len(),
                n <= files[f as int].ast.content.len(),
                builder.wf(),
                sites_consistent(builder),
                guards_ok(builder.spec_reads(), builder.spec_exits()),
                grows(ba, builder),
                rule_views(builder.spec_rules()) == files_rules(files@.take(f as int))
                    + content_rules(files@[f as int].ast.content@.take(n as int)),
                stem@ == crate::graph::file_stem_of(files@[f as int].path@),
                crate::ast::opt_view(current_section) == sec_after(files@[f as int].ast.content@.take(n as int), stem@, *table),
                crate::ast::opt_view(current_location) == loc_after(files@[f as int].ast.content@.take(n as int), *table),
                read_views(builder.spec_reads()) == files_rw(files@.take(f as int), *table).0
                    + top_seq_rw(files@[f as int].ast.content@.take(n as int), stem@, *table).0,
                write_views(builder.spec_writes()) == files_rw(files@.take(f as int), *table).1
                    + top_seq_rw(files@[f as int].ast.content@.take(n as int), stem@, *table).1,
                exit_ids(builder.spec_exits()) == exit_ids(ba.spec_exits()),
                jump_views(builder.spec_jumps()) == files_out(files@.take(f as int), *table, exit_ids(ba.spec_exits())).0
                    + top_out(files@[f as int].ast.content@.take(n as int), stem@, *table, exit_ids(ba.spec_exits())).0,
                choice_views(builder.spec_choices()) == files_out(files@.take(f as int), *table, exit_ids(ba.spec_exits())).1
                    + top_out(files@[f as int].ast.content@.take(n as int), stem@, *table, exit_ids(ba.spec_exits())).1,
            decreases files[f as int].ast.content.len() - n,
        {
            let ghost b1 = builder;
            extract_top_level_node(&files[f].ast.content[n], &mut builder, table, stem.as_str(),
                &mut current_location, &mut current_section);
            proof {
                lemma_grows_trans(ba, b1, builder);
                let c = files@[f as int].ast.content@;
                assert(c.take(n + 1).drop_last() =~= c.take(n as int));
                assert(c.take(n + 1).last() == c[n as int]);
                let ids = exit_ids(ba.spec_exits());
                assert(exit_ids(builder.spec_exits()) =~= exit_ids(b1.spec_exits())) by {
                    assert forall|k: int| 0 <= k < b1.spec_exits().len()
                        implies builder.spec_exits()[k].id_view() == b1.spec_exits()[k].id_view() by {
                        assert(builder.spec_exits()[k] == builder.spec_exits()[k]);
                    }
                }
                let r = top_rw(c[n as int], loc_after(c.take(n as int), *table), sec_after(c.take(n as int), stem@, *table), *table);
                let fr = files_rw(files@.take(f as int), *table);
                assert(fr.0 + top_seq_rw(c.take(n + 1), stem@, *table).0
                    =~= fr.0 + top_seq_rw(c.take(n as int), stem@, *table).0 + r.0);
                assert(fr.1 + top_seq_rw(c.take(n + 1), stem@, *table).1
                    =~= fr.1 + top_seq_rw(c.take(n as int), stem@, *table).1 + r.1);
                let q = node_out(c[n as int], sec_after(c.take(n as int), stem@, *table), *table, ids);
                let fo = files_out(files@.take(f as int), *table, ids);
                assert(fo.0 + top_out(c.take(n + 1), stem@, *table, ids).0
                    =~= fo.0 + top_out(c.take(n as int), stem@, *table, ids).0 + q.0);
                assert(fo.1 + top_out(c.take(n + 1), stem@, *table, ids).1
                    =~= fo.1 + top_out(c.take(n as int), stem@, *table, ids).1 + q.1);
                assert(files_rules(files@.take(f as int)) + content_rules(c.take(n + 1))
                    =~= files_rules(files@.take(f as int)) + content_rules(c.take(n as int)) + node_rules(c[n as int]));
            }
            n += 1;
        }
        proof {
            let c = files@[f as int].ast.content@;
            assert(c.take(c.len() as int) =~= c);
            assert(files@.take(f + 1).drop_last() =~= files@.take(f as int));
            assert(files@.take(f + 1).last() == files@[f as int]);
        }
        f += 1;
    }
    proof {
        lemma_edges_kept(ba.spec_exits(), builder.spec_exits());
        assert(files@.take(files@.len() as int) =~= files@);
    }
    builder.finish()
}

} // verus!
