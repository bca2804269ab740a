//! FactSet-derived diagnostics (ANALYZE phase).
//!
//! Every function in this module operates solely on the FactSet and the
//! PropertyDependencyIndex built from it — no AST, no symbol table, no
//! source text.
//!
//! | Phase              | Range         |
//! |--------------------|---------------|
//! | ANALYZE (FactSet)  | URD600–URD699 |

use vstd::prelude::*;
use crate::diagnostics::{Diagnostic, RelatedInfo, Severity};
use crate::facts::{
    CompareOp, FactSet, FactSite, KeyView, LiteralKind, PropertyDependencyIndex, PropertyKey,
    PropertyRead, PropertyWrite, WriteOp, distinct_keys, indices_with_key, lemma_indices_with_key_props,
    read_keys, usize_seq, write_keys, compare_op_token, compare_op_str, first_where, lemma_first_where,
    lemma_site_read_indices_in_range,
};
use crate::span::Span;
use crate::text::{chars_of, decimal, decimal_chars, parse_i64, push_chars, push_str, signed_decimal,
    signed_decimal_chars, spec_parse_i64, str_equals, string_from_chars};

verus! {

// ── Message texts ──

pub open spec fn msg_read_never_written(k: KeyView) -> Seq<char> {
    "Property '"@ + k.0 + "."@ + k.1
        + "' is read in conditions but never written by any effect. It will always reflect its default or initial value."@
}

pub open spec fn msg_written_never_read(k: KeyView) -> Seq<char> {
    "Property '"@ + k.0 + "."@ + k.1
        + "' is written by effects but never read in any condition. The writes have no observable effect on game logic."@
}

pub open spec fn msg_variant_untested(k: KeyView, variant: Seq<char>) -> Seq<char> {
    "Effect sets '"@ + k.0 + "."@ + k.1 + "' to '"@ + variant
        + "' but no condition anywhere tests for this variant. The write may have no observable effect."@
}

pub open spec fn msg_unreachable_threshold(k: KeyView, threshold: int, op: CompareOp) -> Seq<char> {
    "Condition compares '"@ + k.0 + "."@ + k.1 + "' against "@ + signed_decimal(threshold)
        + " but no effect can produce a value that satisfies '"@ + compare_op_token(op) + " "@
        + signed_decimal(threshold) + "'. The condition may never be true."@
}

pub open spec fn msg_circular(k: KeyView) -> Seq<char> {
    "Property '"@ + k.0 + "."@ + k.1
        + "' may be stuck in a circular dependency. Every effect that writes this property is guarded by a condition that reads it. Without an unguarded write path or a satisfying initial value, the property can never change."@
}

/// `prefix` followed by `file:line` of the span.
pub open spec fn at_location(prefix: Seq<char>, span: Span) -> Seq<char> {
    prefix + span.file@ + ":"@ + decimal(span.start_line as nat)
}

pub open spec fn msg_guarded_write(w: Span, k: KeyView, r: Span) -> Seq<char> {
    "Write at "@ + w.file@ + ":"@ + decimal(w.start_line as nat)
        + " is guarded by condition reading '"@ + k.0 + "."@ + k.1 + "' at "@
        + r.file@ + ":"@ + decimal(r.start_line as nat)
}

// ── Selection of what each check reports ──

/// The keys of `keys` that no write touches.
pub open spec fn keys_absent_from(keys: Seq<KeyView>, other: Seq<KeyView>) -> Seq<KeyView>
    decreases keys.len(),
{
    if keys.len() == 0 {
        Seq::empty()
    } else if indices_with_key(other, keys.last()).len() == 0 {
        keys_absent_from(keys.drop_last(), other).push(keys.last())
    } else {
        keys_absent_from(keys.drop_last(), other)
    }
}

/// A warning whose span is the first listed occurrence and whose related
/// entries are the remaining occurrences, each with `prefix` and its location.
pub open spec fn first_and_rest(d: Diagnostic, spans: Seq<Span>, code: Seq<char>, msg: Seq<char>, prefix: Seq<char>) -> bool {
    &&& spans.len() > 0
    &&& d.severity == Severity::Warning
    &&& d.code@ == code
    &&& d.message@ == msg
    &&& d.span == spans[0]
    &&& d.suggestion is None
    &&& d.related@.len() + 1 == spans.len()
    &&& forall|m: int| 0 <= m < d.related@.len() ==> {
        &&& (#[trigger] d.related@[m]).span == spans[m + 1]
        &&& d.related@[m].message@ == at_location(prefix, spans[m + 1])
    }
}

pub open spec fn read_spans(reads: Seq<PropertyRead>, idx: Seq<int>) -> Seq<Span> {
    idx.map_values(|i: int| reads[i].span)
}

pub open spec fn write_spans(writes: Seq<PropertyWrite>, idx: Seq<int>) -> Seq<Span> {
    idx.map_values(|i: int| writes[i].span)
}

/// URD601 for key `k`.
pub open spec fn is_read_never_written(d: Diagnostic, fs: FactSet, k: KeyView) -> bool {
    first_and_rest(
        d,
        read_spans(fs.spec_reads(), indices_with_key(read_keys(fs.spec_reads()), k)),
        "URD601"@,
        msg_read_never_written(k),
        "Also read at "@,
    )
}

/// URD602 for key `k`.
pub open spec fn is_written_never_read(d: Diagnostic, fs: FactSet, k: KeyView) -> bool {
    first_and_rest(
        d,
        write_spans(fs.spec_writes(), indices_with_key(write_keys(fs.spec_writes()), k)),
        "URD602"@,
        msg_written_never_read(k),
        "Also written at "@,
    )
}

/// A warning with no related entries.
pub open spec fn plain_warning(d: Diagnostic, code: Seq<char>, msg: Seq<char>, span: Span) -> bool {
    &&& d.severity == Severity::Warning
    &&& d.code@ == code
    &&& d.message@ == msg
    &&& d.span == span
    &&& d.suggestion is None
    &&& d.related@.len() == 0
}

/// Whether some read of the write's key tests for `==` its written value.
pub open spec fn variant_tested(fs: FactSet, i: int) -> bool {
    let w = fs.spec_writes()[i];
    let idx = indices_with_key(read_keys(fs.spec_reads()), w.key_view());
    exists|m: int| 0 <= m < idx.len() && {
        let r = #[trigger] fs.spec_reads()[idx[m]];
        r.operator == CompareOp::Eq && r.value_literal@ == w.value_expr@
    }
}

/// URD603 fires for write `i`: it sets an enum variant of a property that
/// is read somewhere, and no read tests for that variant.
pub open spec fn variant_untested_fires(fs: FactSet, i: int) -> bool {
    let w = fs.spec_writes()[i];
    &&& w.operator == WriteOp::Assign
    &&& w.value_kind == Some(LiteralKind::Ident)
    &&& indices_with_key(read_keys(fs.spec_reads()), w.key_view()).len() > 0
    &&& !variant_tested(fs, i)
}

pub open spec fn is_ordering(op: CompareOp) -> bool {
    op == CompareOp::Lt || op == CompareOp::Gt || op == CompareOp::Le || op == CompareOp::Ge
}

/// `value <op> threshold`.
pub open spec fn spec_satisfies(value: int, op: CompareOp, threshold: int) -> bool {
    match op {
        CompareOp::Lt => value < threshold,
        CompareOp::Gt => value > threshold,
        CompareOp::Le => value <= threshold,
        CompareOp::Ge => value >= threshold,
        CompareOp::Eq => value == threshold,
        CompareOp::Ne => value != threshold,
    }
}

/// Whether some write of the read's key adds or subtracts.
pub open spec fn has_add_sub(fs: FactSet, i: int) -> bool {
    let r = fs.spec_reads()[i];
    let ws = indices_with_key(write_keys(fs.spec_writes()), r.key_view());
    exists|m: int| 0 <= m < ws.len() && {
        let w = #[trigger] fs.spec_writes()[ws[m]];
        w.operator == WriteOp::Add || w.operator == WriteOp::Sub
    }
}

/// Whether some write of the read's key sets an integer that meets the
/// read's comparison against `threshold`.
pub open spec fn some_write_satisfies(fs: FactSet, i: int, threshold: int) -> bool {
    let r = fs.spec_reads()[i];
    let ws = indices_with_key(write_keys(fs.spec_writes()), r.key_view());
    exists|m: int| 0 <= m < ws.len() && {
        let w = #[trigger] fs.spec_writes()[ws[m]];
        &&& w.operator == WriteOp::Assign
        &&& w.value_kind == Some(LiteralKind::Int)
        &&& spec_parse_i64(w.value_expr@) is Some
        &&& spec_satisfies(spec_parse_i64(w.value_expr@).unwrap(), r.operator, threshold)
    }
}

/// URD604 fires for read `i`: an ordering comparison against an integer
/// threshold, on a property with no add/subtract writes, that no set write
/// can satisfy.
pub open spec fn threshold_fires(fs: FactSet, i: int) -> bool {
    let r = fs.spec_reads()[i];
    &&& is_ordering(r.operator)
    &&& r.value_kind == LiteralKind::Int
    &&& spec_parse_i64(r.value_literal@) is Some
    &&& !has_add_sub(fs, i)
    &&& !some_write_satisfies(fs, i, spec_parse_i64(r.value_literal@).unwrap())
}

/// The positions `0..n` of which `p` holds, in order.
pub open spec fn positions_where(n: int, p: spec_fn(int) -> bool) -> Seq<int>
    decreases n,
{
    if n <= 0 {
        Seq::empty()
    } else if p(n - 1) {
        positions_where(n - 1, p).push(n - 1)
    } else {
        positions_where(n - 1, p)
    }
}

/// The first position in the site's read list whose read has key `k`.
pub open spec fn first_self_read(fs: FactSet, site: FactSite, k: KeyView) -> Option<int> {
    first_where(fs.site_read_indices(site), |x: usize| fs.spec_reads()[x as int].key_view() == k)
}

/// The read guarding write `w` on its own key (first one listed at the write's site).
pub open spec fn guard_read(fs: FactSet, w: int, k: KeyView) -> PropertyRead {
    let site = fs.spec_writes()[w].site;
    fs.spec_reads()[fs.site_read_indices(site)[first_self_read(fs, site, k).unwrap()] as int]
}

/// URD605 fires for key `k`: every write of it sits at a site that also reads it.
pub open spec fn circular_fires(fs: FactSet, k: KeyView) -> bool {
    let ws = indices_with_key(write_keys(fs.spec_writes()), k);
    &&& ws.len() > 0
    &&& forall|m: int| 0 <= m < ws.len() ==> (#[trigger] first_self_read(fs, fs.spec_writes()[ws[m]].site, k)) is Some
}

pub open spec fn is_circular(d: Diagnostic, fs: FactSet, k: KeyView) -> bool {
    let ws = indices_with_key(write_keys(fs.spec_writes()), k);
    &&& d.severity == Severity::Warning
    &&& d.code@ == "URD605"@
    &&& d.message@ == msg_circular(k)
    &&& d.span == fs.spec_writes()[ws[0]].span
    &&& d.suggestion is None
    &&& d.related@.len() == ws.len()
    &&& forall|m: int| 0 <= m < ws.len() ==> {
        &&& (#[trigger] d.related@[m]).span == fs.spec_writes()[ws[m]].span
        &&& d.related@[m].message@ == msg_guarded_write(
            fs.spec_writes()[ws[m]].span, k, guard_read(fs, ws[m], k).span)
    }
}

pub open spec fn keys_where(keys: Seq<KeyView>, p: spec_fn(KeyView) -> bool) -> Seq<KeyView>
    decreases keys.len(),
{
    if keys.len() == 0 {
        Seq::empty()
    } else if p(keys.last()) {
        keys_where(keys.drop_last(), p).push(keys.last())
    } else {
        keys_where(keys.drop_last(), p)
    }
}

// ── The five checks ──

/// The URD601 warnings: one per property read but never written, in order of first read.
pub open spec fn d1_ok(fs: FactSet, out: Seq<Diagnostic>) -> bool {
    let q = keys_absent_from(distinct_keys(read_keys(fs.spec_reads())), write_keys(fs.spec_writes()));
    &&& out.len() == q.len()
    &&& forall|j: int| 0 <= j < q.len() ==> is_read_never_written(#[trigger] out[j], fs, q[j])
}

/// The URD602 warnings: one per property written but never read, in order of first write.
pub open spec fn d2_ok(fs: FactSet, out: Seq<Diagnostic>) -> bool {
    let q = keys_absent_from(distinct_keys(write_keys(fs.spec_writes())), read_keys(fs.spec_reads()));
    &&& out.len() == q.len()
    &&& forall|j: int| 0 <= j < q.len() ==> is_written_never_read(#[trigger] out[j], fs, q[j])
}

/// The URD603 warnings: one per write of an untested enum variant, in write order.
pub open spec fn d3_ok(fs: FactSet, out: Seq<Diagnostic>) -> bool {
    let q = positions_where(fs.spec_writes().len() as int, |i: int| variant_untested_fires(fs, i));
    &&& out.len() == q.len()
    &&& forall|j: int| 0 <= j < q.len() ==> {
        let w = fs.spec_writes()[q[j]];
        plain_warning(#[trigger] out[j], "URD603"@, msg_variant_untested(w.key_view(), w.value_expr@), w.span)
    }
}

/// The URD604 warnings: one per unreachable threshold comparison, in read order.
pub open spec fn d4_ok(fs: FactSet, out: Seq<Diagnostic>) -> bool {
    let q = positions_where(fs.spec_reads().len() as int, |i: int| threshold_fires(fs, i));
    &&& out.len() == q.len()
    &&& forall|j: int| 0 <= j < q.len() ==> {
        let r = fs.spec_reads()[q[j]];
        plain_warning(
            #[trigger] out[j],
            "URD604"@,
            msg_unreachable_threshold(r.key_view(), spec_parse_i64(r.value_literal@).unwrap(), r.operator),
            r.span,
        )
    }
}

/// The URD605 warnings: one per property all of whose writes are self-guarded,
/// in order of first write.
pub open spec fn d5_ok(fs: FactSet, out: Seq<Diagnostic>) -> bool {
    let q = keys_where(distinct_keys(write_keys(fs.spec_writes())), |k: KeyView| circular_fires(fs, k));
    &&& out.len() == q.len()
    &&& forall|j: int| 0 <= j < q.len() ==> is_circular(#[trigger] out[j], fs, q[j])
}

/// The ANALYZE diagnostics of a fact set: the URD601 to URD605 warnings,
/// each check's in its order, the checks one after the other.
pub open spec fn analysis(fs: FactSet, out: Seq<Diagnostic>) -> bool {
    exists|a: Seq<Diagnostic>, b: Seq<Diagnostic>, c: Seq<Diagnostic>, d: Seq<Diagnostic>, e: Seq<Diagnostic>| {
        &&& d1_ok(fs, a)
        &&& d2_ok(fs, b)
        &&& d3_ok(fs, c)
        &&& d4_ok(fs, d)
        &&& d5_ok(fs, e)
        &&& out == a + b + c + d + e
    }
}

/// Run all FactSet-derived diagnostics.
///
/// The result lists the URD601, URD602, URD603, URD604 and URD605
/// warnings, in that order.
pub fn analyze(fact_set: &FactSet) -> (out: Vec<Diagnostic>)
    requires
        fact_set.wf(),
    ensures
        analysis(*fact_set, out@),
{
    let index = PropertyDependencyIndex::build(fact_set);
    let mut diagnostics: Vec<Diagnostic> = Vec::new();

    let mut d1 = check_read_never_written(fact_set, &index);
    let ghost a = d1@;
    diagnostics.append(&mut d1);
    let mut d2 = check_written_never_read(fact_set, &index);
    let ghost b = d2@;
    diagnostics.append(&mut d2);
    let mut d3 = check_enum_variant_untested(fact_set, &index);
    let ghost c = d3@;
    diagnostics.append(&mut d3);
    let mut d4 = check_unreachable_threshold(fact_set, &index);
    let ghost d = d4@;
    diagnostics.append(&mut d4);
    let mut d5 = check_circular_dependency(fact_set, &index);
    let ghost e = d5@;
    diagnostics.append(&mut d5);
    assert(diagnostics@ =~= a + b + c + d + e);
    diagnostics
}

// ── Message builders ──

fn key_message(head: &str, key: &PropertyKey, tail: &str) -> (m: String)
    ensures
        m@ == head@ + key.entity_type@ + "."@ + key.property@ + tail@,
{
    let mut v = chars_of(head);
    push_str(&mut v, key.entity_type.as_str());
    push_str(&mut v, ".");
    push_str(&mut v, key.property.as_str());
    push_str(&mut v, tail);
    string_from_chars(v)
}

fn location_message(prefix: &str, span: &Span) -> (m: String)
    ensures
        m@ == at_location(prefix@, *span),
{
    let mut v = chars_of(prefix);
    push_str(&mut v, span.file.as_str());
    push_str(&mut v, ":");
    let line = decimal_chars(span.start_line as u64);
    push_chars(&mut v, &line);
    string_from_chars(v)
}

/// One warning for the listed occurrences of a key: the first gives the
/// span, the others become related entries.
fn first_and_rest_diag(
    code: &str,
    message: String,
    spans: &Vec<Span>,
    prefix: &str,
) -> (d: Diagnostic)
    requires
        spans@.len() > 0,
    ensures
        first_and_rest(d, spans@, code@, message@, prefix@),
{
    let mut related: Vec<RelatedInfo> = Vec::new();
    let mut m: usize = 1;
    while m < spans.len()
        invariant
            1 <= m <= spans.len(),
            related@.len() + 1 == m,
            forall|x: int| 0 <= x < related@.len() ==> {
                &&& (#[trigger] related@[x]).span == spans@[x + 1]
                &&& related@[x].message@ == at_location(prefix@, spans@[x + 1])
            },
        decreases spans.len() - m,
    {
        let msg = location_message(prefix, &spans[m]);
        related.push(RelatedInfo { message: msg, span: spans[m].clone() });
        m += 1;
    }
    Diagnostic {
        severity: Severity::Warning,
        code: String::from_str(code),
        message,
        span: spans[0].clone(),
        suggestion: None,
        related,
    }
}

fn spans_of_reads(reads: &[PropertyRead], idx: &[usize]) -> (r: Vec<Span>)
    requires
        forall|m: int| 0 <= m < idx@.len() ==> (#[trigger] idx@[m] as int) < reads@.len(),
    ensures
        r@ == idx@.map_values(|i: usize| reads@[i as int].span),
{
    let mut r: Vec<Span> = Vec::new();
    let mut m: usize = 0;
    while m < idx.len()
        invariant
            m <= idx.len(),
            forall|x: int| 0 <= x < idx@.len() ==> (#[trigger] idx@[x] as int) < reads@.len(),
            r@ == idx@.take(m as int).map_values(|i: usize| reads@[i as int].span),
        decreases idx.len() - m,
    {
        r.push(reads[idx[m]].span.clone());
        assert(idx@.take(m + 1).map_values(|i: usize| reads@[i as int].span)
            =~= idx@.take(m as int).map_values(|i: usize| reads@[i as int].span).push(reads@[idx@[m as int] as int].span));
        m += 1;
    }
    assert(idx@.take(idx.len() as int) == idx@);
    r
}

fn spans_of_writes(writes: &[PropertyWrite], idx: &[usize]) -> (r: Vec<Span>)
    requires
        forall|m: int| 0 <= m < idx@.len() ==> (#[trigger] idx@[m] as int) < writes@.len(),
    ensures
        r@ == idx@.map_values(|i: usize| writes@[i as int].span),
{
    let mut r: Vec<Span> = Vec::new();
    let mut m: usize = 0;
    while m < idx.len()
        invariant
            m <= idx.len(),
            forall|x: int| 0 <= x < idx@.len() ==> (#[trigger] idx@[x] as int) < writes@.len(),
            r@ == idx@.take(m as int).map_values(|i: usize| writes@[i as int].span),
        decreases idx.len() - m,
    {
        r.push(writes[idx[m]].span.clone());
        assert(idx@.take(m + 1).map_values(|i: usize| writes@[i as int].span)
            =~= idx@.take(m as int).map_values(|i: usize| writes@[i as int].span).push(writes@[idx@[m as int] as int].span));
        m += 1;
    }
    assert(idx@.take(idx.len() as int) == idx@);
    r
}

proof fn lemma_usize_indices(ks: Seq<KeyView>, k: KeyView, n: int)
    requires
        ks.len() == n,
        n <= usize::MAX,
    ensures
        forall|m: int| 0 <= m < usize_seq(indices_with_key(ks, k)).len() ==>
            (#[trigger] usize_seq(indices_with_key(ks, k))[m] as int) == indices_with_key(ks, k)[m]
            && indices_with_key(ks, k)[m] < n && ks[indices_with_key(ks, k)[m]] == k,
        usize_seq(indices_with_key(ks, k)).len() == indices_with_key(ks, k).len(),
{
    lemma_indices_with_key_props(ks, k);
}

/// D1: Property read but never written — URD601
fn check_read_never_written(fact_set: &FactSet, index: &PropertyDependencyIndex) -> (out: Vec<Diagnostic>)
    requires
        index.spec_read_keys() == read_keys(fact_set.spec_reads()),
        index.spec_write_keys() == write_keys(fact_set.spec_writes()),
    ensures
        d1_ok(*fact_set, out@),
{
    let ghost rk = read_keys(fact_set.spec_reads());
    let ghost wk = write_keys(fact_set.spec_writes());
    let keys = index.read_properties();
    let ghost dk = distinct_keys(rk);
    let mut out: Vec<Diagnostic> = Vec::new();
    let mut j: usize = 0;
    proof {
        crate::facts::lemma_distinct_keys(rk);
    }
    while j < keys.len()
        invariant
            j <= keys.len(),
            index.spec_read_keys() == rk,
            index.spec_write_keys() == wk,
            rk == read_keys(fact_set.spec_reads()),
            wk == write_keys(fact_set.spec_writes()),
            dk == distinct_keys(rk),
            keys@.map_values(|k: &PropertyKey| k@) == dk,
            forall|k: KeyView| dk.contains(k) <==> rk.contains(k),
            out@.len() == keys_absent_from(dk.take(j as int), wk).len(),
            forall|x: int| 0 <= x < out@.len() ==>
                is_read_never_written(#[trigger] out@[x], *fact_set, keys_absent_from(dk.take(j as int), wk)[x]),
        decreases keys.len() - j,
    {
        let key = keys[j];
        assert(dk[j as int] == key@);
        assert(dk.take(j + 1).drop_last() == dk.take(j as int));
        assert(dk.take(j + 1).last() == key@);
        let writes = index.writes_of(key);
        if writes.len() == 0 {
            let reads = index.reads_of(key);
            proof {
                fact_set.lemma_lengths_fit();
                lemma_usize_indices(rk, key@, fact_set.spec_reads().len() as int);
                assert(dk.contains(key@));
                assert(rk.contains(key@));
                lemma_indices_with_key_props(rk, key@);
                let w = choose|w: int| 0 <= w < rk.len() && rk[w] == key@;
                assert(indices_with_key(rk, key@).len() > 0);
            }
            let spans = spans_of_reads(fact_set.reads(), reads);
            let message = key_message(
                "Property '",
                key,
                "' is read in conditions but never written by any effect. It will always reflect its default or initial value.",
            );
            let d = first_and_rest_diag("URD601", message, &spans, "Also read at ");
            proof {
                let idx = indices_with_key(rk, key@);
                assert(spans@ =~= read_spans(fact_set.spec_reads(), idx));
            }
            out.push(d);
        }
        j += 1;
    }
    assert(dk.take(keys.len() as int) == dk);
    out
}

/// D2: Property written but never read — URD602
fn check_written_never_read(fact_set: &FactSet, index: &PropertyDependencyIndex) -> (out: Vec<Diagnostic>)
    requires
        index.spec_read_keys() == read_keys(fact_set.spec_reads()),
        index.spec_write_keys() == write_keys(fact_set.spec_writes()),
    ensures
        d2_ok(*fact_set, out@),
{
    let ghost rk = read_keys(fact_set.spec_reads());
    let ghost wk = write_keys(fact_set.spec_writes());
    let keys = index.written_properties();
    let ghost dk = distinct_keys(wk);
    let mut out: Vec<Diagnostic> = Vec::new();
    let mut j: usize = 0;
    proof {
        crate::facts::lemma_distinct_keys(wk);
    }
    while j < keys.len()
        invariant
            j <= keys.len(),
            index.spec_read_keys() == rk,
            index.spec_write_keys() == wk,
            rk == read_keys(fact_set.spec_reads()),
            wk == write_keys(fact_set.spec_writes()),
            dk == distinct_keys(wk),
            keys@.map_values(|k: &PropertyKey| k@) == dk,
            forall|k: KeyView| dk.contains(k) <==> wk.contains(k),
            out@.len() == keys_absent_from(dk.take(j as int), rk).len(),
            forall|x: int| 0 <= x < out@.len() ==>
                is_written_never_read(#[trigger] out@[x], *fact_set, keys_absent_from(dk.take(j as int), rk)[x]),
        decreases keys.len() - j,
    {
        let key = keys[j];
        assert(dk[j as int] == key@);
        assert(dk.take(j + 1).drop_last() == dk.take(j as int));
        assert(dk.take(j + 1).last() == key@);
        let reads = index.reads_of(key);
        if reads.len() == 0 {
            let writes = index.writes_of(key);
            proof {
                fact_set.lemma_lengths_fit();
                lemma_usize_indices(wk, key@, fact_set.spec_writes().len() as int);
                assert(dk.contains(key@));
                assert(wk.contains(key@));
                lemma_indices_with_key_props(wk, key@);
                let w = choose|w: int| 0 <= w < wk.len() && wk[w] == key@;
                assert(indices_with_key(wk, key@).len() > 0);
            }
            let spans = spans_of_writes(fact_set.writes(), writes);
            let message = key_message(
                "Property '",
                key,
                "' is written by effects but never read in any condition. The writes have no observable effect on game logic.",
            );
            let d = first_and_rest_diag("URD602", message, &spans, "Also written at ");
            proof {
                let idx = indices_with_key(wk, key@);
                assert(spans@ =~= write_spans(fact_set.spec_writes(), idx));
            }
            out.push(d);
        }
        j += 1;
    }
    assert(dk.take(keys.len() as int) == dk);
    out
}

/// D3: Effect produces enum variant unreachable by any condition — URD603
fn check_enum_variant_untested(fact_set: &FactSet, index: &PropertyDependencyIndex) -> (out: Vec<Diagnostic>)
    requires
        index.spec_read_keys() == read_keys(fact_set.spec_reads()),
        index.spec_write_keys() == write_keys(fact_set.spec_writes()),
    ensures
        d3_ok(*fact_set, out@),
{
    let ghost rk = read_keys(fact_set.spec_reads());
    let ghost p = |i: int| variant_untested_fires(*fact_set, i);
    let writes = fact_set.writes();
    let reads = fact_set.reads();
    let mut out: Vec<Diagnostic> = Vec::new();
    let mut i: usize = 0;
    while i < writes.len()
        invariant
            i <= writes.len(),
            writes@ == fact_set.spec_writes(),
            reads@ == fact_set.spec_reads(),
            index.spec_read_keys() == rk,
            rk == read_keys(fact_set.spec_reads()),
            p == |i: int| variant_untested_fires(*fact_set, i),
            out@.len() == positions_where(i as int, p).len(),
            forall|j: int| 0 <= j < out@.len() ==> {
                let w = fact_set.spec_writes()[positions_where(i as int, p)[j]];
                plain_warning(#[trigger] out@[j], "URD603"@, msg_variant_untested(w.key_view(), w.value_expr@), w.span)
            },
        decreases writes.len() - i,
    {
        let w = &writes[i];
        let ghost old_out = out@;
        if w.operator == WriteOp::Assign && w.value_kind == Some(LiteralKind::Ident) {
            let key = w.key();
            let ridx = index.reads_of(&key);
            if ridx.len() > 0 {
                proof {
                    fact_set.lemma_lengths_fit();
                    lemma_usize_indices(rk, key@, reads@.len() as int);
                }
                // Is the written variant tested by some `==` read?
                let mut tested = false;
                let mut m: usize = 0;
                while m < ridx.len()
                    invariant
                        m <= ridx.len(),
                        ridx@ == usize_seq(indices_with_key(rk, key@)),
                        reads@ == fact_set.spec_reads(),
                        rk == read_keys(fact_set.spec_reads()),
                        forall|x: int| 0 <= x < ridx@.len() ==> (#[trigger] ridx@[x] as int) == indices_with_key(rk, key@)[x]
                            && indices_with_key(rk, key@)[x] < reads@.len(),
                        tested == exists|x: int| 0 <= x < m && {
                            let r = #[trigger] fact_set.spec_reads()[indices_with_key(rk, key@)[x]];
                            r.operator == CompareOp::Eq && r.value_literal@ == w.value_expr@
                        },
                    decreases ridx.len() - m,
                {
                    let r = &reads[ridx[m]];
                    if r.operator == CompareOp::Eq && str_equals(r.value_literal.as_str(), w.value_expr.as_str()) {
                        tested = true;
                    }
                    m += 1;
                }
                if !tested {
                    let mut v = chars_of("Effect sets '");
                    push_str(&mut v, key.entity_type.as_str());
                    push_str(&mut v, ".");
                    push_str(&mut v, key.property.as_str());
                    push_str(&mut v, "' to '");
                    push_str(&mut v, w.value_expr.as_str());
                    push_str(&mut v, "' but no condition anywhere tests for this variant. The write may have no observable effect.");
                    let message = string_from_chars(v);
                    out.push(Diagnostic {
                        severity: Severity::Warning,
                        code: String::from_str("URD603"),
                        message,
                        span: w.span.clone(),
                        suggestion: None,
                        related: Vec::new(),
                    });
                }
            }
        }
        proof {
            assert(positions_where(i + 1, p) == if p(i as int) {
                positions_where(i as int, p).push(i as int)
            } else {
                positions_where(i as int, p)
            });
        }
        i += 1;
    }
    out
}

/// Returns true if `value` satisfies the comparison `value <op> threshold`.
fn satisfies_comparison(value: i64, op: &CompareOp, threshold: i64) -> (b: bool)
    ensures
        b == spec_satisfies(value as int, *op, threshold as int),
{
    match op {
        CompareOp::Lt => value < threshold,
        CompareOp::Gt => value > threshold,
        CompareOp::Le => value <= threshold,
        CompareOp::Ge => value >= threshold,
        CompareOp::Eq => value == threshold,
        CompareOp::Ne => value != threshold,
    }
}

/// D4: Condition tests unreachable threshold — URD604
fn check_unreachable_threshold(fact_set: &FactSet, index: &PropertyDependencyIndex) -> (out: Vec<Diagnostic>)
    requires
        index.spec_read_keys() == read_keys(fact_set.spec_reads()),
        index.spec_write_keys() == write_keys(fact_set.spec_writes()),
    ensures
        d4_ok(*fact_set, out@),
{
    let ghost wk = write_keys(fact_set.spec_writes());
    let ghost p = |i: int| threshold_fires(*fact_set, i);
    let writes = fact_set.writes();
    let reads = fact_set.reads();
    let mut out: Vec<Diagnostic> = Vec::new();
    let mut i: usize = 0;
    while i < reads.len()
        invariant
            i <= reads.len(),
            writes@ == fact_set.spec_writes(),
            reads@ == fact_set.spec_reads(),
            index.spec_write_keys() == wk,
            wk == write_keys(fact_set.spec_writes()),
            p == |i: int| threshold_fires(*fact_set, i),
            out@.len() == positions_where(i as int, p).len(),
            forall|j: int| 0 <= j < out@.len() ==> {
                let r = fact_set.spec_reads()[positions_where(i as int, p)[j]];
                plain_warning(
                    #[trigger] out@[j],
                    "URD604"@,
                    msg_unreachable_threshold(r.key_view(), spec_parse_i64(r.value_literal@).unwrap(), r.operator),
                    r.span,
                )
            },
        decreases reads.len() - i,
    {
        let r = &reads[i];
        let is_ordering = r.operator == CompareOp::Lt || r.operator == CompareOp::Gt
            || r.operator == CompareOp::Le || r.operator == CompareOp::Ge;
        if is_ordering && r.value_kind == LiteralKind::Int {
            if let Some(threshold) = parse_i64(r.value_literal.as_str()) {
                let key = r.key();
                let widx = index.writes_of(&key);
                proof {
                    fact_set.lemma_lengths_fit();
                    lemma_usize_indices(wk, key@, writes@.len() as int);
                }
                let mut add_sub = false;
                let mut any_satisfies = false;
                let mut m: usize = 0;
                while m < widx.len()
                    invariant
                        m <= widx.len(),
                        widx@ == usize_seq(indices_with_key(wk, key@)),
                        writes@ == fact_set.spec_writes(),
                        wk == write_keys(fact_set.spec_writes()),
                        key@ == r.key_view(),
                        *r == fact_set.spec_reads()[i as int],
                        spec_parse_i64(r.value_literal@) == Some(threshold as int),
                        forall|x: int| 0 <= x < widx@.len() ==> (#[trigger] widx@[x] as int) == indices_with_key(wk, key@)[x]
                            && indices_with_key(wk, key@)[x] < writes@.len(),
                        add_sub == exists|x: int| 0 <= x < m && {
                            let w = #[trigger] fact_set.spec_writes()[indices_with_key(wk, key@)[x]];
                            w.operator == WriteOp::Add || w.operator == WriteOp::Sub
                        },
                        any_satisfies == exists|x: int| 0 <= x < m && {
                            let w = #[trigger] fact_set.spec_writes()[indices_with_key(wk, key@)[x]];
                            &&& w.operator == WriteOp::Assign
                            &&& w.value_kind == Some(LiteralKind::Int)
                            &&& spec_parse_i64(w.value_expr@) is Some
                            &&& spec_satisfies(spec_parse_i64(w.value_expr@).unwrap(), r.operator, threshold as int)
                        },
                    decreases widx.len() - m,
                {
                    let w = &writes[widx[m]];
                    if w.operator == WriteOp::Add || w.operator == WriteOp::Sub {
                        add_sub = true;
                    }
                    if w.operator == WriteOp::Assign && w.value_kind == Some(LiteralKind::Int) {
                        if let Some(value) = parse_i64(w.value_expr.as_str()) {
                            if satisfies_comparison(value, &r.operator, threshold) {
                                any_satisfies = true;
                            }
                        }
                    }
                    m += 1;
                }
                if !add_sub && !any_satisfies {
                    let op_str = compare_op_str(&r.operator);
                    let th = signed_decimal_chars(threshold);
                    let mut v = chars_of("Condition compares '");
                    push_str(&mut v, key.entity_type.as_str());
                    push_str(&mut v, ".");
                    push_str(&mut v, key.property.as_str());
                    push_str(&mut v, "' against ");
                    push_chars(&mut v, &th);
                    push_str(&mut v, " but no effect can produce a value that satisfies '");
                    push_str(&mut v, op_str);
                    push_str(&mut v, " ");
                    push_chars(&mut v, &th);
                    push_str(&mut v, "'. The condition may never be true.");
                    let message = string_from_chars(v);
                    out.push(Diagnostic {
                        severity: Severity::Warning,
                        code: String::from_str("URD604"),
                        message,
                        span: r.span.clone(),
                        suggestion: None,
                        related: Vec::new(),
                    });
                }
            }
        }
        proof {
            assert(positions_where(i + 1, p) == if p(i as int) {
                positions_where(i as int, p).push(i as int)
            } else {
                positions_where(i as int, p)
            });
        }
        i += 1;
    }
    out
}

/// D5: Circular property dependency — URD605
fn check_circular_dependency(fact_set: &FactSet, index: &PropertyDependencyIndex) -> (out: Vec<Diagnostic>)
    requires
        fact_set.wf(),
        index.spec_read_keys() == read_keys(fact_set.spec_reads()),
        index.spec_write_keys() == write_keys(fact_set.spec_writes()),
    ensures
        d5_ok(*fact_set, out@),
{
    let ghost rk = read_keys(fact_set.spec_reads());
    let ghost wk = write_keys(fact_set.spec_writes());
    let ghost dk = distinct_keys(wk);
    let ghost p = |k: KeyView| circular_fires(*fact_set, k);
    let keys = index.written_properties();
    let writes = fact_set.writes();
    let reads = fact_set.reads();
    let mut out: Vec<Diagnostic> = Vec::new();
    let mut j: usize = 0;
    while j < keys.len()
        invariant
            j <= keys.len(),
            fact_set.wf(),
            writes@ == fact_set.spec_writes(),
            reads@ == fact_set.spec_reads(),
            index.spec_write_keys() == wk,
            rk == read_keys(fact_set.spec_reads()),
            wk == write_keys(fact_set.spec_writes()),
            dk == distinct_keys(wk),
            keys@.map_values(|k: &PropertyKey| k@) == dk,
            p == |k: KeyView| circular_fires(*fact_set, k),
            out@.len() == keys_where(dk.take(j as int), p).len(),
            forall|x: int| 0 <= x < out@.len() ==>
                is_circular(#[trigger] out@[x], *fact_set, keys_where(dk.take(j as int), p)[x]),
        decreases keys.len() - j,
    {
        let key = keys[j];
        assert(dk[j as int] == key@);
        assert(dk.take(j + 1).drop_last() == dk.take(j as int));
        assert(dk.take(j + 1).last() == key@);
        let widx = index.writes_of(key);
        proof {
            fact_set.lemma_lengths_fit();
                    lemma_usize_indices(wk, key@, writes@.len() as int);
        }
        if widx.len() > 0 {
            let mut guarded: usize = 0;
            let mut related: Vec<RelatedInfo> = Vec::new();
            let mut m: usize = 0;
            while m < widx.len()
                invariant
                    m <= widx.len(),
                    fact_set.wf(),
                    widx@ == usize_seq(indices_with_key(wk, key@)),
                    writes@ == fact_set.spec_writes(),
                    reads@ == fact_set.spec_reads(),
                    rk == read_keys(fact_set.spec_reads()),
                    wk == write_keys(fact_set.spec_writes()),
                    forall|x: int| 0 <= x < widx@.len() ==> (#[trigger] widx@[x] as int) == indices_with_key(wk, key@)[x]
                        && indices_with_key(wk, key@)[x] < writes@.len(),
                    guarded <= m,
                    guarded == m <==> forall|x: int| 0 <= x < m ==>
                        (#[trigger] first_self_read(*fact_set, fact_set.spec_writes()[indices_with_key(wk, key@)[x]].site, key@)) is Some,
                    guarded == m ==> related@.len() == m,
                    guarded == m ==> forall|x: int| 0 <= x < m ==> {
                        let w = indices_with_key(wk, key@)[x];
                        &&& (#[trigger] related@[x]).span == fact_set.spec_writes()[w].span
                        &&& related@[x].message@ == msg_guarded_write(
                            fact_set.spec_writes()[w].span, key@, guard_read(*fact_set, w, key@).span)
                    },
                decreases widx.len() - m,
            {
                let w = &writes[widx[m]];
                let sr = fact_set.read_indices_for_site(&w.site);
                proof {
                    lemma_site_read_indices_in_range(*fact_set, w.site);
                }
                let self_read = find_self_read(reads, sr, key, Ghost(*fact_set), Ghost(w.site));
                if let Some(pos) = self_read {
                    let r = &reads[sr[pos]];
                    let mut v = chars_of("Write at ");
                    push_str(&mut v, w.span.file.as_str());
                    push_str(&mut v, ":");
                    let wl = decimal_chars(w.span.start_line as u64);
                    push_chars(&mut v, &wl);
                    push_str(&mut v, " is guarded by condition reading '");
                    push_str(&mut v, key.entity_type.as_str());
                    push_str(&mut v, ".");
                    push_str(&mut v, key.property.as_str());
                    push_str(&mut v, "' at ");
                    push_str(&mut v, r.span.file.as_str());
                    push_str(&mut v, ":");
                    let rl = decimal_chars(r.span.start_line as u64);
                    push_chars(&mut v, &rl);
                    let message = string_from_chars(v);
                    if guarded == m {
                        related.push(RelatedInfo { message, span: w.span.clone() });
                    }
                    guarded += 1;
                }
                m += 1;
            }
            if guarded == widx.len() {
                let first = &writes[widx[0]];
                let message = key_message(
                    "Property '",
                    key,
                    "' may be stuck in a circular dependency. Every effect that writes this property is guarded by a condition that reads it. Without an unguarded write path or a satisfying initial value, the property can never change.",
                );
                out.push(Diagnostic {
                    severity: Severity::Warning,
                    code: String::from_str("URD605"),
                    message,
                    span: first.span.clone(),
                    suggestion: None,
                    related,
                });
            }
        }
        j += 1;
    }
    assert(dk.take(keys.len() as int) == dk);
    out
}

/// The first position in the site's read list whose read has key `key`.
fn find_self_read(
    reads: &[PropertyRead],
    sr: &[usize],
    key: &PropertyKey,
    Ghost(fs): Ghost<FactSet>,
    Ghost(site): Ghost<FactSite>,
) -> (r: Option<usize>)
    requires
        fs.wf(),
        reads@ == fs.spec_reads(),
        sr@ == fs.site_read_indices(site),
        forall|m: int| 0 <= m < sr@.len() ==> (#[trigger] sr@[m] as int) < reads@.len(),
    ensures
        match r {
            Some(p) => first_self_read(fs, site, key@) == Some(p as int) && (p as int) < sr@.len(),
            None => first_self_read(fs, site, key@) is None,
        },
{
    let mut m: usize = 0;
    while m < sr.len()
        invariant
            m <= sr.len(),
            reads@ == fs.spec_reads(),
            sr@ == fs.site_read_indices(site),
            forall|x: int| 0 <= x < sr@.len() ==> (#[trigger] sr@[x] as int) < reads@.len(),
            forall|x: int| 0 <= x < m ==> fs.spec_reads()[#[trigger] sr@[x] as int].key_view() != key@,
        decreases sr.len() - m,
    {
        let r = &reads[sr[m]];
        if str_equals(r.entity_type.as_str(), key.entity_type.as_str())
            && str_equals(r.property.as_str(), key.property.as_str()) {
            proof {
                lemma_first_where(sr@, |x: usize| fs.spec_reads()[x as int].key_view() == key@);
                let f = first_self_read(fs, site, key@);
                assert(fs.spec_reads()[sr@[m as int] as int].key_view() == key@);
                let c = f.unwrap();
                if c < m {
                } else if c > m {
                }
            }
            return Some(m);
        }
        m += 1;
    }
    proof {
        lemma_first_where(sr@, |x: usize| fs.spec_reads()[x as int].key_view() == key@);
        if first_self_read(fs, site, key@) is Some {
            let c = first_self_read(fs, site, key@).unwrap();
            assert(fs.spec_reads()[sr@[c] as int].key_view() == key@);
        }
    }
    None
}

/// The satisfaction relation of URD604 is integer comparison: a value
/// satisfies `>= t` exactly when it is at least `t`, and likewise for the
/// other operators; each ordering is the negation of its opposite and the
/// mirror of its converse.
pub proof fn lemma_satisfies_is_integer_comparison(value: int, threshold: int)
    ensures
        spec_satisfies(value, CompareOp::Ge, threshold) <==> value >= threshold,
        spec_satisfies(value, CompareOp::Gt, threshold) <==> value > threshold,
        spec_satisfies(value, CompareOp::Le, threshold) <==> value <= threshold,
        spec_satisfies(value, CompareOp::Lt, threshold) <==> value < threshold,
        spec_satisfies(value, CompareOp::Eq, threshold) <==> value == threshold,
        spec_satisfies(value, CompareOp::Ne, threshold) <==> value != threshold,
        spec_satisfies(value, CompareOp::Ge, threshold) <==> !spec_satisfies(value, CompareOp::Lt, threshold),
        spec_satisfies(value, CompareOp::Gt, threshold) <==> !spec_satisfies(value, CompareOp::Le, threshold),
        spec_satisfies(value, CompareOp::Ge, threshold) <==> spec_satisfies(threshold, CompareOp::Le, value),
        spec_satisfies(value, CompareOp::Gt, threshold) <==> spec_satisfies(threshold, CompareOp::Lt, value),
        spec_satisfies(value, CompareOp::Eq, threshold) <==> !spec_satisfies(value, CompareOp::Ne, threshold),
{
}

/// URD604 does not fire for a read when some plain assignment of an
/// integer literal to the same property satisfies the read's comparison:
/// a condition `>= 50` with a write `= 80` is reachable.
pub proof fn lemma_satisfying_write_silences_urd604(fs: FactSet, i: int, w: int)
    requires
        0 <= i < fs.spec_reads().len(),
        0 <= w < fs.spec_writes().len(),
        fs.spec_writes()[w].key_view() == fs.spec_reads()[i].key_view(),
        fs.spec_writes()[w].operator == WriteOp::Assign,
        fs.spec_writes()[w].value_kind == Some(LiteralKind::Int),
        spec_parse_i64(fs.spec_writes()[w].value_expr@) is Some,
        spec_parse_i64(fs.spec_reads()[i].value_literal@) is Some,
        fs.spec_reads()[i].operator == CompareOp::Ge ==>
            spec_parse_i64(fs.spec_writes()[w].value_expr@).unwrap() >= spec_parse_i64(fs.spec_reads()[i].value_literal@).unwrap(),
        fs.spec_reads()[i].operator == CompareOp::Gt ==>
            spec_parse_i64(fs.spec_writes()[w].value_expr@).unwrap() > spec_parse_i64(fs.spec_reads()[i].value_literal@).unwrap(),
        fs.spec_reads()[i].operator == CompareOp::Le ==>
            spec_parse_i64(fs.spec_writes()[w].value_expr@).unwrap() <= spec_parse_i64(fs.spec_reads()[i].value_literal@).unwrap(),
        fs.spec_reads()[i].operator == CompareOp::Lt ==>
            spec_parse_i64(fs.spec_writes()[w].value_expr@).unwrap() < spec_parse_i64(fs.spec_reads()[i].value_literal@).unwrap(),
    ensures
        !threshold_fires(fs, i),
{
    let ks = write_keys(fs.spec_writes());
    let r = fs.spec_reads()[i];
    let ws = indices_with_key(ks, r.key_view());
    crate::facts::lemma_indices_with_key_props(ks, r.key_view());
    assert(ks[w] == fs.spec_writes()[w].key_view());
    assert(ws.contains(w));
    if is_ordering(r.operator) {
        let m = choose|m: int| 0 <= m < ws.len() && ws[m] == w;
        assert(fs.spec_writes()[ws[m]] == fs.spec_writes()[w]);
        assert(some_write_satisfies(fs, i, spec_parse_i64(r.value_literal@).unwrap()));
    }
}

} // verus!
