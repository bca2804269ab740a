//! Narrative content parser.
//!
//! Implements the Block dispatch for the content region of a `.urd.md`
//! file. Processes lines sequentially, matching each against an ordered
//! list of rules; prose is the fallback.
//!
//! Every parser below is described by a spec function of the lines, the
//! file path and the line it starts on. Such a description gives the node
//! view, the line after the node, the diagnostics recorded, and whether a
//! diagnostic's display text would have to be cut inside a character
//! (a fault, which callers report as a failure).

use vstd::prelude::*;
use crate::ast::{
    lemma_nodes_view_push,
    cond_view, conds_view, effect_type_view, effect_view, effects_view, node_view, nodes_view, opt_view,
    select_view, strings_view, BlockedMessage, Choice, Comment, Condition, ConditionExpr, CondV, ContainmentCheck,
    ContentNode, Effect, EffectLineV, EffectType, EffectV, EntityPresence, EntitySpeech, ErrorNode,
    ExhaustionCheck, ExitDeclaration, Jump, LocationHeading, NodeV, OrConditionBlock, PhaseHeading,
    PropertyComparison, Prose, RuleBlock, Annotation, SectionLabel, SelectClause, SelectV, SequenceHeading, StageDirection,
};
use crate::diagnostics::{appended, lemma_appended_empty, lemma_appended_trans, DiagnosticCollector, PlainDiag, Severity};
use crate::parse::{
    char_width, content_line_span_v, content_span_lines_v, detab, lead_spaces, line_span_v, measure_indent,
    strip_comment, strip_inline_comment, tab_reports, utf8_len, LineInfo, Parser,
};
use crate::span::{Span, SpanV, span_view};
use crate::ast::{entries_view, FileAst, Frontmatter};
use crate::text::{
    chars_end_with, chars_of, chars_start_with, decimal, decimal_chars, ends_with, find_char, find_seq,
    find_str, first_char_index, is_ascii_alnum, push_chars, push_str, slice_chars, split_chars, split_on,
    starts_with, string_from_chars, trim, trim_chars, views,
};

verus! {

broadcast use vstd::string::group_string_axioms;

// ── Identifiers ──

pub open spec fn ident_char(c: char) -> bool {
    is_ascii_alnum(c) || c == '_'
}

/// The length of the leading run of identifier characters (ASCII letters,
/// digits and `_`).
pub open spec fn ident_end(s: Seq<char>) -> nat
    decreases s.len(),
{
    if s.len() > 0 && ident_char(s[0]) { 1 + ident_end(s.drop_first()) } else { 0 }
}

proof fn lemma_ident_end(s: Seq<char>)
    ensures
        ident_end(s) <= s.len(),
        forall|j: int| 0 <= j < ident_end(s) ==> ident_char(#[trigger] s[j]),
        ident_end(s) < s.len() ==> !ident_char(s[ident_end(s) as int]),
    decreases s.len(),
{
    if s.len() > 0 && ident_char(s[0]) {
        lemma_ident_end(s.drop_first());
        assert forall|j: int| 0 <= j < ident_end(s) implies ident_char(#[trigger] s[j]) by {
            if j > 0 {
                assert(s[j] == s.drop_first()[j - 1]);
            }
        }
    }
}

fn ident_end_exec(v: &Vec<char>) -> (n: usize)
    ensures
        n == ident_end(v@),
{
    proof { lemma_ident_end(v@); }
    let mut n: usize = 0;
    while n < v.len() && (crate::text::is_ascii_alphanumeric(v[n]) || v[n] == '_')
        invariant
            n <= v.len(),
            n <= ident_end(v@) <= v@.len(),
            ident_end(v@) < v@.len() ==> !ident_char(v@[ident_end(v@) as int]),
            forall|j: int| 0 <= j < ident_end(v@) ==> ident_char(#[trigger] v@[j]),
        decreases v.len() - n,
    {
        n += 1;
    }
    proof {
        if n < ident_end(v@) {
            assert(ident_char(v@[n as int]));
        }
    }
    n
}

fn to_string(v: &Vec<char>) -> (s: String)
    ensures
        s@ == v@,
{
    string_from_chars(slice_chars(v, 0, v.len()))
}

fn skip_chars(v: &Vec<char>, n: usize) -> (out: Vec<char>)
    requires
        n <= v@.len(),
    ensures
        out@ == v@.skip(n as int),
{
    let out = slice_chars(v, n, v.len());
    assert(out@ =~= v@.skip(n as int));
    out
}

fn take_chars(v: &Vec<char>, n: usize) -> (out: Vec<char>)
    requires
        n <= v@.len(),
    ensures
        out@ == v@.take(n as int),
{
    let out = slice_chars(v, 0, n);
    assert(out@ =~= v@.take(n as int));
    out
}

proof fn lemma_find_bound(s: Seq<char>, p: Seq<char>)
    ensures
        find_seq(s, p) matches Some(i) ==> 0 <= i && i + p.len() <= s.len(),
{
    crate::text::lemma_find_seq(s, p);
}

proof fn lemma_prefix_len(s: Seq<char>, p: Seq<char>)
    requires
        starts_with(s, p),
    ensures
        p.len() <= s.len(),
{
}

// ── Display truncation ──

/// The longest prefix of `t` whose UTF-8 encoding fits in `n` bytes.
pub open spec fn prefix_within(t: Seq<char>, n: nat) -> Seq<char>
    decreases t.len(),
{
    if t.len() == 0 {
        t
    } else if utf8_len(t) <= n {
        t
    } else {
        prefix_within(t.drop_last(), n)
    }
}

/// Text as a diagnostic quotes it: more than 60 bytes are cut to their
/// first 57 bytes followed by `...`.
pub open spec fn display_of(t: Seq<char>) -> Seq<char> {
    if utf8_len(t) > 60 { prefix_within(t, 57) + "..."@ } else { t }
}

/// Cutting `t` for display would split a character (no character ends
/// exactly at byte 57).
pub open spec fn display_fault(t: Seq<char>) -> bool {
    utf8_len(t) > 60 && utf8_len(prefix_within(t, 57)) != 57
}

proof fn lemma_prefix_within(t: Seq<char>, n: nat, k: int)
    requires
        0 <= k <= t.len(),
        utf8_len(t.take(k)) <= n,
        k == t.len() || utf8_len(t.take(k + 1)) > n,
    ensures
        prefix_within(t, n) == t.take(k),
    decreases t.len(),
{
    if t.len() == 0 {
        assert(t.take(k) =~= t);
    } else if utf8_len(t) <= n {
        if k < t.len() {
            lemma_utf8_mono(t, k + 1);
        }
        assert(t.take(k) =~= t);
    } else {
        if k == t.len() {
            assert(t.take(k) =~= t);
        }
        assert(t.drop_last().take(k) =~= t.take(k));
        if k < t.len() - 1 {
            assert(t.drop_last().take(k + 1) =~= t.take(k + 1));
        } else {
            assert(t.take(k + 1) =~= t);
            assert(t.drop_last().take(k) =~= t.drop_last());
        }
        lemma_prefix_within(t.drop_last(), n, k);
    }
}

proof fn lemma_utf8_mono(t: Seq<char>, k: int)
    requires
        0 <= k <= t.len(),
    ensures
        utf8_len(t.take(k)) <= utf8_len(t),
    decreases t.len() - k,
{
    if k < t.len() {
        lemma_utf8_mono(t, k + 1);
        assert(t.take(k + 1).drop_last() =~= t.take(k));
    } else {
        assert(t.take(k) =~= t);
    }
}

/// Truncate text for display in diagnostics. The flag tells that the cut
/// falls inside a character.
pub fn truncate_for_display(text: &Vec<char>) -> (r: (Vec<char>, bool))
    requires
        text@.len() <= crate::graph::MAX_FILE_SIZE,
    ensures
        r.0@ == display_of(text@),
        r.1 == display_fault(text@),
{
    let total = crate::parse::utf8_len_chars(text);
    if total <= 60 {
        return (slice_chars(text, 0, text.len()), false);
    }
    let mut k: usize = 0;
    let mut bytes: usize = 0;
    while k < text.len() && bytes + utf8_char_width(text[k]) <= 57
        invariant
            k <= text@.len(),
            bytes == utf8_len(text@.take(k as int)),
            bytes <= 57,
        decreases text.len() - k,
    {
        proof { assert(text@.take(k + 1).drop_last() =~= text@.take(k as int)); }
        bytes = bytes + utf8_char_width(text[k]);
        k += 1;
    }
    proof {
        if k < text.len() {
            assert(text@.take(k + 1).drop_last() =~= text@.take(k as int));
        }
        lemma_prefix_within(text@, 57, k as int);
    }
    let mut out = take_chars(text, k);
    push_str(&mut out, "...");
    (out, bytes != 57)
}

fn utf8_char_width(c: char) -> (w: usize)
    ensures
        w == char_width(c),
        1 <= w <= 4,
{
    let u = c as u32;
    if u < 0x80 {
        1
    } else if u < 0x800 {
        2
    } else if u < 0x10000 {
        3
    } else {
        4
    }
}

// ── Condition expressions ──

/// The comparison operators, tried in this order.
pub open spec fn comparison_op(k: int) -> Seq<char> {
    if k == 0 {
        "=="@
    } else if k == 1 {
        "!="@
    } else if k == 2 {
        ">="@
    } else if k == 3 {
        "<="@
    } else if k == 4 {
        ">"@
    } else {
        "<"@
    }
}

/// The first operator, from the `k`-th on, that occurs in `remaining`
/// after a non-empty property name, as a comparison.
pub open spec fn comparison_from(entity: Seq<char>, remaining: Seq<char>, span: SpanV, k: int) -> Option<CondV>
    decreases 6 - k,
{
    if k >= 6 || k < 0 {
        None
    } else {
        let op = comparison_op(k);
        match find_seq(remaining, op) {
            Some(p) if trim(remaining.take(p)).len() > 0 => Some(CondV::Comparison {
                entity_ref: entity,
                property: trim(remaining.take(p)),
                operator: op,
                value: trim(remaining.skip(p + op.len())),
                bare: true,
                span,
            }),
            _ => comparison_from(entity, remaining, span, k + 1),
        }
    }
}

/// A character that can be part of a comparison operator.
pub open spec fn op_char(c: char) -> bool {
    c == '=' || c == '!' || c == '<' || c == '>'
}

/// No character of `s` can be part of a comparison operator.
pub open spec fn no_op_chars(s: Seq<char>) -> bool {
    forall|i: int| 0 <= i < s.len() ==> !op_char(#[trigger] s[i])
}

/// An operator-only pattern can occur in `p + op + v` only inside `op`
/// when `p` and `v` hold no operator characters.
proof fn lemma_op_occurrence(p: Seq<char>, op: Seq<char>, v: Seq<char>, pat: Seq<char>, i: int)
    requires
        no_op_chars(p),
        no_op_chars(v),
        pat.len() > 0,
        forall|j: int| 0 <= j < pat.len() ==> op_char(#[trigger] pat[j]),
        crate::text::occurs_at(p + op + v, pat, i),
    ensures
        p.len() <= i,
        i + pat.len() <= p.len() + op.len(),
        crate::text::occurs_at(op, pat, i - p.len()),
{
    let s = p + op + v;
    let m = pat.len() as int;
    assert(s.subrange(i, i + m)[0] == s[i]);
    assert(op_char(pat[0]));
    if i < p.len() {
        assert(s[i] == p[i]);
    }
    assert(s.subrange(i, i + m)[m - 1] == s[i + m - 1]);
    assert(op_char(pat[m - 1]));
    if i + m - 1 >= p.len() + op.len() {
        assert(s[i + m - 1] == v[i + m - 1 - p.len() - op.len()]);
    }
    assert(op.subrange(i - p.len(), i - p.len() + m) =~= s.subrange(i, i + m));
}

proof fn lemma_pattern_absent(p: Seq<char>, op: Seq<char>, v: Seq<char>, pat: Seq<char>)
    requires
        no_op_chars(p),
        no_op_chars(v),
        pat.len() > 0,
        forall|j: int| 0 <= j < pat.len() ==> op_char(#[trigger] pat[j]),
        forall|j: int| !crate::text::occurs_at(op, pat, j),
    ensures
        find_seq(p + op + v, pat) is None,
{
    crate::text::lemma_find_seq(p + op + v, pat);
    if find_seq(p + op + v, pat) is Some {
        lemma_op_occurrence(p, op, v, pat, find_seq(p + op + v, pat).unwrap());
    }
}

proof fn lemma_pattern_found(p: Seq<char>, op: Seq<char>, v: Seq<char>)
    requires
        no_op_chars(p),
        no_op_chars(v),
        op.len() > 0,
        forall|j: int| 0 <= j < op.len() ==> op_char(#[trigger] op[j]),
    ensures
        find_seq(p + op + v, op) == Some(p.len() as int),
{
    let s = p + op + v;
    crate::text::lemma_find_seq(s, op);
    assert(s.subrange(p.len() as int, (p.len() + op.len()) as int) =~= op);
    assert(crate::text::occurs_at(s, op, p.len() as int));
    match find_seq(s, op) {
        Some(i) => {
            lemma_op_occurrence(p, op, v, op, i);
        },
        None => {},
    }
}

proof fn lemma_comparison_skip(entity: Seq<char>, s: Seq<char>, span: SpanV, k: int)
    requires
        0 <= k < 6,
        find_seq(s, comparison_op(k)) is None,
    ensures
        comparison_from(entity, s, span, k) == comparison_from(entity, s, span, k + 1),
{
}

/// The position of an operator in the order they are tried.
pub open spec fn op_rank(op: Seq<char>) -> int {
    if op == "=="@ { 0 } else if op == "!="@ { 1 } else if op == ">="@ { 2 }
    else if op == "<="@ { 3 } else if op == ">"@ { 4 } else { 5 }
}

proof fn lemma_earlier_op_absent(op: Seq<char>, k: int)
    requires
        op == "=="@ || op == "!="@ || op == ">="@ || op == "<="@ || op == ">"@ || op == "<"@,
        0 <= k < op_rank(op),
    ensures
        forall|j: int| !crate::text::occurs_at(op, comparison_op(k), j),
{
    reveal_strlit("==");
    reveal_strlit("!=");
    reveal_strlit(">=");
    reveal_strlit("<=");
    reveal_strlit(">");
    reveal_strlit("<");
    let q = comparison_op(k);
    assert forall|j: int| !crate::text::occurs_at(op, q, j) by {
        if crate::text::occurs_at(op, q, j) {
            assert(op.subrange(j, j + q.len())[0] == op[j]);
            if q.len() == 2 {
                assert(op.subrange(j, j + 2)[1] == op[j + 1]);
            }
        }
    }
}

proof fn lemma_skip_to(entity: Seq<char>, p: Seq<char>, op: Seq<char>, v: Seq<char>, span: SpanV, k: int, kop: int)
    requires
        op == "=="@ || op == "!="@ || op == ">="@ || op == "<="@ || op == ">"@ || op == "<"@,
        kop == op_rank(op),
        0 <= k <= kop,
        no_op_chars(p),
        no_op_chars(v),
    ensures
        comparison_from(entity, p + op + v, span, k) == comparison_from(entity, p + op + v, span, kop),
    decreases kop - k,
{
    reveal_strlit("==");
    reveal_strlit("!=");
    reveal_strlit(">=");
    reveal_strlit("<=");
    reveal_strlit(">");
    reveal_strlit("<");
    if k < kop {
        let q = comparison_op(k);
        assert(q.len() > 0);
        assert(forall|j: int| 0 <= j < q.len() ==> op_char(#[trigger] q[j]));
        lemma_earlier_op_absent(op, k);
        lemma_pattern_absent(p, op, v, q);
        lemma_comparison_skip(entity, p + op + v, span, k);
        lemma_skip_to(entity, p, op, v, span, k + 1, kop);
    }
}

/// A comparison keeps its operator whole. For a comparison written
/// `p OP v` after `@entity.`, with OP one of `==`, `!=`, `>=`, `<=`, `>`,
/// `<` and no operator characters in the property or the value, the
/// parsed comparison has exactly that operator, the trimmed property and
/// the trimmed value: a two-character operator is never split, and no
/// other operator is found in its place.
pub proof fn lemma_comparison_keeps_operator(entity: Seq<char>, p: Seq<char>, op: Seq<char>, v: Seq<char>, span: SpanV)
    requires
        op == "=="@ || op == "!="@ || op == ">="@ || op == "<="@ || op == ">"@ || op == "<"@,
        no_op_chars(p),
        no_op_chars(v),
        trim(p).len() > 0,
    ensures
        comparison_from(entity, p + op + v, span, 0) == Some(CondV::Comparison {
            entity_ref: entity, property: trim(p), operator: op, value: trim(v), bare: true, span,
        }),
{
    reveal_strlit("==");
    reveal_strlit("!=");
    reveal_strlit(">=");
    reveal_strlit("<=");
    reveal_strlit(">");
    reveal_strlit("<");
    let s = p + op + v;
    assert(forall|j: int| 0 <= j < op.len() ==> op_char(#[trigger] op[j]));
    let kop = op_rank(op);
    assert(comparison_op(kop) == op);
    lemma_skip_to(entity, p, op, v, span, 0, kop);
    lemma_pattern_found(p, op, v);
    assert(s.take(p.len() as int) =~= p);
    assert(s.skip((p.len() + op.len()) as int) =~= v);
}

/// The condition expression written by `text`, if it is one.
pub open spec fn cond_expr(text: Seq<char>, span: SpanV) -> Option<CondV> {
    let e = trim(text);
    if ends_with(e, ".exhausted"@) {
        Some(CondV::Exhaustion { section_name: e.take(e.len() - 10), bare: true, span })
    } else if starts_with(e, "@"@) {
        let rest = e.skip(1);
        let id = ident_end(rest);
        let entity = rest.take(id as int);
        let after = trim(rest.skip(id as int));
        if starts_with(after, "not in "@) {
            Some(CondV::Containment { entity_ref: entity, container_ref: trim(after.skip(7)), negated: true, bare: true, span })
        } else if starts_with(after, "in "@) {
            Some(CondV::Containment { entity_ref: entity, container_ref: trim(after.skip(3)), negated: false, bare: true, span })
        } else if id < rest.len() && rest[id as int] == '.' {
            comparison_from(entity, rest.skip(id as int + 1), span, 0)
        } else {
            None
        }
    } else {
        None
    }
}

fn comparison_op_str(k: usize) -> (s: &'static str)
    requires
        k < 6,
    ensures
        s@ == comparison_op(k as int),
{
    if k == 0 {
        "=="
    } else if k == 1 {
        "!="
    } else if k == 2 {
        ">="
    } else if k == 3 {
        "<="
    } else if k == 4 {
        ">"
    } else {
        "<"
    }
}

fn comparison_exec(entity: &Vec<char>, remaining: &Vec<char>, span: &Span) -> (r: Option<ConditionExpr>)
    ensures
        match r {
            Some(c) => comparison_from(entity@, remaining@, span_view(*span), 0) == Some(cond_view(c)),
            None => comparison_from(entity@, remaining@, span_view(*span), 0) is None,
        },
{
    let mut k: usize = 0;
    while k < 6
        invariant
            k <= 6,
            comparison_from(entity@, remaining@, span_view(*span), 0)
                == comparison_from(entity@, remaining@, span_view(*span), k as int),
        decreases 6 - k,
    {
        let op = comparison_op_str(k);
        proof { lemma_find_bound(remaining@, op@); }
        match find_str(remaining, op) {
            Some(p) => {
                let head = take_chars(remaining, p);
                let property = trim_chars(&head);
                if property.len() > 0 {
                    let opv = chars_of(op);
                    assert(p + opv.len() <= remaining.len());
                    let tail = skip_chars(remaining, p + opv.len());
                    let value = trim_chars(&tail);
                    let c = ConditionExpr::PropertyComparison(PropertyComparison {
                        entity_ref: to_string(entity),
                        property: string_from_chars(property),
                        operator: string_from_chars(opv),
                        value: string_from_chars(value),
                        annotation: None,
                        span: span.clone(),
                    });
                    return Some(c);
                }
            },
            None => {},
        }
        k += 1;
    }
    None
}

/// Parse a condition expression string into a ConditionExpr.
pub fn parse_condition_expr(text: &Vec<char>, span: &Span) -> (r: Option<ConditionExpr>)
    ensures
        match r {
            Some(c) => cond_expr(text@, span_view(*span)) == Some(cond_view(c)),
            None => cond_expr(text@, span_view(*span)) is None,
        },
{
    let e = trim_chars(text);
    proof {
        reveal_strlit(".exhausted");
        reveal_strlit("@");
        reveal_strlit("not in ");
        reveal_strlit("in ");
    }
    if chars_end_with(&e, ".exhausted") {
        let name = take_chars(&e, e.len() - 10);
        return Some(ConditionExpr::ExhaustionCheck(ExhaustionCheck {
            section_name: string_from_chars(name),
            annotation: None,
            span: span.clone(),
        }));
    }
    if chars_start_with(&e, "@") {
        let rest = skip_chars(&e, 1);
        let id = ident_end_exec(&rest);
        proof { lemma_ident_end(rest@); }
        let entity = take_chars(&rest, id);
        let after_raw = skip_chars(&rest, id);
        let after = trim_chars(&after_raw);
        if chars_start_with(&after, "not in ") {
            let c = skip_chars(&after, 7);
            return Some(ConditionExpr::ContainmentCheck(ContainmentCheck {
                entity_ref: string_from_chars(entity),
                container_ref: string_from_chars(trim_chars(&c)),
                negated: true,
                annotation: None,
                span: span.clone(),
            }));
        }
        if chars_start_with(&after, "in ") {
            let c = skip_chars(&after, 3);
            return Some(ConditionExpr::ContainmentCheck(ContainmentCheck {
                entity_ref: string_from_chars(entity),
                container_ref: string_from_chars(trim_chars(&c)),
                negated: false,
                annotation: None,
                span: span.clone(),
            }));
        }
        if id < rest.len() && rest[id] == '.' {
            let remaining = skip_chars(&rest, id + 1);
            return comparison_exec(&entity, &remaining, span);
        }
    }
    None
}

// ── Effect types ──

/// The assignment operators, tried in this order.
pub open spec fn assign_op(k: int) -> Seq<char> {
    if k == 0 { " = "@ } else if k == 1 { " + "@ } else { " - "@ }
}

pub open spec fn assign_from(text: Seq<char>, k: int) -> EffectV
    decreases 3 - k,
{
    if k >= 3 || k < 0 {
        EffectV::Assign { target_prop: text, operator: "="@, value_expr: Seq::empty() }
    } else {
        match find_seq(text, assign_op(k)) {
            Some(p) => EffectV::Assign {
                target_prop: trim(text.take(p)),
                operator: trim(assign_op(k)),
                value_expr: trim(text.skip(p + 3)),
            },
            None => assign_from(text, k + 1),
        }
    }
}

/// The effect written after `> `.
pub open spec fn effect_type_of(raw: Seq<char>) -> EffectV {
    let t = trim(raw);
    let mv = t.skip(5);
    let mv_at = mv.skip(1);
    if starts_with(t, "move "@) && starts_with(mv, "@"@) && find_seq(mv_at, " -> "@) is Some {
        let p = find_seq(mv_at, " -> "@).unwrap();
        EffectV::Move { entity_ref: trim(mv_at.take(p)), destination_ref: trim(mv_at.skip(p + 4)) }
    } else if starts_with(t, "reveal "@) {
        EffectV::Reveal { target_prop: trim(t.skip(7)) }
    } else if starts_with(t, "destroy "@) {
        let r = trim(t.skip(8));
        EffectV::Destroy { entity_ref: if starts_with(r, "@"@) { r.skip(1) } else { r } }
    } else {
        assign_from(t, 0)
    }
}

fn assign_op_str(k: usize) -> (s: &'static str)
    requires
        k < 3,
    ensures
        s@ == assign_op(k as int),
{
    if k == 0 { " = " } else if k == 1 { " + " } else { " - " }
}

proof fn lemma_trim_spaced(c: char)
    requires
        !crate::text::is_white(c),
    ensures
        trim(seq![' ', c, ' ']) == seq![c],
{
    let o = seq![' ', c, ' '];
    assert(o.drop_first() =~= seq![c, ' ']);
    assert(crate::text::trim_start(seq![c, ' ']) == seq![c, ' ']);
    assert(crate::text::trim_start(o) == seq![c, ' ']);
    assert(seq![c, ' '].drop_last() =~= seq![c]);
    assert(crate::text::trim_end(seq![c]) == seq![c]);
    assert(crate::text::trim_end(seq![c, ' ']) == seq![c]);
}

fn assign_op_token(k: usize) -> (s: &'static str)
    requires
        k < 3,
    ensures
        s@ == trim(assign_op(k as int)),
{
    proof {
        reveal_strlit(" = ");
        reveal_strlit(" + ");
        reveal_strlit(" - ");
        reveal_strlit("=");
        reveal_strlit("+");
        reveal_strlit("-");
        assert(" = "@ =~= seq![' ', '=', ' ']);
        assert(" + "@ =~= seq![' ', '+', ' ']);
        assert(" - "@ =~= seq![' ', '-', ' ']);
        lemma_trim_spaced('=');
        lemma_trim_spaced('+');
        lemma_trim_spaced('-');
        assert("="@ =~= seq!['=']);
        assert("+"@ =~= seq!['+']);
        assert("-"@ =~= seq!['-']);
    }
    if k == 0 { "=" } else if k == 1 { "+" } else { "-" }
}

/// Parse the effect type from the text after `> `.
pub fn parse_effect_type(raw: &Vec<char>) -> (e: EffectType)
    ensures
        effect_type_view(e) == effect_type_of(raw@),
{
    let t = trim_chars(raw);
    proof {
        reveal_strlit("move ");
        reveal_strlit("@");
        reveal_strlit(" -> ");
        reveal_strlit("reveal ");
        reveal_strlit("destroy ");
        reveal_strlit("=");
    }
    if chars_start_with(&t, "move ") {
        let mv = skip_chars(&t, 5);
        if chars_start_with(&mv, "@") {
            let mv_at = skip_chars(&mv, 1);
            proof { lemma_find_bound(mv_at@, " -> "@); }
            if let Some(p) = find_str(&mv_at, " -> ") {
                assert(p + 4 <= mv_at.len());
                let ent = take_chars(&mv_at, p);
                let dest = skip_chars(&mv_at, p + 4);
                return EffectType::Move {
                    entity_ref: string_from_chars(trim_chars(&ent)),
                    destination_ref: string_from_chars(trim_chars(&dest)),
                };
            }
        }
    }
    if chars_start_with(&t, "reveal ") {
        let r = skip_chars(&t, 7);
        return EffectType::Reveal { target_prop: string_from_chars(trim_chars(&r)) };
    }
    if chars_start_with(&t, "destroy ") {
        let r0 = skip_chars(&t, 8);
        let r = trim_chars(&r0);
        let entity = if chars_start_with(&r, "@") { skip_chars(&r, 1) } else { r };
        return EffectType::Destroy { entity_ref: string_from_chars(entity) };
    }
    assert(effect_type_of(raw@) == assign_from(t@, 0));
    let mut k: usize = 0;
    while k < 3
        invariant
            k <= 3,
            effect_type_of(raw@) == assign_from(t@, 0),
            assign_from(t@, 0) == assign_from(t@, k as int),
        decreases 3 - k,
    {
        let op = assign_op_str(k);
        proof {
            lemma_find_bound(t@, op@);
            reveal_strlit(" = ");
            reveal_strlit(" + ");
            reveal_strlit(" - ");
        }
        assert(op@.len() == 3);
        if let Some(p) = find_str(&t, op) {
            assert(p + 3 <= t.len());
            let target = take_chars(&t, p);
            let value = skip_chars(&t, p + 3);
            return EffectType::Assign {
                target_prop: string_from_chars(trim_chars(&target)),
                operator: string_from_chars(chars_of(assign_op_token(k))),
                value_expr: string_from_chars(trim_chars(&value)),
            };
        }
        k += 1;
    }
    EffectType::Assign {
        target_prop: to_string(&t),
        operator: string_from_chars(chars_of("=")),
        value_expr: string_from_chars(Vec::new()),
    }
}

// ── Entity lists ──

/// An entity reference as a list writes it: trimmed, without a leading `@`.
pub open spec fn clean_ref(s: Seq<char>) -> Seq<char> {
    let t = trim(s);
    if starts_with(t, "@"@) { t.skip(1) } else { t }
}

/// The non-empty cleaned references among `pieces`, in order.
pub open spec fn refs_of(pieces: Seq<Seq<char>>) -> Seq<Seq<char>>
    decreases pieces.len(),
{
    if pieces.len() == 0 {
        Seq::empty()
    } else {
        let prev = refs_of(pieces.drop_last());
        let c = clean_ref(pieces.last());
        if c.len() > 0 { prev.push(c) } else { prev }
    }
}

/// `t` without its enclosing brackets when it has both.
pub open spec fn unbracket(t: Seq<char>) -> Seq<char> {
    if starts_with(t, "["@) && ends_with(t, "]"@) && t.len() >= 2 { t.subrange(1, t.len() - 1) } else { t }
}

/// The entity references of a list such as `[@a, @b, @c]`.
pub open spec fn entity_ref_list(text: Seq<char>) -> Seq<Seq<char>> {
    refs_of(split_on(unbracket(trim(text)), ','))
}

fn unbracket_exec(t: &Vec<char>) -> (out: Vec<char>)
    ensures
        out@ == unbracket(t@),
{
    proof {
        reveal_strlit("[");
        reveal_strlit("]");
    }
    if chars_start_with(t, "[") && chars_end_with(t, "]") && t.len() >= 2 {
        slice_chars(t, 1, t.len() - 1)
    } else {
        slice_chars(t, 0, t.len())
    }
}

fn refs_exec(inner: &Vec<char>) -> (out: Vec<String>)
    ensures
        strings_view(out@) == refs_of(split_on(inner@, ',')),
{
    let pieces = split_chars(inner, ',');
    let ghost ps = views(pieces@);
    let mut out: Vec<String> = Vec::new();
    let mut i: usize = 0;
    proof { assert(ps.take(0) =~= Seq::<Seq<char>>::empty()); }
    while i < pieces.len()
        invariant
            ps == views(pieces@),
            ps == split_on(inner@, ','),
            i <= pieces@.len(),
            strings_view(out@) == refs_of(ps.take(i as int)),
        decreases pieces.len() - i,
    {
        proof {
            reveal_strlit("@");
            assert(ps.take(i + 1).drop_last() =~= ps.take(i as int));
            assert(ps.take(i + 1).last() == pieces@[i as int]@);
        }
        let t = trim_chars(&pieces[i]);
        let c = if chars_start_with(&t, "@") { skip_chars(&t, 1) } else { t };
        if c.len() > 0 {
            let ghost before = out@;
            out.push(string_from_chars(c));
            proof { assert(strings_view(out@) =~= strings_view(before).push(c@)); }
        }
        i += 1;
    }
    proof { assert(ps.take(pieces@.len() as int) =~= ps); }
    out
}

/// Parse an entity reference list like `[@a, @b, @c]`.
pub fn parse_entity_ref_list(text: &Vec<char>) -> (out: Vec<String>)
    ensures
        strings_view(out@) == entity_ref_list(text@),
{
    let t = trim_chars(text);
    let inner = unbracket_exec(&t);
    refs_exec(&inner)
}

// ── Line parsers ──

/// What a node parser produces: the node's view, the line after it, the
/// diagnostics it records, and whether a display cut faulted.
pub type Step = (NodeV, int, Seq<PlainDiag>, bool);

/// Line `i` with its tabs replaced.
pub open spec fn proc_line(ls: Seq<LineInfo>, i: int) -> Seq<char> {
    detab(ls[i].text@)
}

/// A line without its indenting spaces.
pub open spec fn rest_of(t: Seq<char>) -> Seq<char> {
    t.skip(lead_spaces(t) as int)
}

/// The indent level of a line: its indenting spaces, two per level.
pub open spec fn indent_of(t: Seq<char>) -> nat {
    lead_spaces(t) / 2
}

pub open spec fn cls(file: Seq<char>, ls: Seq<LineInfo>, i: int) -> SpanV {
    content_line_span_v(file, ls[i])
}

pub open spec fn tabs(file: Seq<char>, ls: Seq<LineInfo>, i: int) -> Seq<PlainDiag> {
    tab_reports(file, ls[i])
}

/// Text without its inline comment and surrounding white space.
pub open spec fn stripped(t: Seq<char>) -> Seq<char> {
    trim(strip_comment(t))
}

/// A node that takes one line, whose tabs were checked once.
pub open spec fn one_line(file: Seq<char>, ls: Seq<LineInfo>, i: int, v: NodeV) -> Step {
    (v, i + 1, tabs(file, ls, i), false)
}

pub open spec fn msg_unrecognised(line: nat, display: Seq<char>) -> Seq<char> {
    "Unrecognised syntax at line "@ + decimal(line) + ": '"@ + display + "'."@
}

/// The URD112 error for line `i`, quoting its trimmed raw text.
pub open spec fn unrecognised(file: Seq<char>, ls: Seq<LineInfo>, i: int) -> PlainDiag {
    (Severity::Error, "URD112"@, msg_unrecognised(ls[i].line_number as nat, display_of(trim(ls[i].text@))), cls(file, ls, i))
}

/// An error node for line `i`, recorded after the diagnostics `pre`.
pub open spec fn error_step(file: Seq<char>, ls: Seq<LineInfo>, i: int, rule: Option<Seq<char>>, pre: Seq<PlainDiag>) -> Step {
    (
        NodeV::ErrorNode { raw_text: ls[i].text@, attempted_rule: rule, span: cls(file, ls, i) },
        i + 1,
        pre.push(unrecognised(file, ls, i)),
        display_fault(trim(ls[i].text@)),
    )
}

pub open spec fn sp_location_heading(file: Seq<char>, ls: Seq<LineInfo>, i: int) -> Step {
    one_line(file, ls, i, NodeV::LocationHeading {
        display_name: stripped(rest_of(proc_line(ls, i)).skip(2)),
        span: cls(file, ls, i),
    })
}

pub open spec fn sp_sequence_heading(file: Seq<char>, ls: Seq<LineInfo>, i: int) -> Step {
    one_line(file, ls, i, NodeV::SequenceHeading {
        display_name: stripped(rest_of(proc_line(ls, i)).skip(3)),
        span: cls(file, ls, i),
    })
}

pub open spec fn sp_phase_heading(file: Seq<char>, ls: Seq<LineInfo>, i: int) -> Step {
    let c = stripped(rest_of(proc_line(ls, i)).skip(4));
    let auto = ends_with(c, "(auto)"@);
    one_line(file, ls, i, NodeV::PhaseHeading {
        display_name: if auto { trim(c.take(c.len() - 6)) } else { c },
        auto,
        span: cls(file, ls, i),
    })
}

pub open spec fn sp_section_label(file: Seq<char>, ls: Seq<LineInfo>, i: int) -> Step {
    one_line(file, ls, i, NodeV::SectionLabel { name: trim(rest_of(proc_line(ls, i)).skip(3)), span: cls(file, ls, i) })
}

pub open spec fn sp_entity_line(file: Seq<char>, ls: Seq<LineInfo>, i: int) -> Step {
    let after_at = rest_of(proc_line(ls, i)).skip(1);
    let id = ident_end(after_at);
    let entity = after_at.take(id as int);
    let remaining = after_at.skip(id as int);
    let span = cls(file, ls, i);
    if id == 0 || ('A' <= after_at[0] && after_at[0] <= 'Z') {
        error_step(file, ls, i, None, tabs(file, ls, i))
    } else if starts_with(remaining, ": "@) || remaining == ":"@ {
        one_line(file, ls, i, NodeV::EntitySpeech {
            entity_ref: entity,
            text: if remaining.len() > 2 { stripped(remaining.skip(2)) } else { Seq::empty() },
            bare: true,
            span,
        })
    } else if starts_with(remaining, " "@) {
        one_line(file, ls, i, NodeV::StageDirection { entity_ref: entity, text: stripped(remaining.skip(1)), bare: true, span })
    } else if remaining.len() == 0 {
        one_line(file, ls, i, NodeV::StageDirection { entity_ref: entity, text: Seq::empty(), bare: true, span })
    } else {
        error_step(file, ls, i, None, tabs(file, ls, i))
    }
}

pub open spec fn sp_condition_line(file: Seq<char>, ls: Seq<LineInfo>, i: int, indent: nat) -> Step {
    let span = cls(file, ls, i);
    match cond_expr(rest_of(proc_line(ls, i)).skip(2), span) {
        Some(e) => one_line(file, ls, i, NodeV::Condition { expr: e, indent_level: indent, span }),
        None => error_step(file, ls, i, Some("ConditionExpr"@), tabs(file, ls, i)),
    }
}

pub open spec fn sp_effect_line(file: Seq<char>, ls: Seq<LineInfo>, i: int, indent: nat) -> Step {
    one_line(file, ls, i, NodeV::Effect {
        effect: (effect_type_of(rest_of(proc_line(ls, i)).skip(2)), indent, true, cls(file, ls, i)),
    })
}

pub open spec fn sp_blocked_message(file: Seq<char>, ls: Seq<LineInfo>, i: int, indent: nat) -> Step {
    one_line(file, ls, i, NodeV::BlockedMessage {
        text: stripped(rest_of(proc_line(ls, i)).skip(2)),
        indent_level: indent,
        span: cls(file, ls, i),
    })
}

pub open spec fn sp_entity_presence(file: Seq<char>, ls: Seq<LineInfo>, i: int) -> Step {
    let refs = refs_of(split_on(unbracket(rest_of(proc_line(ls, i))), ','));
    one_line(file, ls, i, NodeV::EntityPresence {
        entity_refs: refs,
        bare: Seq::new(refs.len(), |j: int| true),
        span: cls(file, ls, i),
    })
}

pub open spec fn sp_line_comment(file: Seq<char>, ls: Seq<LineInfo>, i: int) -> Step {
    let rest = rest_of(proc_line(ls, i));
    one_line(file, ls, i, NodeV::Comment {
        text: if rest.len() > 3 { rest.skip(3) } else { Seq::empty() },
        span: cls(file, ls, i),
    })
}

pub open spec fn sp_prose(file: Seq<char>, ls: Seq<LineInfo>, i: int) -> Step {
    one_line(file, ls, i, NodeV::Prose { text: stripped(rest_of(proc_line(ls, i))), span: cls(file, ls, i) })
}

/// The parser moved as the step describes: same source, the step's next
/// line, its diagnostics appended, its fault recorded.
pub open spec fn stepped(p0: Parser, p1: Parser, d0: Seq<crate::diagnostics::Diagnostic>,
    d1: Seq<crate::diagnostics::Diagnostic>, v: NodeV, sp: Step) -> bool
{
    &&& p1.same_source(p0)
    &&& p1.current_line == sp.1
    &&& v == sp.0
    &&& appended(d1, d0, sp.2)
    &&& p1.slice_fault == (p0.slice_fault || sp.3)
}

/// The line the parser is on, with its tabs replaced (checked by the caller).
pub open spec fn at_line(p: Parser) -> bool {
    p.wf() && p.current_line < p.lines@.len()
}

pub proof fn lemma_append_one(d0: Seq<crate::diagnostics::Diagnostic>, d1: Seq<crate::diagnostics::Diagnostic>, e: PlainDiag)
    requires
        d1.len() == d0.len() + 1,
        d1.drop_last() == d0,
        crate::diagnostics::matches_plain(d1.last(), e),
    ensures
        appended(d1, d0, seq![e]),
{
    assert(d1.take(d0.len() as int) =~= d1.drop_last());
    assert(d1[d0.len() as int] == d1.last());
}

/// Create an ErrorNode for line `line_idx` and emit URD112.
fn make_error_node(parser: &mut Parser, line_idx: usize, attempted_rule: Option<&str>,
    diagnostics: &mut DiagnosticCollector) -> (n: ContentNode)
    requires
        old(parser).wf(),
        line_idx == old(parser).current_line,
        line_idx < old(parser).lines@.len(),
    ensures
        stepped(*old(parser), *final(parser), old(diagnostics)@, final(diagnostics)@, node_view(n),
            error_step(old(parser).file_path@, old(parser).lines@, line_idx as int,
                match attempted_rule { Some(r) => Some(r@), None => None }, Seq::empty())),
        final(parser).wf(),
{
    let ghost ls = parser.lines@;
    let ghost file = parser.file_path@;
    assert(parser.lines@[line_idx as int].text@.len() <= crate::graph::MAX_FILE_SIZE);
    let raw = slice_chars(&parser.lines[line_idx].text, 0, parser.lines[line_idx].text.len());
    let line_num = parser.lines[line_idx].line_number;
    let trimmed = trim_chars(&raw);
    proof {
        crate::text::lemma_trim_start(raw@);
        crate::text::lemma_trim_end(crate::text::trim_start(raw@));
    }
    let (display, fault) = truncate_for_display(&trimmed);
    let span = parser.content_line_span(line_idx);
    let mut m = chars_of("Unrecognised syntax at line ");
    let ln = decimal_chars(line_num as u64);
    push_chars(&mut m, &ln);
    push_str(&mut m, ": '");
    push_chars(&mut m, &display);
    push_str(&mut m, "'.");
    let ghost before = diagnostics@;
    diagnostics.error("URD112", string_from_chars(m), span.clone());
    proof {
        assert(raw@ =~= ls[line_idx as int].text@);
        lemma_append_one(before, diagnostics@, unrecognised(file, ls, line_idx as int));
        assert(Seq::<PlainDiag>::empty().push(unrecognised(file, ls, line_idx as int))
            =~= seq![unrecognised(file, ls, line_idx as int)]);
    }
    parser.current_line += 1;
    if fault {
        parser.slice_fault = true;
    }
    let attempted = match attempted_rule {
        Some(r) => Some(string_from_chars(chars_of(r))),
        None => None,
    };
    ContentNode::ErrorNode(ErrorNode { raw_text: string_from_chars(raw), attempted_rule: attempted, span })
}

/// The current line with its tabs checked and replaced, without its
/// indenting spaces.
fn current_rest(parser: &Parser, diagnostics: &mut DiagnosticCollector) -> (r: Vec<char>)
    requires
        at_line(*parser),
    ensures
        r@ == rest_of(proc_line(parser.lines@, parser.current_line as int)),
        appended(final(diagnostics)@, old(diagnostics)@, tabs(parser.file_path@, parser.lines@, parser.current_line as int)),
{
    let text = parser.check_tabs(parser.current_line, diagnostics);
    let (_, rest) = measure_indent(&text);
    rest
}

fn stripped_chars(t: &Vec<char>) -> (out: Vec<char>)
    ensures
        out@ == stripped(t@),
{
    let s = strip_inline_comment(t);
    trim_chars(&s)
}

fn parse_location_heading(parser: &mut Parser, diagnostics: &mut DiagnosticCollector) -> (n: ContentNode)
    requires
        at_line(*old(parser)),
        starts_with(rest_of(proc_line(old(parser).lines@, old(parser).current_line as int)), "# "@),
    ensures
        final(parser).wf(),
        stepped(*old(parser), *final(parser), old(diagnostics)@, final(diagnostics)@, node_view(n),
            sp_location_heading(old(parser).file_path@, old(parser).lines@, old(parser).current_line as int)),
{
    proof { reveal_strlit("# "); }
    let line_idx = parser.current_line;
    let rest = current_rest(parser, diagnostics);
    let after = skip_chars(&rest, 2);
    let name = stripped_chars(&after);
    let span = parser.content_line_span(line_idx);
    parser.current_line += 1;
    ContentNode::LocationHeading(LocationHeading { display_name: string_from_chars(name), span })
}

fn parse_sequence_heading(parser: &mut Parser, diagnostics: &mut DiagnosticCollector) -> (n: ContentNode)
    requires
        at_line(*old(parser)),
        starts_with(rest_of(proc_line(old(parser).lines@, old(parser).current_line as int)), "## "@),
    ensures
        final(parser).wf(),
        stepped(*old(parser), *final(parser), old(diagnostics)@, final(diagnostics)@, node_view(n),
            sp_sequence_heading(old(parser).file_path@, old(parser).lines@, old(parser).current_line as int)),
{
    proof { reveal_strlit("## "); }
    let line_idx = parser.current_line;
    let rest = current_rest(parser, diagnostics);
    let after = skip_chars(&rest, 3);
    let name = stripped_chars(&after);
    let span = parser.content_line_span(line_idx);
    parser.current_line += 1;
    ContentNode::SequenceHeading(SequenceHeading { display_name: string_from_chars(name), span })
}

fn parse_phase_heading(parser: &mut Parser, diagnostics: &mut DiagnosticCollector) -> (n: ContentNode)
    requires
        at_line(*old(parser)),
        starts_with(rest_of(proc_line(old(parser).lines@, old(parser).current_line as int)), "### "@),
    ensures
        final(parser).wf(),
        stepped(*old(parser), *final(parser), old(diagnostics)@, final(diagnostics)@, node_view(n),
            sp_phase_heading(old(parser).file_path@, old(parser).lines@, old(parser).current_line as int)),
{
    proof {
        reveal_strlit("### ");
        reveal_strlit("(auto)");
    }
    let line_idx = parser.current_line;
    let rest = current_rest(parser, diagnostics);
    let after = skip_chars(&rest, 4);
    let content = stripped_chars(&after);
    let auto = chars_end_with(&content, "(auto)");
    let display_name = if auto {
        let head = take_chars(&content, content.len() - 6);
        trim_chars(&head)
    } else {
        content
    };
    let span = parser.content_line_span(line_idx);
    parser.current_line += 1;
    ContentNode::PhaseHeading(PhaseHeading { display_name: string_from_chars(display_name), auto, span })
}

fn parse_section_label(parser: &mut Parser, diagnostics: &mut DiagnosticCollector) -> (n: ContentNode)
    requires
        at_line(*old(parser)),
        starts_with(rest_of(proc_line(old(parser).lines@, old(parser).current_line as int)), "== "@),
    ensures
        final(parser).wf(),
        stepped(*old(parser), *final(parser), old(diagnostics)@, final(diagnostics)@, node_view(n),
            sp_section_label(old(parser).file_path@, old(parser).lines@, old(parser).current_line as int)),
{
    proof { reveal_strlit("== "); }
    let line_idx = parser.current_line;
    let rest = current_rest(parser, diagnostics);
    let after = skip_chars(&rest, 3);
    let name = trim_chars(&after);
    let span = parser.content_line_span(line_idx);
    parser.current_line += 1;
    ContentNode::SectionLabel(SectionLabel { name: string_from_chars(name), span })
}

fn parse_entity_line(parser: &mut Parser, diagnostics: &mut DiagnosticCollector) -> (n: ContentNode)
    requires
        at_line(*old(parser)),
        starts_with(rest_of(proc_line(old(parser).lines@, old(parser).current_line as int)), "@"@),
    ensures
        final(parser).wf(),
        stepped(*old(parser), *final(parser), old(diagnostics)@, final(diagnostics)@, node_view(n),
            sp_entity_line(old(parser).file_path@, old(parser).lines@, old(parser).current_line as int)),
{
    proof {
        reveal_strlit("@");
        reveal_strlit(": ");
        reveal_strlit(":");
        reveal_strlit(" ");
    }
    let ghost d0 = diagnostics@;
    let line_idx = parser.current_line;
    let rest = current_rest(parser, diagnostics);
    let after_at = skip_chars(&rest, 1);
    let id_end = ident_end_exec(&after_at);
    proof { lemma_ident_end(after_at@); }
    if id_end == 0 || ('A' <= after_at[0] && after_at[0] <= 'Z') {
        let ghost d1 = diagnostics@;
        let n = make_error_node(parser, line_idx, None, diagnostics);
        proof { lemma_appended_trans(d0, d1, diagnostics@, tabs(parser.file_path@, parser.lines@, line_idx as int),
            Seq::<PlainDiag>::empty().push(unrecognised(parser.file_path@, parser.lines@, line_idx as int))); }
        return n;
    }
    let entity = take_chars(&after_at, id_end);
    let remaining = skip_chars(&after_at, id_end);
    let is_colon = remaining.len() == 1 && remaining[0] == ':';
    proof {
        assert(is_colon == (remaining@ == ":"@)) by {
            if is_colon { assert(remaining@ =~= ":"@); }
        }
    }
    if chars_start_with(&remaining, ": ") || is_colon {
        let text = if remaining.len() > 2 {
            let t = skip_chars(&remaining, 2);
            stripped_chars(&t)
        } else {
            Vec::new()
        };
        let span = parser.content_line_span(line_idx);
        parser.current_line += 1;
        return ContentNode::EntitySpeech(EntitySpeech {
            entity_ref: string_from_chars(entity),
            text: string_from_chars(text),
            annotation: None,
            span,
        });
    }
    if chars_start_with(&remaining, " ") {
        let t = skip_chars(&remaining, 1);
        let text = stripped_chars(&t);
        let span = parser.content_line_span(line_idx);
        parser.current_line += 1;
        return ContentNode::StageDirection(StageDirection {
            entity_ref: string_from_chars(entity),
            text: string_from_chars(text),
            annotation: None,
            span,
        });
    }
    if remaining.len() == 0 {
        let span = parser.content_line_span(line_idx);
        parser.current_line += 1;
        return ContentNode::StageDirection(StageDirection {
            entity_ref: string_from_chars(entity),
            text: string_from_chars(Vec::new()),
            annotation: None,
            span,
        });
    }
    let ghost d1 = diagnostics@;
    let n = make_error_node(parser, line_idx, None, diagnostics);
    proof { lemma_appended_trans(d0, d1, diagnostics@, tabs(parser.file_path@, parser.lines@, line_idx as int),
        Seq::<PlainDiag>::empty().push(unrecognised(parser.file_path@, parser.lines@, line_idx as int))); }
    n
}

fn parse_condition_line(parser: &mut Parser, indent_level: usize, diagnostics: &mut DiagnosticCollector) -> (n: ContentNode)
    requires
        at_line(*old(parser)),
        starts_with(rest_of(proc_line(old(parser).lines@, old(parser).current_line as int)), "? "@),
    ensures
        final(parser).wf(),
        stepped(*old(parser), *final(parser), old(diagnostics)@, final(diagnostics)@, node_view(n),
            sp_condition_line(old(parser).file_path@, old(parser).lines@, old(parser).current_line as int, indent_level as nat)),
{
    proof { reveal_strlit("? "); }
    let ghost d0 = diagnostics@;
    let ghost ls = parser.lines@;
    let ghost file = parser.file_path@;
    let line_idx = parser.current_line;
    let rest = current_rest(parser, diagnostics);
    let after = skip_chars(&rest, 2);
    let span = parser.content_line_span(line_idx);
    match parse_condition_expr(&after, &span) {
        Some(expr) => {
            parser.current_line += 1;
            ContentNode::Condition(Condition { expr, indent_level, span })
        },
        None => {
            let ghost d1 = diagnostics@;
            let n = make_error_node(parser, line_idx, Some("ConditionExpr"), diagnostics);
            proof {
                lemma_appended_trans(d0, d1, diagnostics@, tabs(file, ls, line_idx as int),
                    Seq::<PlainDiag>::empty().push(unrecognised(file, ls, line_idx as int)));
                assert(tabs(file, ls, line_idx as int) + Seq::<PlainDiag>::empty().push(unrecognised(file, ls, line_idx as int))
                    =~= tabs(file, ls, line_idx as int).push(unrecognised(file, ls, line_idx as int)));
            }
            n
        },
    }
}

fn parse_effect_line(parser: &mut Parser, indent_level: usize, diagnostics: &mut DiagnosticCollector) -> (n: ContentNode)
    requires
        at_line(*old(parser)),
        starts_with(rest_of(proc_line(old(parser).lines@, old(parser).current_line as int)), "> "@),
    ensures
        final(parser).wf(),
        stepped(*old(parser), *final(parser), old(diagnostics)@, final(diagnostics)@, node_view(n),
            sp_effect_line(old(parser).file_path@, old(parser).lines@, old(parser).current_line as int, indent_level as nat)),
{
    proof { reveal_strlit("> "); }
    let line_idx = parser.current_line;
    let rest = current_rest(parser, diagnostics);
    let after = skip_chars(&rest, 2);
    let span = parser.content_line_span(line_idx);
    parser.current_line += 1;
    let effect_type = parse_effect_type(&after);
    ContentNode::Effect(Effect { effect_type, indent_level, annotation: None, span })
}

fn parse_blocked_message(parser: &mut Parser, indent_level: usize, diagnostics: &mut DiagnosticCollector) -> (n: ContentNode)
    requires
        at_line(*old(parser)),
        starts_with(rest_of(proc_line(old(parser).lines@, old(parser).current_line as int)), "! "@),
    ensures
        final(parser).wf(),
        stepped(*old(parser), *final(parser), old(diagnostics)@, final(diagnostics)@, node_view(n),
            sp_blocked_message(old(parser).file_path@, old(parser).lines@, old(parser).current_line as int, indent_level as nat)),
{
    proof { reveal_strlit("! "); }
    let line_idx = parser.current_line;
    let rest = current_rest(parser, diagnostics);
    let after = skip_chars(&rest, 2);
    let text = stripped_chars(&after);
    let span = parser.content_line_span(line_idx);
    parser.current_line += 1;
    ContentNode::BlockedMessage(BlockedMessage { text: string_from_chars(text), indent_level, span })
}

fn parse_entity_presence(parser: &mut Parser, diagnostics: &mut DiagnosticCollector) -> (n: ContentNode)
    requires
        at_line(*old(parser)),
    ensures
        final(parser).wf(),
        stepped(*old(parser), *final(parser), old(diagnostics)@, final(diagnostics)@, node_view(n),
            sp_entity_presence(old(parser).file_path@, old(parser).lines@, old(parser).current_line as int)),
{
    let line_idx = parser.current_line;
    let rest = current_rest(parser, diagnostics);
    let span = parser.content_line_span(line_idx);
    parser.current_line += 1;
    let inner = unbracket_exec(&rest);
    let entity_refs = refs_exec(&inner);
    let mut annotations: Vec<Option<Annotation>> = Vec::new();
    let mut k: usize = 0;
    while k < entity_refs.len()
        invariant
            k <= entity_refs@.len(),
            annotations@.len() == k,
            forall|j: int| 0 <= j < k ==> (#[trigger] annotations@[j]) is None,
        decreases entity_refs.len() - k,
    {
        annotations.push(None);
        k += 1;
    }
    proof {
        assert(annotations@.map_values(|a: Option<Annotation>| a is None)
            =~= Seq::new(strings_view(entity_refs@).len(), |j: int| true));
    }
    ContentNode::EntityPresence(EntityPresence { entity_refs, annotations, span })
}

fn parse_line_comment(parser: &mut Parser, diagnostics: &mut DiagnosticCollector) -> (n: ContentNode)
    requires
        at_line(*old(parser)),
    ensures
        final(parser).wf(),
        stepped(*old(parser), *final(parser), old(diagnostics)@, final(diagnostics)@, node_view(n),
            sp_line_comment(old(parser).file_path@, old(parser).lines@, old(parser).current_line as int)),
{
    let line_idx = parser.current_line;
    let rest = current_rest(parser, diagnostics);
    let text = if rest.len() > 3 { skip_chars(&rest, 3) } else { Vec::new() };
    let span = parser.content_line_span(line_idx);
    parser.current_line += 1;
    ContentNode::Comment(Comment { text: string_from_chars(text), span })
}

fn parse_prose(parser: &mut Parser, diagnostics: &mut DiagnosticCollector) -> (n: ContentNode)
    requires
        at_line(*old(parser)),
    ensures
        final(parser).wf(),
        stepped(*old(parser), *final(parser), old(diagnostics)@, final(diagnostics)@, node_view(n),
            sp_prose(old(parser).file_path@, old(parser).lines@, old(parser).current_line as int)),
{
    let line_idx = parser.current_line;
    let rest = current_rest(parser, diagnostics);
    let text = stripped_chars(&rest);
    let span = parser.content_line_span(line_idx);
    parser.current_line += 1;
    ContentNode::Prose(Prose { text: string_from_chars(text), span })
}

// ── Block structure ──

/// What a run of nodes produces: the nodes' views, the line after the run,
/// the diagnostics recorded, and whether a display cut faulted.
pub type RunV = (Seq<NodeV>, int, Seq<PlainDiag>, bool);

/// A line holding only white space.
pub open spec fn blank(t: Seq<char>) -> bool {
    trim(t).len() == 0
}

pub open spec fn opt_cond(e: Option<CondV>) -> Seq<CondV> {
    match e {
        Some(c) => seq![c],
        None => Seq::empty(),
    }
}

/// The children of an exit declared at `exit_indent`: the condition and
/// blocked-message lines indented deeper than it, from line `cur` on.
pub open spec fn sp_exit_children(file: Seq<char>, ls: Seq<LineInfo>, cur: int, exit_indent: nat) -> RunV
    decreases ls.len() - cur,
{
    if cur < 0 || cur >= ls.len() {
        (Seq::empty(), cur, Seq::empty(), false)
    } else if blank(ls[cur].text@) {
        sp_exit_children(file, ls, cur + 1, exit_indent)
    } else {
        let t = proc_line(ls, cur);
        let ind = indent_of(t);
        let rest = rest_of(t);
        if ind <= exit_indent {
            (Seq::empty(), cur, tabs(file, ls, cur), false)
        } else if starts_with(rest, "? "@) || starts_with(rest, "! "@) {
            let c = if starts_with(rest, "? "@) {
                sp_condition_line(file, ls, cur, ind)
            } else {
                sp_blocked_message(file, ls, cur, ind)
            };
            let r = sp_exit_children(file, ls, cur + 1, exit_indent);
            (seq![c.0] + r.0, r.1, tabs(file, ls, cur) + c.2 + r.2, c.3 || r.3)
        } else {
            (Seq::empty(), cur, tabs(file, ls, cur), false)
        }
    }
}

pub open spec fn has_char(s: Seq<char>, c: char) -> bool {
    first_char_index(s, c) is Some
}

/// `-> direction: Destination` declares an exit; `-> exit:name` and
/// `-> name` jump.
pub open spec fn sp_arrow_line(file: Seq<char>, ls: Seq<LineInfo>, i: int, indent: nat) -> Step {
    let after = rest_of(proc_line(ls, i)).skip(3);
    let span = cls(file, ls, i);
    let colon = find_seq(after, ": "@);
    if colon is Some && after.take(colon.unwrap()) != "exit"@ && !has_char(after.take(colon.unwrap()), ':') {
        let c = colon.unwrap();
        let ch = sp_exit_children(file, ls, i + 1, indent);
        (
            NodeV::ExitDeclaration {
                direction: trim(after.take(c)),
                destination: trim(after.skip(c + 2)),
                children: ch.0,
                bare: true,
                span,
            },
            ch.1,
            tabs(file, ls, i) + ch.2,
            ch.3,
        )
    } else if starts_with(after, "exit:"@) {
        one_line(file, ls, i, NodeV::Jump {
            target: trim(after.skip(5)), is_exit_qualified: true, indent_level: indent, bare: true, span,
        })
    } else {
        one_line(file, ls, i, NodeV::Jump {
            target: trim(after), is_exit_qualified: false, indent_level: indent, bare: true, span,
        })
    }
}

/// The bare condition lines of a `? any:` block, from line `cur` on: a
/// blank line or one not indented deeper than the block ends it.
pub open spec fn sp_or_lines(file: Seq<char>, ls: Seq<LineInfo>, cur: int, indent: nat)
    -> (Seq<CondV>, int, Seq<PlainDiag>)
    decreases ls.len() - cur,
{
    if cur < 0 || cur >= ls.len() || blank(ls[cur].text@) {
        (Seq::empty(), cur, Seq::empty())
    } else {
        let t = proc_line(ls, cur);
        if indent_of(t) <= indent {
            (Seq::empty(), cur, tabs(file, ls, cur))
        } else {
            let e = cond_expr(rest_of(t), line_span_v(file, ls[cur]));
            let r = sp_or_lines(file, ls, cur + 1, indent);
            (opt_cond(e) + r.0, r.1, tabs(file, ls, cur) + r.2)
        }
    }
}

pub open spec fn sp_or_block(file: Seq<char>, ls: Seq<LineInfo>, i: int, indent: nat) -> Step {
    let r = sp_or_lines(file, ls, i + 1, indent);
    let span = if r.1 > i + 1 { content_span_lines_v(file, ls[i], ls[r.1 - 1]) } else { cls(file, ls, i) };
    (NodeV::OrConditionBlock { conditions: r.0, indent_level: indent, span }, r.1, r.2, false)
}

/// The where clauses that follow a `selects` line.
pub open spec fn sp_select_where(file: Seq<char>, ls: Seq<LineInfo>, cur: int, rule_indent: nat)
    -> (Seq<CondV>, int, Seq<PlainDiag>)
    decreases ls.len() - cur,
{
    if cur < 0 || cur >= ls.len() || blank(ls[cur].text@) {
        (Seq::empty(), cur, Seq::empty())
    } else {
        let t = proc_line(ls, cur);
        let wr = rest_of(t);
        if indent_of(t) <= rule_indent {
            (Seq::empty(), cur, tabs(file, ls, cur))
        } else if starts_with(wr, "where "@) {
            let e = cond_expr(wr.skip(6), line_span_v(file, ls[cur]));
            let r = sp_select_where(file, ls, cur + 1, rule_indent);
            (opt_cond(e) + r.0, r.1, tabs(file, ls, cur) + r.2)
        } else {
            (Seq::empty(), cur, tabs(file, ls, cur))
        }
    }
}

/// The parts of a rule collected so far: actor, trigger, select clause,
/// where clauses, effects.
pub type RuleV = (Seq<char>, Seq<char>, Option<SelectV>, Seq<CondV>, Seq<EffectLineV>);

/// The actor line `actor: @entity trigger` sets the actor and, when a
/// trigger follows, the trigger.
pub open spec fn with_actor(st: RuleV, after: Seq<char>) -> RuleV {
    if starts_with(after, "@"@) {
        let aa = after.skip(1);
        match first_char_index(aa, ' ') {
            Some(sp) => (aa.take(sp), trim(aa.skip(sp + 1)), st.2, st.3, st.4),
            None => (aa, st.1, st.2, st.3, st.4),
        }
    } else {
        st
    }
}

/// The body lines of a rule, from line `cur` on.
pub open spec fn sp_rule_body(file: Seq<char>, ls: Seq<LineInfo>, cur: int, rule_indent: nat, st: RuleV)
    -> (RuleV, int, Seq<PlainDiag>, bool)
    decreases ls.len() - cur,
{
    if cur < 0 || cur >= ls.len() || blank(ls[cur].text@) {
        (st, cur, Seq::empty(), false)
    } else {
        let t = proc_line(ls, cur);
        let bi = indent_of(t);
        let br = rest_of(t);
        let body_span = line_span_v(file, ls[cur]);
        if bi <= rule_indent {
            (st, cur, tabs(file, ls, cur), false)
        } else if starts_with(br, "actor:"@) {
            let r = sp_rule_body(file, ls, cur + 1, rule_indent, with_actor(st, trim(br.skip(6))));
            (r.0, r.1, tabs(file, ls, cur) + r.2, r.3)
        } else if starts_with(br, "selects "@) && find_seq(br, " from "@) is Some {
            let f = find_seq(br, " from "@).unwrap();
            let variable = if f >= 8 { trim(br.subrange(8, f)) } else { Seq::empty() };
            let refs = entity_ref_list(br.skip(f + 6));
            let sw = sp_select_where(file, ls, cur + 1, rule_indent);
            let st2 = (st.0, st.1, Some((variable, refs, sw.0, body_span)), st.3, st.4);
            if cur < sw.1 <= ls.len() {
                let r = sp_rule_body(file, ls, sw.1, rule_indent, st2);
                (r.0, r.1, tabs(file, ls, cur) + sw.2 + r.2, f < 8 || r.3)
            } else {
                (st2, sw.1, tabs(file, ls, cur) + sw.2, f < 8)
            }
        } else if starts_with(br, "where "@) {
            let e = cond_expr(br.skip(6), body_span);
            let r = sp_rule_body(file, ls, cur + 1, rule_indent, (st.0, st.1, st.2, st.3 + opt_cond(e), st.4));
            (r.0, r.1, tabs(file, ls, cur) + r.2, r.3)
        } else if starts_with(br, "> "@) {
            let eff = (effect_type_of(br.skip(2)), bi, true, body_span);
            let r = sp_rule_body(file, ls, cur + 1, rule_indent, (st.0, st.1, st.2, st.3, st.4.push(eff)));
            (r.0, r.1, tabs(file, ls, cur) + r.2, r.3)
        } else {
            let r = sp_rule_body(file, ls, cur + 1, rule_indent, st);
            (r.0, r.1, tabs(file, ls, cur) + r.2, r.3)
        }
    }
}

pub open spec fn empty_rule() -> RuleV {
    (Seq::empty(), Seq::empty(), None, Seq::empty(), Seq::empty())
}

pub open spec fn sp_rule_block(file: Seq<char>, ls: Seq<LineInfo>, i: int) -> Step {
    let t = proc_line(ls, i);
    let rest = rest_of(t);
    let b = sp_rule_body(file, ls, i + 1, indent_of(t), empty_rule());
    let last = if b.1 - 1 > i { b.1 - 1 } else { i };
    (
        NodeV::RuleBlock {
            name: trim(rest.subrange(5, rest.len() - 1)),
            actor: b.0.0,
            trigger: b.0.1,
            select: b.0.2,
            where_clauses: b.0.3,
            effects: b.0.4,
            span: content_span_lines_v(file, ls[i], ls[last]),
        },
        b.1,
        tabs(file, ls, i) + b.2,
        b.3,
    )
}

/// The label, target and target type of a choice line's text after its sigil.
pub open spec fn choice_parts(after: Seq<char>) -> (Seq<char>, Option<Seq<char>>, Option<Seq<char>>) {
    match find_seq(after, " -> "@) {
        Some(p) => {
            let label = stripped(after.take(p));
            let tt = trim(after.skip(p + 4));
            if starts_with(tt, "@"@) {
                (label, Some(tt.skip(1)), None)
            } else if starts_with(tt, "any "@) {
                (label, None, Some(trim(tt.skip(4))))
            } else {
                (label, Some(tt), None)
            }
        },
        None => (stripped(after), None, None),
    }
}

/// The label a choice line shows (empty labels are errors).
pub open spec fn choice_label(after: Seq<char>) -> Seq<char> {
    choice_parts(after).0
}

/// A malformed heading sigil or condition sigil.
pub open spec fn rejected(rest: Seq<char>) -> bool {
    ||| starts_with(rest, "#"@) && !starts_with(rest, "# "@) && !starts_with(rest, "## "@) && !starts_with(rest, "### "@)
    ||| starts_with(rest, "?"@) && !starts_with(rest, "? "@) && !starts_with(rest, "? any:"@)
}

/// The nodes from line `cur` on, for content nested at `min_indent` or
/// deeper (0: top level): blank lines are skipped; a shallower line ends
/// the run.
pub open spec fn sp_content(file: Seq<char>, ls: Seq<LineInfo>, cur: int, min_indent: nat) -> RunV
    decreases ls.len() - cur, 2int,
{
    if cur < 0 || cur >= ls.len() {
        (Seq::empty(), cur, Seq::empty(), false)
    } else if blank(ls[cur].text@) {
        sp_content(file, ls, cur + 1, min_indent)
    } else {
        let ind = indent_of(proc_line(ls, cur));
        if min_indent > 0 && ind < min_indent {
            (Seq::empty(), cur, tabs(file, ls, cur), false)
        } else {
            let b = sp_block(file, ls, cur, ind);
            if cur < b.1 <= ls.len() {
                let r = sp_content(file, ls, b.1, min_indent);
                (seq![b.0] + r.0, r.1, tabs(file, ls, cur) + b.2 + r.2, b.3 || r.3)
            } else {
                (seq![b.0], b.1, tabs(file, ls, cur) + b.2, b.3)
            }
        }
    }
}

/// The node that line `i` (at indent level `ind`) starts: rules are
/// tried in order, prose last.
pub open spec fn sp_block(file: Seq<char>, ls: Seq<LineInfo>, i: int, ind: nat) -> Step
    decreases ls.len() - i, 1int,
{
    if i < 0 || i >= ls.len() {
        (NodeV::Prose { text: Seq::empty(), span: cls(file, ls, i) }, i + 1, Seq::empty(), false)
    } else {
        let rest = rest_of(proc_line(ls, i));
        if starts_with(rest, "? any:"@) {
            sp_or_block(file, ls, i, ind)
        } else if starts_with(rest, "rule "@) && ends_with(rest, ":"@) {
            sp_rule_block(file, ls, i)
        } else if starts_with(rest, "### "@) {
            sp_phase_heading(file, ls, i)
        } else if starts_with(rest, "## "@) {
            sp_sequence_heading(file, ls, i)
        } else if starts_with(rest, "# "@) {
            sp_location_heading(file, ls, i)
        } else if starts_with(rest, "== "@) {
            sp_section_label(file, ls, i)
        } else if starts_with(rest, "@"@) && !starts_with(rest, "[@"@) {
            sp_entity_line(file, ls, i)
        } else if starts_with(rest, "-> "@) {
            sp_arrow_line(file, ls, i, ind)
        } else if starts_with(rest, "? "@) {
            sp_condition_line(file, ls, i, ind)
        } else if starts_with(rest, "> "@) {
            sp_effect_line(file, ls, i, ind)
        } else if starts_with(rest, "* "@) || starts_with(rest, "+ "@) {
            if choice_label(rest.skip(2)).len() == 0 {
                error_step(file, ls, i, None, Seq::empty())
            } else {
                sp_choice(file, ls, i, ind)
            }
        } else if starts_with(rest, "! "@) {
            sp_blocked_message(file, ls, i, ind)
        } else if starts_with(rest, "[@"@) {
            sp_entity_presence(file, ls, i)
        } else if starts_with(rest, "// "@) || rest == "//"@ {
            sp_line_comment(file, ls, i)
        } else if rejected(rest) {
            error_step(file, ls, i, None, Seq::empty())
        } else {
            sp_prose(file, ls, i)
        }
    }
}

/// A choice line and the content nested under it (one level deeper).
pub open spec fn sp_choice(file: Seq<char>, ls: Seq<LineInfo>, i: int, ind: nat) -> Step
    decreases ls.len() - i, 0int,
{
    if i < 0 || i >= ls.len() {
        (NodeV::Prose { text: Seq::empty(), span: cls(file, ls, i) }, i + 1, Seq::empty(), false)
    } else {
        let rest = rest_of(proc_line(ls, i));
        let parts = choice_parts(rest.skip(2));
        let c = sp_content(file, ls, i + 1, ind + 1);
        (
            NodeV::Choice {
                sticky: starts_with(rest, "+"@),
                label: parts.0,
                target: parts.1,
                target_type: parts.2,
                content: c.0,
                indent_level: ind,
                bare: true,
                span: cls(file, ls, i),
            },
            c.1,
            tabs(file, ls, i) + c.2,
            c.3,
        )
    }
}

/// The parser moved through a run as `r` describes.
pub open spec fn ran(p0: Parser, p1: Parser, d0: Seq<crate::diagnostics::Diagnostic>,
    d1: Seq<crate::diagnostics::Diagnostic>, vs: Seq<NodeV>, r: RunV) -> bool
{
    &&& p1.same_source(p0)
    &&& p1.current_line == r.1
    &&& vs == r.0
    &&& appended(d1, d0, r.2)
    &&& p1.slice_fault == (p0.slice_fault || r.3)
}

fn is_blank_line(parser: &Parser, i: usize) -> (b: bool)
    requires
        i < parser.lines@.len(),
    ensures
        b == blank(parser.lines@[i as int].text@),
{
    let t = trim_chars(&parser.lines[i].text);
    t.len() == 0
}

/// Collect children for an ExitDeclaration (Condition and BlockedMessage nodes).
fn parse_exit_children(parser: &mut Parser, exit_indent: usize, diagnostics: &mut DiagnosticCollector)
    -> (children: Vec<ContentNode>)
    requires
        old(parser).wf(),
    ensures
        final(parser).wf(),
        final(parser).current_line >= old(parser).current_line,
        ran(*old(parser), *final(parser), old(diagnostics)@, final(diagnostics)@, nodes_view(children@),
            sp_exit_children(old(parser).file_path@, old(parser).lines@, old(parser).current_line as int, exit_indent as nat)),
{
    let ghost p0 = *parser;
    let ghost d0 = diagnostics@;
    let ghost file = parser.file_path@;
    let ghost ls = parser.lines@;
    let ghost ei = exit_indent as nat;
    let ghost total = sp_exit_children(file, ls, p0.current_line as int, ei);
    let mut children: Vec<ContentNode> = Vec::new();
    let ghost mut done_d: Seq<PlainDiag> = Seq::empty();
    let ghost mut done_f: bool = false;
    proof {
        lemma_appended_empty(d0);
        assert(nodes_view(children@) =~= Seq::<NodeV>::empty());
        assert(Seq::<NodeV>::empty() + total.0 =~= total.0);
        assert(Seq::<PlainDiag>::empty() + total.2 =~= total.2);
    }
    loop
        invariant_except_break
            parser.wf(),
            parser.same_source(p0),
            parser.current_line >= p0.current_line,
            file == p0.file_path@,
            ls == p0.lines@,
            ei == exit_indent as nat,
            total == sp_exit_children(file, ls, p0.current_line as int, ei),
            nodes_view(children@) + sp_exit_children(file, ls, parser.current_line as int, ei).0 == total.0,
            sp_exit_children(file, ls, parser.current_line as int, ei).1 == total.1,
            appended(diagnostics@, d0, done_d),
            done_d + sp_exit_children(file, ls, parser.current_line as int, ei).2 == total.2,
            parser.slice_fault == (p0.slice_fault || done_f),
            (done_f || sp_exit_children(file, ls, parser.current_line as int, ei).3) == total.3,
        ensures
            parser.wf(),
            parser.current_line >= p0.current_line,
            ran(p0, *parser, d0, diagnostics@, nodes_view(children@), total),
        decreases ls.len() - parser.current_line,
    {
        if parser.at_end() {
            proof {
                assert(nodes_view(children@) + Seq::<NodeV>::empty() =~= nodes_view(children@));
                assert(done_d + Seq::<PlainDiag>::empty() =~= done_d);
            }
            break;
        }
        let cur = parser.current_line;
        if is_blank_line(parser, cur) {
            parser.current_line = cur + 1;
            continue;
        }
        let ghost rcur = sp_exit_children(file, ls, cur as int, ei);
        let ghost dt = diagnostics@;
        let processed = parser.check_tabs(cur, diagnostics);
        let (ind, rest) = measure_indent(&processed);
        proof {
            lemma_appended_trans(d0, dt, diagnostics@, done_d, tabs(file, ls, cur as int));
            reveal_strlit("? ");
            reveal_strlit("! ");
            assert(0 <= cur < ls.len());
            assert(!blank(ls[cur as int].text@));
            assert(processed@ == proc_line(ls, cur as int));
            assert(ind == indent_of(proc_line(ls, cur as int)));
            assert(rest@ == rest_of(proc_line(ls, cur as int)));
        }
        if ind <= exit_indent {
            proof {
                assert(rcur.0.len() == 0 && rcur.1 == cur && rcur.2 == tabs(file, ls, cur as int) && !rcur.3);
            }
            proof {
                done_d = done_d + tabs(file, ls, cur as int);
                assert(nodes_view(children@) + Seq::<NodeV>::empty() =~= nodes_view(children@));
                assert(done_d + Seq::<PlainDiag>::empty() =~= done_d);
            }
            break;
        }
        let is_cond = chars_start_with(&rest, "? ");
        let is_blocked = chars_start_with(&rest, "! ");
        if !is_cond && !is_blocked {
            proof {
                assert(rcur.0.len() == 0 && rcur.1 == cur && rcur.2 == tabs(file, ls, cur as int) && !rcur.3);
                done_d = done_d + tabs(file, ls, cur as int);
                assert(nodes_view(children@) + Seq::<NodeV>::empty() =~= nodes_view(children@));
                assert(done_d + Seq::<PlainDiag>::empty() =~= done_d);
            }
            break;
        }
        let ghost dn = diagnostics@;
        let ghost vs = nodes_view(children@);
        let ghost cv = children@;
        let n = if is_cond {
            parse_condition_line(parser, ind, diagnostics)
        } else {
            parse_blocked_message(parser, ind, diagnostics)
        };
        let ghost c = if is_cond { sp_condition_line(file, ls, cur as int, ind as nat) }
            else { sp_blocked_message(file, ls, cur as int, ind as nat) };
        let ghost r = sp_exit_children(file, ls, cur + 1, ei);
        children.push(n);
        proof {
            lemma_nodes_view_push(cv, n);
            lemma_appended_trans(d0, dn, diagnostics@, done_d + tabs(file, ls, cur as int), c.2);
            assert(rcur.0 == seq![c.0] + r.0);
            assert(rcur.1 == r.1 && rcur.2 == tabs(file, ls, cur as int) + c.2 + r.2 && rcur.3 == (c.3 || r.3));
            assert(nodes_view(children@) + r.0 =~= vs + (seq![c.0] + r.0));
            assert((done_d + tabs(file, ls, cur as int) + c.2) + r.2 =~= done_d + rcur.2);
            done_d = done_d + tabs(file, ls, cur as int) + c.2;
            done_f = done_f || c.3;
        }
    }
    children
}

fn parse_arrow_line(parser: &mut Parser, indent_level: usize, diagnostics: &mut DiagnosticCollector) -> (n: ContentNode)
    requires
        at_line(*old(parser)),
        starts_with(rest_of(proc_line(old(parser).lines@, old(parser).current_line as int)), "-> "@),
    ensures
        final(parser).wf(),
        final(parser).current_line > old(parser).current_line,
        stepped(*old(parser), *final(parser), old(diagnostics)@, final(diagnostics)@, node_view(n),
            sp_arrow_line(old(parser).file_path@, old(parser).lines@, old(parser).current_line as int, indent_level as nat)),
{
    proof {
        reveal_strlit("-> ");
        reveal_strlit(": ");
        reveal_strlit("exit");
        reveal_strlit("exit:");
    }
    let ghost d0 = diagnostics@;
    let ghost ls = parser.lines@;
    let ghost file = parser.file_path@;
    let line_idx = parser.current_line;
    let rest = current_rest(parser, diagnostics);
    let after = skip_chars(&rest, 3);
    proof { lemma_find_bound(after@, ": "@); }
    if let Some(c) = find_str(&after, ": ") {
        assert(c + 2 <= after.len());
        let before = take_chars(&after, c);
        let exit_word = chars_of("exit");
        let is_exit = crate::text::chars_equal(&before, &exit_word);
        proof { crate::text::lemma_first_char_index(before@, ':'); }
        if !is_exit && find_char(&before, ':').is_none() {
            let direction = trim_chars(&before);
            let dest_raw = skip_chars(&after, c + 2);
            let destination = trim_chars(&dest_raw);
            let span = parser.content_line_span(line_idx);
            parser.current_line += 1;
            let ghost d1 = diagnostics@;
            let children = parse_exit_children(parser, indent_level, diagnostics);
            proof {
                let ch = sp_exit_children(file, ls, line_idx + 1, indent_level as nat);
                lemma_appended_trans(d0, d1, diagnostics@, tabs(file, ls, line_idx as int), ch.2);
            }
            return ContentNode::ExitDeclaration(ExitDeclaration {
                direction: string_from_chars(direction),
                destination: string_from_chars(destination),
                children,
                annotation: None,
                span,
            });
        }
    }
    let span = parser.content_line_span(line_idx);
    parser.current_line += 1;
    if chars_start_with(&after, "exit:") {
        let t = skip_chars(&after, 5);
        return ContentNode::Jump(Jump {
            target: string_from_chars(trim_chars(&t)),
            is_exit_qualified: true,
            indent_level,
            annotation: None,
            span,
        });
    }
    ContentNode::Jump(Jump {
        target: string_from_chars(trim_chars(&after)),
        is_exit_qualified: false,
        indent_level,
        annotation: None,
        span,
    })
}

proof fn lemma_conds_push(v: Seq<ConditionExpr>, c: ConditionExpr)
    ensures
        conds_view(v.push(c)) == conds_view(v).push(cond_view(c)),
{
    assert(conds_view(v.push(c)) =~= conds_view(v).push(cond_view(c)));
}

proof fn lemma_or_lines_bounds(file: Seq<char>, ls: Seq<LineInfo>, cur: int, indent: nat)
    requires
        0 <= cur <= ls.len(),
    ensures
        cur <= sp_or_lines(file, ls, cur, indent).1 <= ls.len(),
    decreases ls.len() - cur,
{
    if cur < ls.len() && !blank(ls[cur].text@) && indent_of(proc_line(ls, cur)) > indent {
        lemma_or_lines_bounds(file, ls, cur + 1, indent);
    }
}

fn parse_or_condition_block(parser: &mut Parser, indent_level: usize, diagnostics: &mut DiagnosticCollector) -> (n: ContentNode)
    requires
        at_line(*old(parser)),
    ensures
        final(parser).wf(),
        final(parser).current_line > old(parser).current_line,
        stepped(*old(parser), *final(parser), old(diagnostics)@, final(diagnostics)@, node_view(n),
            sp_or_block(old(parser).file_path@, old(parser).lines@, old(parser).current_line as int, indent_level as nat)),
{
    let ghost p0 = *parser;
    let ghost d0 = diagnostics@;
    let ghost file = parser.file_path@;
    let ghost ls = parser.lines@;
    let ghost ind = indent_level as nat;
    let start_line = parser.current_line;
    let span_start = parser.content_line_span(start_line);
    parser.current_line += 1;
    let ghost total = sp_or_lines(file, ls, start_line + 1, ind);
    let mut conditions: Vec<ConditionExpr> = Vec::new();
    let ghost mut done_d: Seq<PlainDiag> = Seq::empty();
    proof {
        lemma_appended_empty(d0);
        assert(conds_view(conditions@) + total.0 =~= total.0);
        assert(done_d + total.2 =~= total.2);
    }
    loop
        invariant_except_break
            parser.wf(),
            parser.same_source(p0),
            parser.slice_fault == p0.slice_fault,
            parser.current_line > start_line,
            start_line == p0.current_line,
            file == p0.file_path@,
            ls == p0.lines@,
            ind == indent_level as nat,
            total == sp_or_lines(file, ls, start_line + 1, ind),
            conds_view(conditions@) + sp_or_lines(file, ls, parser.current_line as int, ind).0 == total.0,
            sp_or_lines(file, ls, parser.current_line as int, ind).1 == total.1,
            appended(diagnostics@, d0, done_d),
            done_d + sp_or_lines(file, ls, parser.current_line as int, ind).2 == total.2,
        ensures
            parser.wf(),
            parser.same_source(p0),
            parser.slice_fault == p0.slice_fault,
            parser.current_line > start_line,
            parser.current_line == total.1,
            conds_view(conditions@) == total.0,
            appended(diagnostics@, d0, total.2),
        decreases ls.len() - parser.current_line,
    {
        if parser.at_end() {
            proof {
                assert(conds_view(conditions@) + Seq::<CondV>::empty() =~= conds_view(conditions@));
                assert(done_d + Seq::<PlainDiag>::empty() =~= done_d);
            }
            break;
        }
        let cur = parser.current_line;
        if is_blank_line(parser, cur) {
            proof {
                assert(conds_view(conditions@) + Seq::<CondV>::empty() =~= conds_view(conditions@));
                assert(done_d + Seq::<PlainDiag>::empty() =~= done_d);
            }
            break;
        }
        let ghost dt = diagnostics@;
        let ghost rcur = sp_or_lines(file, ls, cur as int, ind);
        let processed = parser.check_tabs(cur, diagnostics);
        let (li, rest) = measure_indent(&processed);
        proof {
            lemma_appended_trans(d0, dt, diagnostics@, done_d, tabs(file, ls, cur as int));
            assert(processed@ == proc_line(ls, cur as int));
        }
        if li <= indent_level {
            proof {
                done_d = done_d + tabs(file, ls, cur as int);
                assert(rcur.0.len() == 0 && rcur.1 == cur && rcur.2 == tabs(file, ls, cur as int));
                assert(conds_view(conditions@) + rcur.0 =~= conds_view(conditions@));
                assert(done_d + Seq::<PlainDiag>::empty() =~= done_d);
            }
            break;
        }
        let line_span = parser.line_span(cur);
        let e = parse_condition_expr(&rest, &line_span);
        let ghost r = sp_or_lines(file, ls, cur + 1, ind);
        let ghost cv = conditions@;
        proof {
            assert(rcur.1 == r.1 && rcur.2 == tabs(file, ls, cur as int) + r.2);
        }
        match e {
            Some(c) => {
                conditions.push(c);
                proof {
                    lemma_conds_push(cv, c);
                    assert(rcur.0 == seq![cond_view(c)] + r.0);
                    assert(conds_view(conditions@) + r.0 =~= conds_view(cv) + rcur.0);
                }
            },
            None => {
                proof {
                    assert(rcur.0 == r.0);
                }
            },
        }
        proof {
            assert((done_d + tabs(file, ls, cur as int)) + r.2 =~= done_d + rcur.2);
            done_d = done_d + tabs(file, ls, cur as int);
        }
        parser.current_line = cur + 1;
    }
    let end = parser.current_line;
    let span = if end > start_line + 1 {
        parser.content_span_lines(start_line, end - 1)
    } else {
        span_start
    };
    ContentNode::OrConditionBlock(OrConditionBlock { conditions, indent_level, span })
}

proof fn lemma_select_where_bounds(file: Seq<char>, ls: Seq<LineInfo>, cur: int, ri: nat)
    requires
        0 <= cur <= ls.len(),
    ensures
        cur <= sp_select_where(file, ls, cur, ri).1 <= ls.len(),
    decreases ls.len() - cur,
{
    if cur < ls.len() && !blank(ls[cur].text@) && indent_of(proc_line(ls, cur)) > ri
        && starts_with(rest_of(proc_line(ls, cur)), "where "@) {
        lemma_select_where_bounds(file, ls, cur + 1, ri);
    }
}

/// The `where` lines that follow a `selects` line.
fn parse_select_where(parser: &mut Parser, rule_indent: usize, diagnostics: &mut DiagnosticCollector)
    -> (wheres: Vec<ConditionExpr>)
    requires
        old(parser).wf(),
    ensures
        final(parser).wf(),
        final(parser).same_source(*old(parser)),
        final(parser).slice_fault == old(parser).slice_fault,
        final(parser).current_line >= old(parser).current_line,
        final(parser).current_line == sp_select_where(old(parser).file_path@, old(parser).lines@,
            old(parser).current_line as int, rule_indent as nat).1,
        conds_view(wheres@) == sp_select_where(old(parser).file_path@, old(parser).lines@,
            old(parser).current_line as int, rule_indent as nat).0,
        appended(final(diagnostics)@, old(diagnostics)@, sp_select_where(old(parser).file_path@, old(parser).lines@,
            old(parser).current_line as int, rule_indent as nat).2),
{
    let ghost p0 = *parser;
    let ghost d0 = diagnostics@;
    let ghost file = parser.file_path@;
    let ghost ls = parser.lines@;
    let ghost ri = rule_indent as nat;
    let ghost total = sp_select_where(file, ls, p0.current_line as int, ri);
    let mut wheres: Vec<ConditionExpr> = Vec::new();
    let ghost mut done_d: Seq<PlainDiag> = Seq::empty();
    proof {
        lemma_appended_empty(d0);
        assert(conds_view(wheres@) + total.0 =~= total.0);
        assert(done_d + total.2 =~= total.2);
    }
    loop
        invariant_except_break
            parser.wf(),
            parser.same_source(p0),
            parser.slice_fault == p0.slice_fault,
            parser.current_line >= p0.current_line,
            file == p0.file_path@,
            ls == p0.lines@,
            ri == rule_indent as nat,
            total == sp_select_where(file, ls, p0.current_line as int, ri),
            conds_view(wheres@) + sp_select_where(file, ls, parser.current_line as int, ri).0 == total.0,
            sp_select_where(file, ls, parser.current_line as int, ri).1 == total.1,
            appended(diagnostics@, d0, done_d),
            done_d + sp_select_where(file, ls, parser.current_line as int, ri).2 == total.2,
        ensures
            parser.wf(),
            parser.same_source(p0),
            parser.slice_fault == p0.slice_fault,
            parser.current_line >= p0.current_line,
            parser.current_line == total.1,
            conds_view(wheres@) == total.0,
            appended(diagnostics@, d0, total.2),
        decreases ls.len() - parser.current_line,
    {
        if parser.at_end() || is_blank_line_at(parser) {
            proof {
                assert(conds_view(wheres@) + Seq::<CondV>::empty() =~= conds_view(wheres@));
                assert(done_d + Seq::<PlainDiag>::empty() =~= done_d);
            }
            break;
        }
        let cur = parser.current_line;
        let ghost dt = diagnostics@;
        let ghost rcur = sp_select_where(file, ls, cur as int, ri);
        let processed = parser.check_tabs(cur, diagnostics);
        let (wi, wr) = measure_indent(&processed);
        proof {
            lemma_appended_trans(d0, dt, diagnostics@, done_d, tabs(file, ls, cur as int));
            assert(processed@ == proc_line(ls, cur as int));
            reveal_strlit("where ");
        }
        if wi <= rule_indent || !chars_start_with(&wr, "where ") {
            proof {
                done_d = done_d + tabs(file, ls, cur as int);
                assert(rcur.0.len() == 0 && rcur.1 == cur && rcur.2 == tabs(file, ls, cur as int));
                assert(conds_view(wheres@) + rcur.0 =~= conds_view(wheres@));
                assert(done_d + Seq::<PlainDiag>::empty() =~= done_d);
            }
            break;
        }
        let ws = parser.line_span(cur);
        let cond_text = skip_chars(&wr, 6);
        let e = parse_condition_expr(&cond_text, &ws);
        let ghost r = sp_select_where(file, ls, cur + 1, ri);
        let ghost cv = wheres@;
        proof {
            assert(rcur.1 == r.1 && rcur.2 == tabs(file, ls, cur as int) + r.2);
        }
        match e {
            Some(c) => {
                wheres.push(c);
                proof {
                    lemma_conds_push(cv, c);
                    assert(rcur.0 == seq![cond_view(c)] + r.0);
                    assert(conds_view(wheres@) + r.0 =~= conds_view(cv) + rcur.0);
                }
            },
            None => {
                proof { assert(rcur.0 == r.0); }
            },
        }
        proof {
            assert((done_d + tabs(file, ls, cur as int)) + r.2 =~= done_d + rcur.2);
            done_d = done_d + tabs(file, ls, cur as int);
        }
        parser.current_line = cur + 1;
    }
    wheres
}

fn is_blank_line_at(parser: &Parser) -> (b: bool)
    requires
        parser.current_line < parser.lines@.len(),
    ensures
        b == blank(parser.lines@[parser.current_line as int].text@),
{
    is_blank_line(parser, parser.current_line)
}

pub open spec fn rule_view(actor: Vec<char>, trigger: Vec<char>, select: Option<SelectClause>,
    wheres: Seq<ConditionExpr>, effects: Seq<Effect>) -> RuleV
{
    (actor@, trigger@, select_view(select), conds_view(wheres), effects_view(effects))
}

proof fn lemma_effects_push(v: Seq<Effect>, e: Effect)
    ensures
        effects_view(v.push(e)) == effects_view(v).push(effect_view(e)),
{
    assert(effects_view(v.push(e)) =~= effects_view(v).push(effect_view(e)));
}

proof fn lemma_rule_body_bounds(file: Seq<char>, ls: Seq<LineInfo>, cur: int, ri: nat, st: RuleV)
    requires
        0 <= cur <= ls.len(),
    ensures
        cur <= sp_rule_body(file, ls, cur, ri, st).1 <= ls.len(),
    decreases ls.len() - cur,
{
    if cur < ls.len() && !blank(ls[cur].text@) && indent_of(proc_line(ls, cur)) > ri {
        let br = rest_of(proc_line(ls, cur));
        let body_span = line_span_v(file, ls[cur]);
        if starts_with(br, "actor:"@) {
            lemma_rule_body_bounds(file, ls, cur + 1, ri, with_actor(st, trim(br.skip(6))));
        } else if starts_with(br, "selects "@) && find_seq(br, " from "@) is Some {
            let f = find_seq(br, " from "@).unwrap();
            let variable = if f >= 8 { trim(br.subrange(8, f)) } else { Seq::empty() };
            let refs = entity_ref_list(br.skip(f + 6));
            let sw = sp_select_where(file, ls, cur + 1, ri);
            lemma_select_where_bounds(file, ls, cur + 1, ri);
            let st2 = (st.0, st.1, Some((variable, refs, sw.0, body_span)), st.3, st.4);
            lemma_rule_body_bounds(file, ls, sw.1, ri, st2);
        } else if starts_with(br, "where "@) {
            let e = cond_expr(br.skip(6), body_span);
            lemma_rule_body_bounds(file, ls, cur + 1, ri, (st.0, st.1, st.2, st.3 + opt_cond(e), st.4));
        } else if starts_with(br, "> "@) {
            let eff = (effect_type_of(br.skip(2)), indent_of(proc_line(ls, cur)), true, body_span);
            lemma_rule_body_bounds(file, ls, cur + 1, ri, (st.0, st.1, st.2, st.3, st.4.push(eff)));
        } else {
            lemma_rule_body_bounds(file, ls, cur + 1, ri, st);
        }
    }
}

#[verifier::spinoff_prover]
#[verifier::rlimit(100)]
fn parse_rule_block(parser: &mut Parser, diagnostics: &mut DiagnosticCollector) -> (n: ContentNode)
    requires
        at_line(*old(parser)),
        starts_with(rest_of(proc_line(old(parser).lines@, old(parser).current_line as int)), "rule "@),
        ends_with(rest_of(proc_line(old(parser).lines@, old(parser).current_line as int)), ":"@),
    ensures
        final(parser).wf(),
        final(parser).current_line > old(parser).current_line,
        stepped(*old(parser), *final(parser), old(diagnostics)@, final(diagnostics)@, node_view(n),
            sp_rule_block(old(parser).file_path@, old(parser).lines@, old(parser).current_line as int)),
{
    let ghost p0 = *parser;
    let ghost d0 = diagnostics@;
    let ghost file = parser.file_path@;
    let ghost ls = parser.lines@;
    let start_line = parser.current_line;
    let processed = parser.check_tabs(start_line, diagnostics);
    let (rule_indent, rest) = measure_indent(&processed);
    proof {
        reveal_strlit("rule ");
        reveal_strlit(":");
        assert(rest@.len() > 5) by {
            if rest@.len() == 5 {
                assert(rest@[4] == "rule "@[4]);
                assert(rest@[4] == ":"@[0]);
            }
        }
    }
    let name_raw = slice_chars(&rest, 5, rest.len() - 1);
    let name = trim_chars(&name_raw);
    parser.current_line = start_line + 1;
    let ghost ri = rule_indent as nat;
    let ghost d1 = diagnostics@;
    let ghost total = sp_rule_body(file, ls, start_line + 1, ri, empty_rule());
    let mut actor: Vec<char> = Vec::new();
    let mut trigger: Vec<char> = Vec::new();
    let mut select: Option<SelectClause> = None;
    let mut where_clauses: Vec<ConditionExpr> = Vec::new();
    let mut effects: Vec<Effect> = Vec::new();
    let ghost mut done_d: Seq<PlainDiag> = Seq::empty();
    let ghost mut done_f: bool = false;
    proof {
        lemma_appended_empty(d1);
        assert(rule_view(actor, trigger, select, where_clauses@, effects@) =~= empty_rule());
        assert(done_d + total.2 =~= total.2);
    }
    loop
        invariant_except_break
            parser.wf(),
            parser.same_source(p0),
            parser.current_line > start_line,
            start_line == p0.current_line,
            file == p0.file_path@,
            ls == p0.lines@,
            ri == rule_indent as nat,
            total == sp_rule_body(file, ls, start_line + 1, ri, empty_rule()),
            sp_rule_body(file, ls, parser.current_line as int, ri,
                rule_view(actor, trigger, select, where_clauses@, effects@)).0 == total.0,
            sp_rule_body(file, ls, parser.current_line as int, ri,
                rule_view(actor, trigger, select, where_clauses@, effects@)).1 == total.1,
            appended(diagnostics@, d1, done_d),
            done_d + sp_rule_body(file, ls, parser.current_line as int, ri,
                rule_view(actor, trigger, select, where_clauses@, effects@)).2 == total.2,
            parser.slice_fault == (p0.slice_fault || done_f),
            (done_f || sp_rule_body(file, ls, parser.current_line as int, ri,
                rule_view(actor, trigger, select, where_clauses@, effects@)).3) == total.3,
        ensures
            parser.wf(),
            parser.same_source(p0),
            parser.current_line > start_line,
            parser.current_line == total.1,
            rule_view(actor, trigger, select, where_clauses@, effects@) == total.0,
            appended(diagnostics@, d1, total.2),
            parser.slice_fault == (p0.slice_fault || total.3),
        decreases ls.len() - parser.current_line,
    {
        let ghost st = rule_view(actor, trigger, select, where_clauses@, effects@);
        if parser.at_end() || is_blank_line_at(parser) {
            proof { assert(done_d + Seq::<PlainDiag>::empty() =~= done_d); }
            break;
        }
        let cur = parser.current_line;
        let ghost dt = diagnostics@;
        let ghost rcur = sp_rule_body(file, ls, cur as int, ri, st);
        let body_processed = parser.check_tabs(cur, diagnostics);
        let (body_indent, body_rest) = measure_indent(&body_processed);
        proof {
            lemma_appended_trans(d1, dt, diagnostics@, done_d, tabs(file, ls, cur as int));
            assert(body_processed@ == proc_line(ls, cur as int));
            reveal_strlit("actor:");
            reveal_strlit("selects ");
            reveal_strlit(" from ");
            reveal_strlit("where ");
            reveal_strlit("> ");
            reveal_strlit("@");
        }
        if body_indent <= rule_indent {
            proof {
                done_d = done_d + tabs(file, ls, cur as int);
                assert(done_d + Seq::<PlainDiag>::empty() =~= done_d);
            }
            break;
        }
        let body_span = parser.line_span(cur);
        if chars_start_with(&body_rest, "actor:") {
            let after0 = skip_chars(&body_rest, 6);
            let after = trim_chars(&after0);
            if chars_start_with(&after, "@") {
                let aa = skip_chars(&after, 1);
                proof { crate::text::lemma_first_char_index(aa@, ' '); }
                match find_char(&aa, ' ') {
                    Some(sp) => {
                        assert(sp < aa.len());
                        actor = take_chars(&aa, sp);
                        let t = skip_chars(&aa, sp + 1);
                        trigger = trim_chars(&t);
                    },
                    None => {
                        actor = aa;
                    },
                }
            }
            proof {
                let r = sp_rule_body(file, ls, cur + 1, ri, rule_view(actor, trigger, select, where_clauses@, effects@));
                assert(rule_view(actor, trigger, select, where_clauses@, effects@) == with_actor(st, trim(body_rest@.skip(6))));
                assert((done_d + tabs(file, ls, cur as int)) + r.2 =~= done_d + rcur.2);
                done_d = done_d + tabs(file, ls, cur as int);
            }
            parser.current_line = cur + 1;
            continue;
        }
        if chars_start_with(&body_rest, "selects ") {
            proof { lemma_find_bound(body_rest@, " from "@); }
            if let Some(from_pos) = find_str(&body_rest, " from ") {
                assert(from_pos + 6 <= body_rest.len());
                let variable = if from_pos >= 8 {
                    let v = slice_chars(&body_rest, 8, from_pos);
                    trim_chars(&v)
                } else {
                    parser.slice_fault = true;
                    Vec::new()
                };
                let from_text = skip_chars(&body_rest, from_pos + 6);
                let entity_refs = parse_entity_ref_list(&from_text);
                parser.current_line = cur + 1;
                let ghost ds = diagnostics@;
                let sw = parse_select_where(parser, rule_indent, diagnostics);
                let ghost swv = sp_select_where(file, ls, cur + 1, ri);
                proof { lemma_select_where_bounds(file, ls, cur + 1, ri); }
                select = Some(SelectClause {
                    variable: string_from_chars(variable),
                    entity_refs,
                    where_clauses: sw,
                    span: body_span,
                });
                proof {
                    let st2 = rule_view(actor, trigger, select, where_clauses@, effects@);
                    let r = sp_rule_body(file, ls, swv.1, ri, st2);
                    assert(cur < swv.1 <= ls.len());
                    lemma_appended_trans(d1, ds, diagnostics@, done_d + tabs(file, ls, cur as int), swv.2);
                    assert(rcur.2 == tabs(file, ls, cur as int) + swv.2 + r.2);
                    assert((done_d + tabs(file, ls, cur as int) + swv.2) + r.2 =~= done_d + rcur.2);
                    done_d = done_d + tabs(file, ls, cur as int) + swv.2;
                    done_f = done_f || from_pos < 8;
                }
                continue;
            }
        }
        if chars_start_with(&body_rest, "where ") {
            let cond_text = skip_chars(&body_rest, 6);
            let e = parse_condition_expr(&cond_text, &body_span);
            let ghost wv = where_clauses@;
            match e {
                Some(c) => {
                    where_clauses.push(c);
                    proof {
                        lemma_conds_push(wv, c);
                        assert(conds_view(where_clauses@) =~= conds_view(wv) + opt_cond(Some(cond_view(c))));
                    }
                },
                None => {
                    proof { assert(conds_view(where_clauses@) =~= conds_view(wv) + opt_cond(None)); }
                },
            }
            proof {
                let r = sp_rule_body(file, ls, cur + 1, ri, rule_view(actor, trigger, select, where_clauses@, effects@));
                assert((done_d + tabs(file, ls, cur as int)) + r.2 =~= done_d + rcur.2);
                done_d = done_d + tabs(file, ls, cur as int);
            }
            parser.current_line = cur + 1;
            continue;
        }
        if chars_start_with(&body_rest, "> ") {
            let eff_text = skip_chars(&body_rest, 2);
            let effect_type = parse_effect_type(&eff_text);
            let ghost ev = effects@;
            let e = Effect { effect_type, indent_level: body_indent, annotation: None, span: body_span };
            effects.push(e);
            proof {
                lemma_effects_push(ev, e);
                let r = sp_rule_body(file, ls, cur + 1, ri, rule_view(actor, trigger, select, where_clauses@, effects@));
                assert((done_d + tabs(file, ls, cur as int)) + r.2 =~= done_d + rcur.2);
                done_d = done_d + tabs(file, ls, cur as int);
            }
            parser.current_line = cur + 1;
            continue;
        }
        proof {
            let r = sp_rule_body(file, ls, cur + 1, ri, st);
            assert((done_d + tabs(file, ls, cur as int)) + r.2 =~= done_d + rcur.2);
            done_d = done_d + tabs(file, ls, cur as int);
        }
        parser.current_line = cur + 1;
    }
    let end = parser.current_line;
    let last = if end - 1 > start_line { end - 1 } else { start_line };
    let span = parser.content_span_lines(start_line, last);
    proof {
        lemma_appended_trans(d0, d1, diagnostics@, tabs(file, ls, start_line as int), total.2);
    }
    ContentNode::RuleBlock(RuleBlock {
        name: string_from_chars(name),
        actor: string_from_chars(actor),
        trigger: string_from_chars(trigger),
        select,
        where_clauses,
        effects,
        span,
    })
}

fn choice_parts_exec(after: &Vec<char>) -> (r: (Vec<char>, Option<Vec<char>>, Option<Vec<char>>))
    ensures
        (r.0@, match r.1 { Some(t) => Some(t@), None => None }, match r.2 { Some(t) => Some(t@), None => None })
            == choice_parts(after@),
{
    proof {
        lemma_find_bound(after@, " -> "@);
        reveal_strlit(" -> ");
        reveal_strlit("@");
        reveal_strlit("any ");
    }
    match find_str(after, " -> ") {
        Some(p) => {
            assert(p + 4 <= after.len());
            let head = take_chars(after, p);
            let label = stripped_chars(&head);
            let tail = skip_chars(after, p + 4);
            let tt = trim_chars(&tail);
            if chars_start_with(&tt, "@") {
                (label, Some(skip_chars(&tt, 1)), None)
            } else if chars_start_with(&tt, "any ") {
                let ty = skip_chars(&tt, 4);
                (label, None, Some(trim_chars(&ty)))
            } else {
                (label, Some(tt), None)
            }
        },
        None => (stripped_chars(after), None, None),
    }
}

fn opt_string(v: Option<Vec<char>>) -> (s: Option<String>)
    ensures
        opt_view(s) == match v { Some(t) => Some(t@), None => None::<Seq<char>> },
{
    match v {
        Some(t) => Some(string_from_chars(t)),
        None => None,
    }
}

/// A choice line with its nested content.
fn parse_choice_line(parser: &mut Parser, indent_level: usize, diagnostics: &mut DiagnosticCollector) -> (n: ContentNode)
    requires
        at_line(*old(parser)),
        starts_with(rest_of(proc_line(old(parser).lines@, old(parser).current_line as int)), "* "@)
            || starts_with(rest_of(proc_line(old(parser).lines@, old(parser).current_line as int)), "+ "@),
        indent_level <= crate::graph::MAX_FILE_SIZE,
    ensures
        final(parser).wf(),
        final(parser).current_line > old(parser).current_line,
        stepped(*old(parser), *final(parser), old(diagnostics)@, final(diagnostics)@, node_view(n),
            sp_choice(old(parser).file_path@, old(parser).lines@, old(parser).current_line as int, indent_level as nat)),
    decreases old(parser).lines@.len() - old(parser).current_line, 0int,
{
    proof {
        reveal_strlit("+");
        reveal_strlit("* ");
        reveal_strlit("+ ");
    }
    let ghost d0 = diagnostics@;
    let ghost ls = parser.lines@;
    let ghost file = parser.file_path@;
    let line_idx = parser.current_line;
    let rest = current_rest(parser, diagnostics);
    let sticky = chars_start_with(&rest, "+");
    let after = skip_chars(&rest, 2);
    let (label, target, target_type) = choice_parts_exec(&after);
    let span = parser.content_line_span(line_idx);
    parser.current_line = line_idx + 1;
    let ghost d1 = diagnostics@;
    let content = parse_content(parser, indent_level + 1, diagnostics);
    proof {
        let c = sp_content(file, ls, line_idx + 1, (indent_level + 1) as nat);
        lemma_appended_trans(d0, d1, diagnostics@, tabs(file, ls, line_idx as int), c.2);
    }
    ContentNode::Choice(Choice {
        sticky,
        label: string_from_chars(label),
        target: opt_string(target),
        target_type: opt_string(target_type),
        content,
        indent_level,
        annotation: None,
        span,
    })
}

fn choice_label_exec(after: &Vec<char>) -> (l: Vec<char>)
    ensures
        l@ == choice_label(after@),
{
    let (label, _, _) = choice_parts_exec(after);
    label
}

/// Block dispatch: try each alternative in order.
/// Returns the parsed content node and advances past its lines.
fn parse_block(parser: &mut Parser, rest: &Vec<char>, indent_level: usize, diagnostics: &mut DiagnosticCollector)
    -> (n: ContentNode)
    requires
        at_line(*old(parser)),
        rest@ == rest_of(proc_line(old(parser).lines@, old(parser).current_line as int)),
        indent_level <= crate::graph::MAX_FILE_SIZE,
    ensures
        final(parser).wf(),
        final(parser).current_line > old(parser).current_line,
        stepped(*old(parser), *final(parser), old(diagnostics)@, final(diagnostics)@, node_view(n),
            sp_block(old(parser).file_path@, old(parser).lines@, old(parser).current_line as int, indent_level as nat)),
    decreases old(parser).lines@.len() - old(parser).current_line, 1int,
{
    proof {
        reveal_strlit("? any:");
        reveal_strlit("rule ");
        reveal_strlit(":");
        reveal_strlit("### ");
        reveal_strlit("## ");
        reveal_strlit("# ");
        reveal_strlit("== ");
        reveal_strlit("@");
        reveal_strlit("[@");
        reveal_strlit("-> ");
        reveal_strlit("? ");
        reveal_strlit("> ");
        reveal_strlit("* ");
        reveal_strlit("+ ");
        reveal_strlit("! ");
        reveal_strlit("// ");
        reveal_strlit("//");
        reveal_strlit("#");
        reveal_strlit("?");
    }
    let line_idx = parser.current_line;
    if chars_start_with(rest, "? any:") {
        return parse_or_condition_block(parser, indent_level, diagnostics);
    }
    if chars_start_with(rest, "rule ") && chars_end_with(rest, ":") {
        return parse_rule_block(parser, diagnostics);
    }
    if chars_start_with(rest, "### ") {
        return parse_phase_heading(parser, diagnostics);
    }
    if chars_start_with(rest, "## ") {
        return parse_sequence_heading(parser, diagnostics);
    }
    if chars_start_with(rest, "# ") {
        return parse_location_heading(parser, diagnostics);
    }
    if chars_start_with(rest, "== ") {
        return parse_section_label(parser, diagnostics);
    }
    if chars_start_with(rest, "@") && !chars_start_with(rest, "[@") {
        return parse_entity_line(parser, diagnostics);
    }
    if chars_start_with(rest, "-> ") {
        return parse_arrow_line(parser, indent_level, diagnostics);
    }
    if chars_start_with(rest, "? ") {
        return parse_condition_line(parser, indent_level, diagnostics);
    }
    if chars_start_with(rest, "> ") {
        return parse_effect_line(parser, indent_level, diagnostics);
    }
    if chars_start_with(rest, "* ") || chars_start_with(rest, "+ ") {
        let after = skip_chars(rest, 2);
        let label = choice_label_exec(&after);
        if label.len() == 0 {
            let n = make_error_node(parser, line_idx, None, diagnostics);
            return n;
        }
        return parse_choice_line(parser, indent_level, diagnostics);
    }
    if chars_start_with(rest, "! ") {
        return parse_blocked_message(parser, indent_level, diagnostics);
    }
    if chars_start_with(rest, "[@") {
        return parse_entity_presence(parser, diagnostics);
    }
    let is_bare_comment = rest.len() == 2 && rest[0] == '/' && rest[1] == '/';
    proof {
        assert(is_bare_comment == (rest@ == "//"@)) by {
            if is_bare_comment { assert(rest@ =~= "//"@); }
        }
    }
    if chars_start_with(rest, "// ") || is_bare_comment {
        return parse_line_comment(parser, diagnostics);
    }
    let rejected_heading = chars_start_with(rest, "#") && !chars_start_with(rest, "# ")
        && !chars_start_with(rest, "## ") && !chars_start_with(rest, "### ");
    let rejected_condition = chars_start_with(rest, "?") && !chars_start_with(rest, "? ")
        && !chars_start_with(rest, "? any:");
    if rejected_heading || rejected_condition {
        let n = make_error_node(parser, line_idx, None, diagnostics);
        return n;
    }
    parse_prose(parser, diagnostics)
}

/// Parse narrative content lines starting from `parser.current_line`.
/// `min_indent` is the minimum indent level for content to be parsed
/// as children (used for choice nesting).
pub fn parse_content(parser: &mut Parser, min_indent: usize, diagnostics: &mut DiagnosticCollector)
    -> (nodes: Vec<ContentNode>)
    requires
        old(parser).wf(),
        min_indent <= crate::graph::MAX_FILE_SIZE + 1,
    ensures
        final(parser).wf(),
        final(parser).current_line >= old(parser).current_line,
        ran(*old(parser), *final(parser), old(diagnostics)@, final(diagnostics)@, nodes_view(nodes@),
            sp_content(old(parser).file_path@, old(parser).lines@, old(parser).current_line as int, min_indent as nat)),
    decreases old(parser).lines@.len() - old(parser).current_line, 2int,
{
    let ghost p0 = *parser;
    let ghost d0 = diagnostics@;
    let ghost file = parser.file_path@;
    let ghost ls = parser.lines@;
    let ghost mi = min_indent as nat;
    let ghost total = sp_content(file, ls, p0.current_line as int, mi);
    let mut nodes: Vec<ContentNode> = Vec::new();
    let ghost mut done_d: Seq<PlainDiag> = Seq::empty();
    let ghost mut done_f: bool = false;
    proof {
        lemma_appended_empty(d0);
        assert(nodes_view(nodes@) + total.0 =~= total.0);
        assert(done_d + total.2 =~= total.2);
    }
    loop
        invariant_except_break
            parser.wf(),
            parser.same_source(p0),
            parser.current_line >= p0.current_line,
            file == p0.file_path@,
            ls == p0.lines@,
            p0 == *old(parser),
            mi == min_indent as nat,
            min_indent <= crate::graph::MAX_FILE_SIZE + 1,
            total == sp_content(file, ls, p0.current_line as int, mi),
            nodes_view(nodes@) + sp_content(file, ls, parser.current_line as int, mi).0 == total.0,
            sp_content(file, ls, parser.current_line as int, mi).1 == total.1,
            appended(diagnostics@, d0, done_d),
            done_d + sp_content(file, ls, parser.current_line as int, mi).2 == total.2,
            parser.slice_fault == (p0.slice_fault || done_f),
            (done_f || sp_content(file, ls, parser.current_line as int, mi).3) == total.3,
        ensures
            parser.wf(),
            parser.current_line >= p0.current_line,
            ran(p0, *parser, d0, diagnostics@, nodes_view(nodes@), total),
        decreases ls.len() - parser.current_line,
    {
        if parser.at_end() {
            proof {
                assert(nodes_view(nodes@) + Seq::<NodeV>::empty() =~= nodes_view(nodes@));
                assert(done_d + Seq::<PlainDiag>::empty() =~= done_d);
            }
            break;
        }
        let cur = parser.current_line;
        if is_blank_line(parser, cur) {
            parser.current_line = cur + 1;
            continue;
        }
        let ghost dt = diagnostics@;
        let ghost rcur = sp_content(file, ls, cur as int, mi);
        let processed = parser.check_tabs(cur, diagnostics);
        let (indent_level, rest) = measure_indent(&processed);
        proof {
            lemma_appended_trans(d0, dt, diagnostics@, done_d, tabs(file, ls, cur as int));
            assert(processed@ == proc_line(ls, cur as int));
            crate::parse::lemma_lead_spaces(processed@);
            lemma_detab_len(ls[cur as int].text@);
            assert(ls[cur as int].text@.len() <= crate::graph::MAX_FILE_SIZE);
        }
        if min_indent > 0 && indent_level < min_indent {
            proof {
                done_d = done_d + tabs(file, ls, cur as int);
                assert(rcur.0.len() == 0 && rcur.1 == cur && rcur.2 == tabs(file, ls, cur as int) && !rcur.3);
                assert(nodes_view(nodes@) + rcur.0 =~= nodes_view(nodes@));
                assert(done_d + Seq::<PlainDiag>::empty() =~= done_d);
            }
            break;
        }
        let ghost db = diagnostics@;
        let ghost nv = nodes@;
        let ghost fb = parser.slice_fault;
        let node = parse_block(parser, &rest, indent_level, diagnostics);
        let ghost b = sp_block(file, ls, cur as int, indent_level as nat);
        let ghost r = sp_content(file, ls, b.1, mi);
        nodes.push(node);
        proof {
            lemma_nodes_view_push(nv, node);
            assert(cur < b.1 <= ls.len());
            assert(rcur.0 == seq![b.0] + r.0);
            assert(rcur.1 == r.1 && rcur.2 == tabs(file, ls, cur as int) + b.2 + r.2 && rcur.3 == (b.3 || r.3));
            assert(nodes_view(nodes@) + r.0 =~= nodes_view(nv) + rcur.0);
            lemma_appended_trans(d0, db, diagnostics@, done_d + tabs(file, ls, cur as int), b.2);
            assert((done_d + tabs(file, ls, cur as int) + b.2) + r.2 =~= done_d + rcur.2);
            done_d = done_d + tabs(file, ls, cur as int) + b.2;
            done_f = done_f || b.3;
        }
    }
    nodes
}

pub proof fn lemma_detab_len(s: Seq<char>)
    ensures
        detab(s).len() <= 2 * s.len(),
{
    lemma_detab_from_len(s, true);
}

proof fn lemma_detab_from_len(s: Seq<char>, at: bool)
    ensures
        crate::parse::detab_from(s, at).len() <= 2 * s.len(),
    decreases s.len(),
{
    if s.len() > 0 {
        reveal_strlit("  ");
        reveal_strlit(" ");
        lemma_detab_from_len(s.drop_first(), if s[0] == '\t' { at } else { at && s[0] == ' ' });
    }
}

// ── Laws of the block structure ──

proof fn lemma_exit_children_bounds(file: Seq<char>, ls: Seq<LineInfo>, cur: int, ei: nat)
    requires
        0 <= cur <= ls.len(),
    ensures
        cur <= sp_exit_children(file, ls, cur, ei).1 <= ls.len(),
    decreases ls.len() - cur,
{
    if cur < ls.len() {
        lemma_exit_children_bounds(file, ls, cur + 1, ei);
    }
}

proof fn lemma_block_bounds(file: Seq<char>, ls: Seq<LineInfo>, i: int, ind: nat)
    requires
        0 <= i < ls.len(),
    ensures
        i < sp_block(file, ls, i, ind).1 <= ls.len(),
    decreases ls.len() - i, 1int,
{
    let rest = rest_of(proc_line(ls, i));
    lemma_or_lines_bounds(file, ls, i + 1, ind);
    lemma_rule_body_bounds(file, ls, i + 1, indent_of(proc_line(ls, i)), empty_rule());
    lemma_exit_children_bounds(file, ls, i + 1, ind);
    if (starts_with(rest, "* "@) || starts_with(rest, "+ "@)) && choice_label(rest.skip(2)).len() != 0 {
        lemma_choice_bounds(file, ls, i, ind);
    }
}

proof fn lemma_choice_bounds(file: Seq<char>, ls: Seq<LineInfo>, i: int, ind: nat)
    requires
        0 <= i < ls.len(),
    ensures
        i < sp_choice(file, ls, i, ind).1 <= ls.len(),
    decreases ls.len() - i, 0int,
{
    lemma_content_bounds(file, ls, i + 1, ind + 1);
}

proof fn lemma_content_bounds(file: Seq<char>, ls: Seq<LineInfo>, cur: int, mi: nat)
    requires
        0 <= cur <= ls.len(),
    ensures
        cur <= sp_content(file, ls, cur, mi).1 <= ls.len(),
        mi == 0 ==> sp_content(file, ls, cur, mi).1 == ls.len(),
    decreases ls.len() - cur, 2int,
{
    if cur < ls.len() {
        if blank(ls[cur].text@) {
            lemma_content_bounds(file, ls, cur + 1, mi);
        } else {
            let ind = indent_of(proc_line(ls, cur));
            if !(mi > 0 && ind < mi) {
                lemma_block_bounds(file, ls, cur, ind);
                let b = sp_block(file, ls, cur, ind);
                lemma_content_bounds(file, ls, b.1, mi);
            }
        }
    }
}

/// At the top level the content parser reads to the end of the file:
/// every line from `start` on is consumed by some node or skipped as blank.
pub proof fn lemma_top_level_reaches_end(file: Seq<char>, ls: Seq<LineInfo>, start: int)
    requires
        0 <= start <= ls.len(),
    ensures
        sp_content(file, ls, start, 0).1 == ls.len(),
{
    lemma_content_bounds(file, ls, start, 0);
}

/// Nested content never reads past the end of the file and never goes back.
pub proof fn lemma_content_within_file(file: Seq<char>, ls: Seq<LineInfo>, start: int, min_indent: nat)
    requires
        0 <= start <= ls.len(),
    ensures
        start <= sp_content(file, ls, start, min_indent).1 <= ls.len(),
{
    lemma_content_bounds(file, ls, start, min_indent);
}

/// Every diagnostic is a tab error (URD102) or an unrecognised-syntax
/// error (URD112).
pub open spec fn parse_codes(ds: Seq<PlainDiag>) -> bool {
    forall|k: int| 0 <= k < ds.len() ==> (#[trigger] ds[k]).1 == "URD102"@ || ds[k].1 == "URD112"@
}

proof fn lemma_codes_concat(a: Seq<PlainDiag>, b: Seq<PlainDiag>)
    requires
        parse_codes(a),
        parse_codes(b),
    ensures
        parse_codes(a + b),
{
    assert forall|k: int| 0 <= k < (a + b).len() implies (#[trigger] (a + b)[k]).1 == "URD102"@ || (a + b)[k].1 == "URD112"@ by {
        if k < a.len() {
            assert((a + b)[k] == a[k]);
        } else {
            assert((a + b)[k] == b[k - a.len()]);
        }
    }
}

proof fn lemma_tab_codes(file: Seq<char>, l: LineInfo, n: int)
    ensures
        parse_codes(crate::parse::tab_reports_upto(file, l, n)),
    decreases n,
{
    if n > 0 {
        lemma_tab_codes(file, l, n - 1);
    }
}

proof fn lemma_line_codes(file: Seq<char>, ls: Seq<LineInfo>, i: int)
    ensures
        parse_codes(tabs(file, ls, i)),
        parse_codes(tabs(file, ls, i).push(unrecognised(file, ls, i))),
        parse_codes(seq![unrecognised(file, ls, i)]),
{
    lemma_tab_codes(file, ls[i], ls[i].text@.len() as int);
    assert(tabs(file, ls, i).push(unrecognised(file, ls, i)) =~= tabs(file, ls, i) + seq![unrecognised(file, ls, i)]);
    lemma_codes_concat(tabs(file, ls, i), seq![unrecognised(file, ls, i)]);
}

proof fn lemma_or_codes(file: Seq<char>, ls: Seq<LineInfo>, cur: int, indent: nat)
    ensures
        parse_codes(sp_or_lines(file, ls, cur, indent).2),
    decreases ls.len() - cur,
{
    if 0 <= cur < ls.len() && !blank(ls[cur].text@) {
        lemma_line_codes(file, ls, cur);
        if indent_of(proc_line(ls, cur)) > indent {
            lemma_or_codes(file, ls, cur + 1, indent);
            lemma_codes_concat(tabs(file, ls, cur), sp_or_lines(file, ls, cur + 1, indent).2);
        }
    }
}

proof fn lemma_select_codes(file: Seq<char>, ls: Seq<LineInfo>, cur: int, ri: nat)
    ensures
        parse_codes(sp_select_where(file, ls, cur, ri).2),
    decreases ls.len() - cur,
{
    if 0 <= cur < ls.len() && !blank(ls[cur].text@) {
        lemma_line_codes(file, ls, cur);
        lemma_select_codes(file, ls, cur + 1, ri);
        lemma_codes_concat(tabs(file, ls, cur), sp_select_where(file, ls, cur + 1, ri).2);
    }
}

proof fn lemma_rule_codes(file: Seq<char>, ls: Seq<LineInfo>, cur: int, ri: nat, st: RuleV)
    ensures
        parse_codes(sp_rule_body(file, ls, cur, ri, st).2),
    decreases ls.len() - cur,
{
    if 0 <= cur < ls.len() && !blank(ls[cur].text@) {
        let t = proc_line(ls, cur);
        let br = rest_of(t);
        let body_span = line_span_v(file, ls[cur]);
        lemma_line_codes(file, ls, cur);
        if indent_of(t) > ri {
            if starts_with(br, "actor:"@) {
                let st2 = with_actor(st, trim(br.skip(6)));
                lemma_rule_codes(file, ls, cur + 1, ri, st2);
                lemma_codes_concat(tabs(file, ls, cur), sp_rule_body(file, ls, cur + 1, ri, st2).2);
            } else if starts_with(br, "selects "@) && find_seq(br, " from "@) is Some {
                let f = find_seq(br, " from "@).unwrap();
                let variable = if f >= 8 { trim(br.subrange(8, f)) } else { Seq::empty() };
                let refs = entity_ref_list(br.skip(f + 6));
                let sw = sp_select_where(file, ls, cur + 1, ri);
                let st2 = (st.0, st.1, Some((variable, refs, sw.0, body_span)), st.3, st.4);
                lemma_select_codes(file, ls, cur + 1, ri);
                lemma_codes_concat(tabs(file, ls, cur), sw.2);
                if cur < sw.1 <= ls.len() {
                    lemma_rule_codes(file, ls, sw.1, ri, st2);
                    lemma_codes_concat(tabs(file, ls, cur) + sw.2, sp_rule_body(file, ls, sw.1, ri, st2).2);
                }
            } else if starts_with(br, "where "@) {
                let e = cond_expr(br.skip(6), body_span);
                let st2 = (st.0, st.1, st.2, st.3 + opt_cond(e), st.4);
                lemma_rule_codes(file, ls, cur + 1, ri, st2);
                lemma_codes_concat(tabs(file, ls, cur), sp_rule_body(file, ls, cur + 1, ri, st2).2);
            } else if starts_with(br, "> "@) {
                let eff = (effect_type_of(br.skip(2)), indent_of(t), true, body_span);
                let st2 = (st.0, st.1, st.2, st.3, st.4.push(eff));
                lemma_rule_codes(file, ls, cur + 1, ri, st2);
                lemma_codes_concat(tabs(file, ls, cur), sp_rule_body(file, ls, cur + 1, ri, st2).2);
            } else {
                lemma_rule_codes(file, ls, cur + 1, ri, st);
                lemma_codes_concat(tabs(file, ls, cur), sp_rule_body(file, ls, cur + 1, ri, st).2);
            }
        }
    }
}

proof fn lemma_exit_codes(file: Seq<char>, ls: Seq<LineInfo>, cur: int, ei: nat)
    ensures
        parse_codes(sp_exit_children(file, ls, cur, ei).2),
    decreases ls.len() - cur,
{
    if 0 <= cur < ls.len() {
        if blank(ls[cur].text@) {
            lemma_exit_codes(file, ls, cur + 1, ei);
        } else {
            let t = proc_line(ls, cur);
            let ind = indent_of(t);
            lemma_line_codes(file, ls, cur);
            if ind > ei && (starts_with(rest_of(t), "? "@) || starts_with(rest_of(t), "! "@)) {
                let c = if starts_with(rest_of(t), "? "@) {
                    sp_condition_line(file, ls, cur, ind)
                } else {
                    sp_blocked_message(file, ls, cur, ind)
                };
                lemma_exit_codes(file, ls, cur + 1, ei);
                lemma_codes_concat(tabs(file, ls, cur), c.2);
                lemma_codes_concat(tabs(file, ls, cur) + c.2, sp_exit_children(file, ls, cur + 1, ei).2);
            }
        }
    }
}

proof fn lemma_block_codes(file: Seq<char>, ls: Seq<LineInfo>, i: int, ind: nat)
    ensures
        parse_codes(sp_block(file, ls, i, ind).2),
    decreases ls.len() - i, 1int,
{
    if 0 <= i < ls.len() {
        let t = proc_line(ls, i);
        let rest = rest_of(t);
        lemma_line_codes(file, ls, i);
        lemma_or_codes(file, ls, i + 1, ind);
        lemma_rule_codes(file, ls, i + 1, indent_of(t), empty_rule());
        lemma_codes_concat(tabs(file, ls, i), sp_rule_body(file, ls, i + 1, indent_of(t), empty_rule()).2);
        lemma_exit_codes(file, ls, i + 1, ind);
        lemma_codes_concat(tabs(file, ls, i), sp_exit_children(file, ls, i + 1, ind).2);
        assert(Seq::<PlainDiag>::empty().push(unrecognised(file, ls, i)) =~= seq![unrecognised(file, ls, i)]);
        if (starts_with(rest, "* "@) || starts_with(rest, "+ "@)) && choice_label(rest.skip(2)).len() != 0 {
            lemma_choice_codes(file, ls, i, ind);
        }
    }
}

proof fn lemma_choice_codes(file: Seq<char>, ls: Seq<LineInfo>, i: int, ind: nat)
    ensures
        parse_codes(sp_choice(file, ls, i, ind).2),
    decreases ls.len() - i, 0int,
{
    if 0 <= i < ls.len() {
        lemma_line_codes(file, ls, i);
        lemma_content_codes(file, ls, i + 1, ind + 1);
        lemma_codes_concat(tabs(file, ls, i), sp_content(file, ls, i + 1, ind + 1).2);
    }
}

proof fn lemma_content_codes(file: Seq<char>, ls: Seq<LineInfo>, cur: int, mi: nat)
    ensures
        parse_codes(sp_content(file, ls, cur, mi).2),
    decreases ls.len() - cur, 2int,
{
    if 0 <= cur < ls.len() {
        if blank(ls[cur].text@) {
            lemma_content_codes(file, ls, cur + 1, mi);
        } else {
            let ind = indent_of(proc_line(ls, cur));
            lemma_line_codes(file, ls, cur);
            if !(mi > 0 && ind < mi) {
                let b = sp_block(file, ls, cur, ind);
                lemma_block_codes(file, ls, cur, ind);
                lemma_codes_concat(tabs(file, ls, cur), b.2);
                if cur < b.1 <= ls.len() {
                    lemma_content_codes(file, ls, b.1, mi);
                    lemma_codes_concat(tabs(file, ls, cur) + b.2, sp_content(file, ls, b.1, mi).2);
                }
            }
        }
    }
}

/// The content parser only ever reports tab characters (URD102) and
/// unrecognised syntax (URD112), both in the PARSE code range.
pub proof fn lemma_content_diagnostic_codes(file: Seq<char>, ls: Seq<LineInfo>, start: int, min_indent: nat)
    ensures
        parse_codes(sp_content(file, ls, start, min_indent).2),
{
    lemma_content_codes(file, ls, start, min_indent);
}

// ── Whole files ──

/// The number of UTF-8 bytes is at least the number of characters.
pub proof fn lemma_encode_len(s: Seq<char>)
    ensures
        vstd::utf8::encode_utf8(s).len() >= s.len(),
    decreases s.len(),
{
    if s.len() > 0 {
        lemma_encode_len(s.drop_first());
    }
}

/// `---`, possibly followed by white space.
pub open spec fn is_delimiter(t: Seq<char>) -> bool {
    crate::text::trim_end(t) == "---"@
}

/// The first frontmatter delimiter line at or after `from`.
pub open spec fn closing_delimiter(ls: Seq<LineInfo>, from: int) -> Option<int>
    decreases ls.len() - from,
{
    if from < 0 || from >= ls.len() {
        None
    } else if is_delimiter(ls[from].text@) {
        Some(from)
    } else {
        closing_delimiter(ls, from + 1)
    }
}

proof fn lemma_closing_delimiter(ls: Seq<LineInfo>, from: int)
    requires
        0 <= from,
    ensures
        match closing_delimiter(ls, from) {
            Some(c) => from <= c < ls.len() && is_delimiter(ls[c].text@),
            None => true,
        },
    decreases ls.len() - from,
{
    if from < ls.len() && !is_delimiter(ls[from].text@) {
        lemma_closing_delimiter(ls, from + 1);
    }
}

pub open spec fn without_bom(s: Seq<char>) -> Seq<char> {
    if s.len() > 0 && s[0] == '\u{FEFF}' { s.drop_first() } else { s }
}

pub open spec fn msg_too_large(path: Seq<char>, bytes: nat) -> Seq<char> {
    "File exceeds 1 MB size limit: "@ + path + " is "@ + decimal(bytes) + " bytes."@
}

/// Where the content of a file starts, given its lines: after the closing
/// delimiter when the first line opens a frontmatter block (`None` when
/// that block is never closed), else at the first line.
pub open spec fn content_start(ls: Seq<LineInfo>) -> Option<int> {
    if ls.len() > 0 && is_delimiter(ls[0].text@) {
        match closing_delimiter(ls, 1) {
            Some(c) => Some(c + 1),
            None => None,
        }
    } else {
        Some(0)
    }
}

fn is_delimiter_exec(v: &Vec<char>) -> (b: bool)
    ensures
        b == is_delimiter(v@),
{
    let t = crate::text::trim_end_chars(v);
    crate::text::chars_equal(&t, &chars_of("---"))
}

/// The diagnostics and fault of a file's frontmatter block, when its
/// content starts at line `start` (a block exists when `start > 0`).
pub open spec fn frontmatter_run(file: Seq<char>, ls: Seq<LineInfo>, start: int) -> (Seq<PlainDiag>, bool) {
    if start > 0 {
        let r = crate::frontmatter::fm_entries(file, ls, 1, start - 1);
        (r.2, r.3)
    } else {
        (Seq::empty(), false)
    }
}

/// What PARSE gives for a file: an oversized source fails with URD103;
/// otherwise, over the source's lines, an unclosed frontmatter block fails
/// with URD101, and any other source gives the file's frontmatter and
/// content, with the diagnostics of both appended.
pub open spec fn parse_outcome(path: Seq<char>, source: &str, old: Seq<crate::diagnostics::Diagnostic>, new: Seq<crate::diagnostics::Diagnostic>,
    r: Option<FileAst>) -> bool {
    &&& (source.len() > crate::graph::MAX_FILE_SIZE ==> {
            &&& r is None
            &&& appended(new, old, seq![(Severity::Error, "URD103"@,
                msg_too_large(path, source.len() as nat), (path, 1u32, 1u32, 1u32, 1u32))])
        })
    &&& (source.len() <= crate::graph::MAX_FILE_SIZE ==> {
            exists|ls: Seq<LineInfo>| {
                &&& crate::parse::lines_wf(ls)
                &&& crate::parse::line_texts(ls) == crate::parse::lines_of(without_bom(source@))
                &&& match content_start(ls) {
                    None => r is None && appended(new, old,
                        seq![(Severity::Error, "URD101"@, "Unclosed frontmatter block. Expected closing '---'."@,
                            line_span_v(path, ls[0]))]),
                    Some(start) => r matches Some(f) && {
                        let fr = frontmatter_run(path, ls, start);
                        let run = sp_content(path, ls, start, 0);
                        &&& f.path@ == path
                        &&& match f.frontmatter {
                            Some(fm) => start > 0
                                && entries_view(fm.entries@) == crate::frontmatter::fm_entries(path, ls, 1, start - 1).0
                                && span_view(fm.span) == crate::frontmatter::fm_span(path, ls, 1, start - 1),
                            None => start == 0,
                        }
                        &&& nodes_view(f.content@) == run.0
                        &&& appended(new, old, fr.0 + run.2)
                        &&& f.slice_fault == (fr.1 || run.3)
                        &&& span_view(f.span) == crate::parse::span_lines_v(path, ls[0], ls[ls.len() - 1])
                    },
                }
            }
        })
}

/// Parse a single `.urd.md` source file.
///
/// Returns `None` only for a file over the 1 MB size limit (URD103) and
/// for an unclosed frontmatter block (URD101). A leading byte-order mark is
/// dropped. The frontmatter block (between `---` delimiters on the first
/// line and the next such line) is parsed before the content.
pub fn parse(path: &str, source: &str, diagnostics: &mut DiagnosticCollector)
    -> (r: Option<FileAst>)
    ensures
        parse_outcome(path@, source, old(diagnostics)@, final(diagnostics)@, r),
        r is None ==> final(diagnostics)@.len() == old(diagnostics)@.len() + 1
            && final(diagnostics)@.last().severity == Severity::Error,
{
    let raw = source.as_bytes();
    let bytes = raw.len();
    proof {
        lemma_encode_len(source@);
        assert(raw@ == vstd::utf8::encode_utf8(source@));
        assert(bytes == source.len());
    }
    if bytes > crate::graph::MAX_FILE_SIZE {
        let mut m = chars_of("File exceeds 1 MB size limit: ");
        push_str(&mut m, path);
        push_str(&mut m, " is ");
        let n = decimal_chars(bytes as u64);
        push_chars(&mut m, &n);
        push_str(&mut m, " bytes.");
        let ghost before = diagnostics@;
        diagnostics.error("URD103", string_from_chars(m),
            Span::new(string_from_chars(chars_of(path)), 1, 1, 1, 1));
        proof {
            assert(diagnostics@.take(before.len() as int) == before);
            assert(diagnostics@[before.len() as int] == diagnostics@.last());
        }
        return None;
    }
    let v = chars_of(source);
    let text = if v.len() > 0 && v[0] == '\u{FEFF}' { skip_chars(&v, 1) } else { slice_chars(&v, 0, v.len()) };
    proof {
        if !(v@.len() > 0 && v@[0] == '\u{FEFF}') {
            assert(text@ =~= v@);
        }
    }
    let stripped = string_from_chars(text);
    let mut parser = Parser::new(path, stripped.as_str());
    let ghost ls = parser.lines@;
    proof {
        crate::text::lemma_split_on_nonempty(stripped@, '\n');
        assert(ls.len() >= 1) by {
            assert(crate::parse::line_texts(ls).len() == ls.len());
        }
    }
    let last = parser.lines.len() - 1;
    let file_span = parser.span_lines(0, last);
    let mut frontmatter: Option<Frontmatter> = None;
    let ghost d0 = diagnostics@;
    let ghost mut pre: Seq<PlainDiag> = Seq::empty();
    proof { lemma_appended_empty(d0); }
    if is_delimiter_exec(&parser.lines[0].text) {
        let mut close: Option<usize> = None;
        let mut i: usize = 1;
        loop
            invariant_except_break
                parser.lines@ == ls,
                1 <= i <= ls.len(),
                close is None,
                closing_delimiter(ls, 1) == closing_delimiter(ls, i as int),
            ensures
                parser.lines@ == ls,
                match close {
                    Some(c) => c < ls.len() && closing_delimiter(ls, 1) == Some(c as int),
                    None => closing_delimiter(ls, 1) is None,
                },
            decreases ls.len() - i,
        {
            if i >= parser.lines.len() {
                break;
            }
            if is_delimiter_exec(&parser.lines[i].text) {
                close = Some(i);
                break;
            }
            i += 1;
        }
        match close {
            Some(cl) => {
                proof { lemma_closing_delimiter(ls, 1); }
                let fm = crate::frontmatter::parse_frontmatter(&mut parser, 1, cl, diagnostics);
                proof { pre = crate::frontmatter::fm_entries(parser.file_path@, ls, 1, cl as int).2; }
                frontmatter = Some(fm);
                parser.current_line = cl + 1;
            },
            None => {
                let span = parser.line_span(0);
                let ghost before = diagnostics@;
                diagnostics.error("URD101", string_from_chars(chars_of("Unclosed frontmatter block. Expected closing '---'.")), span);
                proof {
                    assert(diagnostics@.take(before.len() as int) == before);
                    assert(diagnostics@[before.len() as int] == diagnostics@.last());
                }
                return None;
            },
        }
    }
    let ghost d1 = diagnostics@;
    let ghost cs = parser.current_line as int;
    let content = parse_content(&mut parser, 0, diagnostics);
    proof {
        lemma_appended_trans(d0, d1, diagnostics@, pre, sp_content(parser.file_path@, ls, cs, 0).2);
    }
    Some(FileAst {
        path: string_from_chars(chars_of(path)),
        frontmatter,
        content,
        span: file_span,
        slice_fault: parser.slice_fault,
    })
}

proof fn lemma_ident_end_concat(a: Seq<char>, b: Seq<char>)
    requires
        forall|i: int| 0 <= i < a.len() ==> ident_char(#[trigger] a[i]),
        b.len() > 0,
        !ident_char(b[0]),
    ensures
        ident_end(a + b) == a.len(),
    decreases a.len(),
{
    if a.len() > 0 {
        assert((a + b).drop_first() =~= a.drop_first() + b);
        assert(ident_char((a + b)[0]));
        lemma_ident_end_concat(a.drop_first(), b);
    } else {
        assert(a + b =~= b);
    }
}

/// Trimming text that starts with a non-white character keeps that
/// character first.
proof fn lemma_trim_keeps_first(x: Seq<char>)
    requires
        x.len() > 0,
        !crate::text::is_white(x[0]),
    ensures
        trim(x).len() > 0,
        trim(x)[0] == x[0],
{
    crate::text::lemma_trim_start(x);
    assert(crate::text::trim_start(x) == x);
    crate::text::lemma_trim_end(x);
    if crate::text::trailing_white(x) == x.len() {
        assert(crate::text::is_white(x[0]));
    }
}

/// A condition `@entity.property OP value` parses to a comparison with
/// exactly that operator: whatever operator of `==`, `!=`, `>=`, `<=`, `>`,
/// `<` is written, the parsed comparison has it whole, the entity, the
/// trimmed property and the trimmed value (for a property and value with
/// no operator characters in them).
pub proof fn lemma_condition_comparison(ent: Seq<char>, p: Seq<char>, op: Seq<char>, v: Seq<char>, span: SpanV)
    requires
        op == "=="@ || op == "!="@ || op == ">="@ || op == "<="@ || op == ">"@ || op == "<"@,
        ent.len() > 0,
        forall|i: int| 0 <= i < ent.len() ==> ident_char(#[trigger] ent[i]),
        no_op_chars(p),
        no_op_chars(v),
        trim(p).len() > 0,
        trim("@"@ + ent + "."@ + p + op + v) == "@"@ + ent + "."@ + p + op + v,
        !ends_with("@"@ + ent + "."@ + p + op + v, ".exhausted"@),
    ensures
        cond_expr("@"@ + ent + "."@ + p + op + v, span) == Some(CondV::Comparison {
            entity_ref: ent, property: trim(p), operator: op, value: trim(v), bare: true, span,
        }),
{
    reveal_strlit("@");
    reveal_strlit(".");
    reveal_strlit("not in ");
    reveal_strlit("in ");
    assert("@"@ =~= seq!['@']);
    assert("."@ =~= seq!['.']);
    let text = "@"@ + ent + "."@ + p + op + v;
    let tail = p + op + v;
    assert(text =~= seq!['@'] + (ent + (seq!['.'] + tail)));
    assert(text.take(1) =~= seq!['@']);
    assert(starts_with(text, "@"@));
    let rest = text.skip(1);
    assert(rest =~= ent + (seq!['.'] + tail));
    assert(!ident_char('.'));
    lemma_ident_end_concat(ent, seq!['.'] + tail);
    let id = ident_end(rest);
    assert(id == ent.len());
    assert(rest.take(id as int) =~= ent);
    assert(rest.skip(id as int) =~= seq!['.'] + tail);
    assert(!crate::text::is_white('.'));
    lemma_trim_keeps_first(seq!['.'] + tail);
    let after = trim(rest.skip(id as int));
    assert(after[0] == '.');
    assert(!starts_with(after, "not in "@)) by {
        if starts_with(after, "not in "@) { assert(after.take(7)[0] == after[0]); }
    }
    assert(!starts_with(after, "in "@)) by {
        if starts_with(after, "in "@) { assert(after.take(3)[0] == after[0]); }
    }
    assert(rest[id as int] == '.');
    assert(rest.skip(id as int + 1) =~= tail);
    lemma_comparison_keeps_operator(ent, p, op, v, span);
}

} // verus!
